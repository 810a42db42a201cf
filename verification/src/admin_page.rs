//! The worker's hidden admin page: an HTML overview of the uploaded
//! sessions, with every stored text escaped.
use vstd::prelude::*;

use crate::admin::{html_escape, html_escaped};
use crate::text::{chars_of, decimal, push_all, push_decimal, string_from_chars};

verus! {

/// Session counts shown at the top of the page.
#[derive(Debug, Clone, Copy)]
pub struct AdminOverviewTotals {
    pub total_sessions: u32,
    pub live_sessions: u32,
    pub archived_sessions: u32,
    pub sessions_last_24h: u32,
    pub sessions_last_7d: u32,
}

/// What the page shows of one session; times are already rendered.
#[derive(Debug, Clone)]
pub struct AdminPageRow {
    pub session_id: String,
    pub created_at_iso: String,
    pub archived_at_iso: Option<String>,
    pub status: String,
    pub sport: String,
    pub team_size: Option<u8>,
    pub player_count: usize,
    pub ranking_count: usize,
}

/// What the page shows.
#[derive(Debug, Clone)]
pub struct AdminPageData {
    pub generated_at_iso: String,
    pub totals: AdminOverviewTotals,
    pub sessions: Vec<AdminPageRow>,
}

/// Shown for a value that a session does not have.
pub const MISSING_VALUE: &'static str = "—";

/// The table row shown when there are no sessions.
pub const EMPTY_TABLE_ROW: &'static str = "<tr><td colspan=\"8\">No uploaded sessions found in live or archived storage.</td></tr>";

/// The page up to the generation time.
pub const PAGE_HEAD: &'static str = "<!doctype html><html lang=\"en\"><head><meta charset=\"utf-8\"><meta name=\"viewport\" content=\"width=device-width, initial-scale=1\"><title>PPP Admin Sessions</title><style>:root { color-scheme: light; }body { margin: 0; font: 14px/1.5 ui-monospace, SFMono-Regular, Menlo, monospace; background: #f5f1e8; color: #1f2937; }main { max-width: 1200px; margin: 0 auto; padding: 24px; }h1 { margin: 0 0 8px; font-size: 22px; }p { margin: 0 0 16px; color: #4b5563; }.stats { display: grid; grid-template-columns: repeat(auto-fit, minmax(150px, 1fr)); gap: 10px; margin: 20px 0 24px; }.card { background: #fffdf8; border: 1px solid #d6d0c4; border-radius: 10px; padding: 12px; }.label { display: block; font-size: 11px; letter-spacing: 0.08em; text-transform: uppercase; color: #6b7280; }.value { display: block; margin-top: 6px; font-size: 22px; color: #111827; }table { width: 100%; border-collapse: collapse; background: #fffdf8; border: 1px solid #d6d0c4; }th, td { padding: 10px 12px; border-bottom: 1px solid #e5ded0; text-align: left; vertical-align: top; }th { font-size: 11px; letter-spacing: 0.08em; text-transform: uppercase; color: #6b7280; background: #f8f4eb; }tr:last-child td { border-bottom: none; }code { font-size: 12px; }</style></head><body><main><h1>Online Session Overview</h1><p>Generated ";

/// From the generation time to the total count.
pub const PAGE_AFTER_GENERATED: &'static str = ". This hidden page is served directly by the Worker and is not linked from the public app.</p><section class=\"stats\"><div class=\"card\"><span class=\"label\">Total Sessions</span><span class=\"value\">";

/// From the total count to the live count.
pub const PAGE_AFTER_TOTAL: &'static str = "</span></div><div class=\"card\"><span class=\"label\">Live Sessions</span><span class=\"value\">";

/// From the live count to the archived count.
pub const PAGE_AFTER_LIVE: &'static str = "</span></div><div class=\"card\"><span class=\"label\">Archived Sessions</span><span class=\"value\">";

/// From the archived count to the 24-hour count.
pub const PAGE_AFTER_ARCHIVED: &'static str = "</span></div><div class=\"card\"><span class=\"label\">Created 24h</span><span class=\"value\">";

/// From the 24-hour count to the 7-day count.
pub const PAGE_AFTER_LAST_DAY: &'static str = "</span></div><div class=\"card\"><span class=\"label\">Created 7d</span><span class=\"value\">";

/// From the 7-day count to the table rows.
pub const PAGE_AFTER_LAST_WEEK: &'static str = "</span></div></section><table><thead><tr><th>Session</th><th>Created</th><th>Archived</th><th>Status</th><th>Sport</th><th>Team</th><th>Players</th><th>Ranked</th></tr></thead><tbody>";

/// After the table rows.
pub const PAGE_TAIL: &'static str = "</tbody></table></main></body></html>";

/// A table cell's opening and closing tags around `inner`.
pub open spec fn cell(inner: Seq<char>) -> Seq<char> {
    "<td>"@ + inner + "</td>"@
}

/// The archive time shown for a session: escaped, or the missing mark.
pub open spec fn archived_cell(archived_at_iso: Option<String>) -> Seq<char> {
    match archived_at_iso {
        Some(t) => html_escaped(t@),
        None => MISSING_VALUE@,
    }
}

/// The sport shown for a session: escaped, or the missing mark when empty.
pub open spec fn sport_cell(sport: Seq<char>) -> Seq<char> {
    if sport.len() == 0 {
        MISSING_VALUE@
    } else {
        html_escaped(sport)
    }
}

/// The team size shown for a session.
pub open spec fn team_cell(team_size: Option<u8>) -> Seq<char> {
    match team_size {
        Some(n) => decimal(n as nat),
        None => MISSING_VALUE@,
    }
}

/// A session's table row.
pub open spec fn row_html(row: AdminPageRow) -> Seq<char> {
    "<tr><td><code>"@ + html_escaped(row.session_id@) + "</code></td>"@ + cell(
        html_escaped(row.created_at_iso@),
    ) + cell(archived_cell(row.archived_at_iso)) + cell(html_escaped(row.status@)) + cell(
        sport_cell(row.sport@),
    ) + cell(team_cell(row.team_size)) + cell(decimal(row.player_count as nat)) + cell(
        decimal(row.ranking_count as nat),
    ) + "</tr>"@
}

/// The rows of all sessions, in order.
pub open spec fn rows_html(rows: Seq<AdminPageRow>) -> Seq<char>
    decreases rows.len(),
{
    if rows.len() == 0 {
        Seq::empty()
    } else {
        rows_html(rows.drop_last()) + row_html(rows.last())
    }
}

/// The table body: the sessions' rows, or a single row saying there are none.
pub open spec fn table_body(rows: Seq<AdminPageRow>) -> Seq<char> {
    if rows_html(rows).len() == 0 {
        EMPTY_TABLE_ROW@
    } else {
        rows_html(rows)
    }
}

/// The whole page.
pub open spec fn page_html(data: AdminPageData) -> Seq<char> {
    PAGE_HEAD@ + html_escaped(data.generated_at_iso@) + PAGE_AFTER_GENERATED@ + decimal(
        data.totals.total_sessions as nat,
    ) + PAGE_AFTER_TOTAL@ + decimal(data.totals.live_sessions as nat) + PAGE_AFTER_LIVE@
        + decimal(data.totals.archived_sessions as nat) + PAGE_AFTER_ARCHIVED@ + decimal(
        data.totals.sessions_last_24h as nat,
    ) + PAGE_AFTER_LAST_DAY@ + decimal(data.totals.sessions_last_7d as nat)
        + PAGE_AFTER_LAST_WEEK@ + table_body(data.sessions@) + PAGE_TAIL@
}

fn push_str(out: &mut Vec<char>, s: &str)
    ensures
        final(out)@ == old(out)@ + s@,
{
    push_all(out, chars_of(s).as_slice());
}

fn push_escaped(out: &mut Vec<char>, s: &str)
    ensures
        final(out)@ == old(out)@ + html_escaped(s@),
{
    let escaped = html_escape(s);
    push_all(out, chars_of(escaped.as_str()).as_slice());
}

fn push_cell_end(out: &mut Vec<char>, ghost_start: Ghost<Seq<char>>, inner: Ghost<Seq<char>>)
    requires
        old(out)@ == ghost_start@ + "<td>"@ + inner@,
    ensures
        final(out)@ == ghost_start@ + cell(inner@),
{
    push_str(out, "</td>");
    proof {
        assert(out@ =~= ghost_start@ + cell(inner@));
    }
}

fn push_escaped_cell(out: &mut Vec<char>, s: &str)
    ensures
        final(out)@ == old(out)@ + cell(html_escaped(s@)),
{
    let ghost start = out@;
    push_str(out, "<td>");
    push_escaped(out, s);
    push_cell_end(out, Ghost(start), Ghost(html_escaped(s@)));
}

fn push_archived_cell(out: &mut Vec<char>, archived_at_iso: &Option<String>)
    ensures
        final(out)@ == old(out)@ + cell(archived_cell(*archived_at_iso)),
{
    let ghost start = out@;
    push_str(out, "<td>");
    match archived_at_iso {
        Some(t) => push_escaped(out, t.as_str()),
        None => push_str(out, MISSING_VALUE),
    }
    push_cell_end(out, Ghost(start), Ghost(archived_cell(*archived_at_iso)));
}

fn push_sport_cell(out: &mut Vec<char>, sport: &str)
    ensures
        final(out)@ == old(out)@ + cell(sport_cell(sport@)),
{
    let ghost start = out@;
    push_str(out, "<td>");
    if sport.is_empty() {
        push_str(out, MISSING_VALUE);
    } else {
        push_escaped(out, sport);
    }
    push_cell_end(out, Ghost(start), Ghost(sport_cell(sport@)));
}

fn push_number_cell(out: &mut Vec<char>, n: u64)
    ensures
        final(out)@ == old(out)@ + cell(decimal(n as nat)),
{
    let ghost start = out@;
    push_str(out, "<td>");
    push_decimal(out, n);
    push_cell_end(out, Ghost(start), Ghost(decimal(n as nat)));
}

fn push_team_cell(out: &mut Vec<char>, team_size: Option<u8>)
    ensures
        final(out)@ == old(out)@ + cell(team_cell(team_size)),
{
    match team_size {
        Some(n) => push_number_cell(out, n as u64),
        None => {
            let ghost start = out@;
            push_str(out, "<td>");
            push_str(out, MISSING_VALUE);
            push_cell_end(out, Ghost(start), Ghost(team_cell(team_size)));
        },
    }
}

fn push_row_html(out: &mut Vec<char>, row: &AdminPageRow)
    ensures
        final(out)@ == old(out)@ + row_html(*row),
{
    let ghost start = out@;
    push_str(out, "<tr><td><code>");
    push_escaped(out, row.session_id.as_str());
    push_str(out, "</code></td>");
    push_escaped_cell(out, row.created_at_iso.as_str());
    push_archived_cell(out, &row.archived_at_iso);
    push_escaped_cell(out, row.status.as_str());
    push_sport_cell(out, row.sport.as_str());
    push_team_cell(out, row.team_size);
    push_number_cell(out, row.player_count as u64);
    push_number_cell(out, row.ranking_count as u64);
    push_str(out, "</tr>");
    proof {
        assert(out@ =~= start + row_html(*row));
    }
}

/// The hidden admin page for `data`.
pub fn render_admin_html_page(data: &AdminPageData) -> (r: String)
    ensures
        r@ == page_html(*data),
{
    let mut rows: Vec<char> = Vec::new();
    let mut i: usize = 0;
    while i < data.sessions.len()
        invariant
            i <= data.sessions@.len(),
            rows@ == rows_html(data.sessions@.take(i as int)),
        decreases data.sessions@.len() - i,
    {
        push_row_html(&mut rows, &data.sessions[i]);
        proof {
            assert(data.sessions@.take(i as int + 1).drop_last() == data.sessions@.take(i as int));
        }
        i = i + 1;
    }
    proof {
        assert(data.sessions@.take(data.sessions@.len() as int) == data.sessions@);
    }
    if rows.len() == 0 {
        push_str(&mut rows, EMPTY_TABLE_ROW);
        proof {
            assert(rows@ =~= EMPTY_TABLE_ROW@);
        }
    }
    let mut out: Vec<char> = Vec::new();
    push_str(&mut out, PAGE_HEAD);
    push_escaped(&mut out, data.generated_at_iso.as_str());
    push_str(&mut out, PAGE_AFTER_GENERATED);
    push_decimal(&mut out, data.totals.total_sessions as u64);
    push_str(&mut out, PAGE_AFTER_TOTAL);
    push_decimal(&mut out, data.totals.live_sessions as u64);
    push_str(&mut out, PAGE_AFTER_LIVE);
    push_decimal(&mut out, data.totals.archived_sessions as u64);
    push_str(&mut out, PAGE_AFTER_ARCHIVED);
    push_decimal(&mut out, data.totals.sessions_last_24h as u64);
    push_str(&mut out, PAGE_AFTER_LAST_DAY);
    push_decimal(&mut out, data.totals.sessions_last_7d as u64);
    push_str(&mut out, PAGE_AFTER_LAST_WEEK);
    push_all(&mut out, rows.as_slice());
    push_str(&mut out, PAGE_TAIL);
    proof {
        assert(out@ =~= page_html(*data));
    }
    string_from_chars(out.as_slice())
}

} // verus!

//! Online sync with the worker: where the API lives, the share links, the
//! storage keys of the sync state, and how worker errors are shown.
use vstd::prelude::*;

use crate::json::{json_parsed, parse_json_value, JsonMember, JsonValue};
use crate::text::{
    ascii_lower, chars_of, contains_chars, contains_text, lower_chars, push_all, push_decimal,
    decimal, join, join_chars, char_views, string_from_chars, trim, trim_chars,
};

verus! {

// ── API base ────────────────────────────────────────────────────────────────

/// The base URL of the API for a page served from `origin`: a page served
/// by the local dev server (`localhost:8080`) talks to the local worker on
/// port 8787; any other page talks to its own origin; with no origin the
/// base is empty (relative URLs).
pub open spec fn api_base_for(origin: Option<Seq<char>>) -> Seq<char> {
    match origin {
        Some(o) => if contains_text(o, "localhost:8080"@) {
            "http://localhost:8787"@
        } else {
            o
        },
        None => Seq::empty(),
    }
}

/// The base URL of the API, given the browser origin (if it could be read).
pub fn api_base(browser_origin: Option<&str>) -> (r: String)
    ensures
        r@ == api_base_for(
            match browser_origin {
                Some(o) => Some(o@),
                None => None,
            },
        ),
{
    match browser_origin {
        Some(origin) => {
            let o = chars_of(origin);
            if contains_chars(o.as_slice(), chars_of("localhost:8080").as_slice()) {
                string_from_chars(chars_of("http://localhost:8787").as_slice())
            } else {
                string_from_chars(o.as_slice())
            }
        },
        None => String::new(),
    }
}

// ── Sync state ──────────────────────────────────────────────────────────────

/// What a coach device keeps about an online session.
#[derive(Debug, Clone)]
pub struct SyncState {
    /// The session UUID.
    pub session_id: String,
    /// Sequence number of the last event the server has.
    pub last_pushed_seq: u64,
    /// Token of the assistant share link.
    pub assistant_token: String,
    /// Token of the player share link.
    pub player_token: String,
    /// Write key that the coach sends as `X-Coach-Key` with every append.
    pub coach_key: String,
}

impl SyncState {
    /// The assistant share link.
    pub fn assistant_url(&self, api_base: &str) -> (r: String)
        ensures
            r@ == api_base@ + "/a/"@ + self.assistant_token@,
    {
        let mut out = chars_of(api_base);
        push_all(&mut out, chars_of("/a/").as_slice());
        push_all(&mut out, chars_of(self.assistant_token.as_str()).as_slice());
        string_from_chars(out.as_slice())
    }

    /// The player share link.
    pub fn player_url(&self, api_base: &str) -> (r: String)
        ensures
            r@ == api_base@ + "/p/"@ + self.player_token@,
    {
        let mut out = chars_of(api_base);
        push_all(&mut out, chars_of("/p/").as_slice());
        push_all(&mut out, chars_of(self.player_token.as_str()).as_slice());
        string_from_chars(out.as_slice())
    }
}

// ── Storage keys ────────────────────────────────────────────────────────────

/// `prefix` followed by `id`.
fn prefixed(prefix: &str, id: &str) -> (r: String)
    ensures
        r@ == prefix@ + id@,
{
    let mut out = chars_of(prefix);
    push_all(&mut out, chars_of(id).as_slice());
    string_from_chars(out.as_slice())
}

/// The local-storage key of a session's sync state.
pub fn sync_key(session_id: &str) -> (r: String)
    ensures
        r@ == "pcpp_sync_"@ + session_id@,
{
    prefixed("pcpp_sync_", session_id)
}

/// The local-storage key of a share token's cached resolution.
pub fn token_info_cache_key(token: &str) -> (r: String)
    ensures
        r@ == "pcpp_token_info_"@ + token@,
{
    prefixed("pcpp_token_info_", token)
}

// ── Share tokens ────────────────────────────────────────────────────────────

/// What a share token resolves to.
#[derive(Debug, Clone)]
pub struct TokenInfo {
    pub session_id: String,
    pub role: String,
    pub requires_pin: bool,
}

/// A resolution is cached only when it needs no PIN and names both a
/// session and a role.
pub fn should_cache_token_info(info: &TokenInfo) -> (r: bool)
    ensures
        r == (!info.requires_pin && info.session_id@.len() > 0 && info.role@.len() > 0),
{
    !(info.requires_pin || info.session_id.as_str().is_empty() || info.role.as_str().is_empty())
}

// ── Endpoints ───────────────────────────────────────────────────────────────

/// `POST /api/sessions`: upload a session ("go online").
pub fn go_online_url(api_base: &str) -> (r: String)
    ensures
        r@ == api_base@ + "/api/sessions"@,
{
    prefixed(api_base, "/api/sessions")
}

/// `/api/sessions/<id>/<action>`.
fn session_url(api_base: &str, session_id: &str, action: &str) -> (r: String)
    ensures
        r@ == api_base@ + "/api/sessions/"@ + session_id@ + "/"@ + action@,
{
    let mut out = chars_of(api_base);
    push_all(&mut out, chars_of("/api/sessions/").as_slice());
    push_all(&mut out, chars_of(session_id).as_slice());
    push_all(&mut out, chars_of("/").as_slice());
    push_all(&mut out, chars_of(action).as_slice());
    string_from_chars(out.as_slice())
}

/// `/api/t/<token>` with an optional action after it.
fn token_url(api_base: &str, token: &str, action: Option<&str>) -> (r: String)
    ensures
        r@ == api_base@ + "/api/t/"@ + token@ + match action {
            Some(a) => "/"@ + a@,
            None => Seq::empty(),
        },
{
    let mut out = chars_of(api_base);
    push_all(&mut out, chars_of("/api/t/").as_slice());
    push_all(&mut out, chars_of(token).as_slice());
    match action {
        Some(a) => {
            push_all(&mut out, chars_of("/").as_slice());
            push_all(&mut out, chars_of(a).as_slice());
        },
        None => {
            proof {
                assert(out@ + Seq::<char>::empty() == out@);
            }
        },
    }
    string_from_chars(out.as_slice())
}

/// `POST /api/sessions/<id>/events`: append the coach's new events.
pub fn push_new_events_url(api_base: &str, session_id: &str) -> (r: String)
    ensures
        r@ == api_base@ + "/api/sessions/"@ + session_id@ + "/"@ + "events"@,
{
    session_url(api_base, session_id, "events")
}

/// `GET /api/sessions/<id>/events?since=<n>`: events after cursor `since`.
pub fn pull_events_url(api_base: &str, session_id: &str, since: u32) -> (r: String)
    ensures
        r@ == api_base@ + "/api/sessions/"@ + session_id@ + "/events?since="@ + decimal(
            since as nat,
        ),
{
    let mut out = chars_of(api_base);
    push_all(&mut out, chars_of("/api/sessions/").as_slice());
    push_all(&mut out, chars_of(session_id).as_slice());
    push_all(&mut out, chars_of("/events?since=").as_slice());
    push_decimal(&mut out, since as u64);
    string_from_chars(out.as_slice())
}

/// `GET /api/t/<token>`: resolve a share token.
pub fn resolve_token_url(api_base: &str, token: &str) -> (r: String)
    ensures
        r@ == api_base@ + "/api/t/"@ + token@,
{
    let r = token_url(api_base, token, None);
    proof {
        assert(api_base@ + "/api/t/"@ + token@ + Seq::<char>::empty() == api_base@ + "/api/t/"@ + token@);
    }
    r
}

/// `POST /api/t/<token>/auth`: unlock a PIN-protected share token.
pub fn auth_token_url(api_base: &str, token: &str) -> (r: String)
    ensures
        r@ == api_base@ + "/api/t/"@ + token@ + ("/"@ + "auth"@),
{
    token_url(api_base, token, Some("auth"))
}

/// `POST /api/t/<token>/pin`: set or clear a share token's PIN.
pub fn set_token_pin_url(api_base: &str, token: &str) -> (r: String)
    ensures
        r@ == api_base@ + "/api/t/"@ + token@ + ("/"@ + "pin"@),
{
    token_url(api_base, token, Some("pin"))
}

/// `POST /api/sessions/<id>/pin`: set the coach recovery PIN.
pub fn set_recovery_pin_url(api_base: &str, session_id: &str) -> (r: String)
    ensures
        r@ == api_base@ + "/api/sessions/"@ + session_id@ + "/"@ + "pin"@,
{
    session_url(api_base, session_id, "pin")
}

/// `POST /api/sessions/<id>/recover`: recover a session with the coach PIN.
pub fn recover_session_url(api_base: &str, session_id: &str) -> (r: String)
    ensures
        r@ == api_base@ + "/api/sessions/"@ + session_id@ + "/"@ + "recover"@,
{
    session_url(api_base, session_id, "recover")
}

/// `POST /api/sessions/<id>/archive`: store the session's summary.
pub fn push_session_archive_url(api_base: &str, session_id: &str) -> (r: String)
    ensures
        r@ == api_base@ + "/api/sessions/"@ + session_id@ + "/"@ + "archive"@,
{
    session_url(api_base, session_id, "archive")
}

// ── Worker errors ───────────────────────────────────────────────────────────

/// The body is Cloudflare's page for an exhausted daily Worker quota
/// (error 1027), in any letter case.
pub open spec fn is_daily_quota_error(raw_body: Seq<char>) -> bool {
    let lowered = ascii_lower(raw_body);
    contains_text(lowered, "error 1027"@) || contains_text(lowered, "error code: 1027"@)
        || contains_text(lowered, "cloudflare error 1027"@)
}

/// Whether an error body is Cloudflare's daily-quota page.
pub fn body_matches_cloudflare_daily_quota_error(raw_body: &str) -> (r: bool)
    ensures
        r == is_daily_quota_error(raw_body@),
{
    let lowered = lower_chars(chars_of(raw_body).as_slice());
    contains_chars(lowered.as_slice(), chars_of("error 1027").as_slice()) || contains_chars(
        lowered.as_slice(),
        chars_of("error code: 1027").as_slice(),
    ) || contains_chars(lowered.as_slice(), chars_of("cloudflare error 1027").as_slice())
}

/// The message for an exhausted daily quota; `reset_time_local` is the next
/// UTC midnight in the user's local time, when the browser could say it (a
/// blank text counts as not said).
pub open spec fn daily_quota_message(reset_time_local: Option<Seq<char>>) -> Seq<char> {
    let reset = match reset_time_local {
        Some(t) if trim(t).len() > 0 => "midnight UTC ("@ + t + " in your local time)"@,
        _ => "midnight UTC"@,
    };
    "Cloudflare Worker daily quota reached (Error 1027). Online sync should reset at "@ + reset
        + ". This coach session is still saved on this device and should remain available offline."@
}

/// The message shown when the Worker's daily quota is exhausted.
pub fn format_cloudflare_daily_quota_error_for_display(reset_time_local: Option<String>) -> (r:
    String)
    ensures
        r@ == daily_quota_message(
            match reset_time_local {
                Some(t) => Some(t@),
                None => None,
            },
        ),
{
    let mut out = chars_of(
        "Cloudflare Worker daily quota reached (Error 1027). Online sync should reset at ",
    );
    let said = match &reset_time_local {
        Some(t) => trim_chars(chars_of(t.as_str()).as_slice()).len() > 0,
        None => false,
    };
    match reset_time_local {
        Some(t) if said => {
            push_all(&mut out, chars_of("midnight UTC (").as_slice());
            push_all(&mut out, chars_of(t.as_str()).as_slice());
            push_all(&mut out, chars_of(" in your local time)").as_slice());
        },
        _ => {
            push_all(&mut out, chars_of("midnight UTC").as_slice());
        },
    }
    push_all(
        &mut out,
        chars_of(
            ". This coach session is still saved on this device and should remain available offline.",
        ).as_slice(),
    );
    string_from_chars(out.as_slice())
}

/// The diagnostic headers of a failed response that are shown, each as
/// `name=value` with the value trimmed, leaving out absent and blank ones.
pub open spec fn header_parts(
    cf_ray: Option<Seq<char>>,
    request_id: Option<Seq<char>>,
    content_type: Option<Seq<char>>,
) -> Seq<Seq<char>> {
    header_part("cf-ray"@, cf_ray) + header_part("x-request-id"@, request_id) + header_part(
        "content-type"@,
        content_type,
    )
}

/// One header as a part of the summary, if it has a non-blank value.
pub open spec fn header_part(name: Seq<char>, value: Option<Seq<char>>) -> Seq<Seq<char>> {
    match value {
        Some(v) if trim(v).len() > 0 => seq![name + "="@ + trim(v)],
        _ => Seq::empty(),
    }
}

/// The view of an optional string.
pub open spec fn opt_str_view(s: Option<&str>) -> Option<Seq<char>> {
    match s {
        Some(t) => Some(t@),
        None => None,
    }
}

fn push_header_part(parts: &mut Vec<Vec<char>>, name: &str, value: Option<&str>)
    ensures
        char_views(final(parts)@) == char_views(old(parts)@) + header_part(name@, opt_str_view(value)),
{
    match value {
        Some(v) => {
            let trimmed = trim_chars(chars_of(v).as_slice());
            if trimmed.len() > 0 {
                let mut part = chars_of(name);
                push_all(&mut part, chars_of("=").as_slice());
                push_all(&mut part, trimmed.as_slice());
                parts.push(part);
                proof {
                    assert(char_views(parts@) =~= char_views(old(parts)@) + header_part(
                        name@,
                        opt_str_view(value),
                    ));
                }
            } else {
                proof {
                    assert(char_views(parts@) =~= char_views(old(parts)@) + header_part(
                        name@,
                        opt_str_view(value),
                    ));
                }
            }
        },
        None => {
            proof {
                assert(char_views(parts@) =~= char_views(old(parts)@) + header_part(
                    name@,
                    opt_str_view(value),
                ));
            }
        },
    }
}

/// The summary of a failed response's diagnostic headers: the shown
/// headers joined with `, `.
pub fn response_header_summary(
    cf_ray: Option<&str>,
    request_id: Option<&str>,
    content_type: Option<&str>,
) -> (r: String)
    ensures
        r@ == join(
            header_parts(opt_str_view(cf_ray), opt_str_view(request_id), opt_str_view(content_type)),
            ", "@,
        ),
{
    let mut parts: Vec<Vec<char>> = Vec::new();
    push_header_part(&mut parts, "cf-ray", cf_ray);
    push_header_part(&mut parts, "x-request-id", request_id);
    push_header_part(&mut parts, "content-type", content_type);
    proof {
        assert(char_views(parts@) =~= header_parts(
            opt_str_view(cf_ray),
            opt_str_view(request_id),
            opt_str_view(content_type),
        ));
    }
    string_from_chars(join_chars(&parts, chars_of(", ").as_slice()).as_slice())
}

/// The details of a failed request that are shown: the body's summary and
/// the headers' summary, each when not empty.
pub open spec fn error_details(body_summary: Seq<char>, header_summary: Seq<char>) -> Seq<Seq<char>> {
    (if body_summary.len() > 0 {
        seq![body_summary]
    } else {
        Seq::empty()
    }) + (if header_summary.len() > 0 {
        seq![header_summary]
    } else {
        Seq::empty()
    })
}

/// The error a failed request reports: `HTTP <status> from <url>`, followed
/// by `: ` and the details joined with ` | ` when there are any.
pub open spec fn http_error_text(
    status: u16,
    url: Seq<char>,
    body_summary: Seq<char>,
    header_summary: Seq<char>,
) -> Seq<char> {
    let head = "HTTP "@ + decimal(status as nat) + " from "@ + url;
    let details = error_details(body_summary, header_summary);
    if details.len() == 0 {
        head
    } else {
        head + ": "@ + join(details, " | "@)
    }
}

/// The error message of a request that got a non-success status.
pub fn http_error_message(status: u16, url: &str, body_summary: &str, header_summary: &str) -> (r:
    String)
    ensures
        r@ == http_error_text(status, url@, body_summary@, header_summary@),
{
    let mut details: Vec<Vec<char>> = Vec::new();
    if !body_summary.is_empty() {
        details.push(chars_of(body_summary));
    }
    if !header_summary.is_empty() {
        details.push(chars_of(header_summary));
    }
    proof {
        assert(char_views(details@) =~= error_details(body_summary@, header_summary@));
    }
    let mut out = chars_of("HTTP ");
    push_decimal(&mut out, status as u64);
    push_all(&mut out, chars_of(" from ").as_slice());
    push_all(&mut out, chars_of(url).as_slice());
    if details.len() > 0 {
        push_all(&mut out, chars_of(": ").as_slice());
        push_all(&mut out, join_chars(&details, chars_of(" | ").as_slice()).as_slice());
    }
    string_from_chars(out.as_slice())
}

// ── Pushing and pulling events ──────────────────────────────────────────────

/// The positions of the events whose version is past `last_pushed_seq`, in
/// order.
pub open spec fn pending_positions(versions: Seq<u64>, last_pushed_seq: u64) -> Seq<usize>
    decreases versions.len(),
{
    if versions.len() == 0 {
        Seq::empty()
    } else {
        let rest = pending_positions(versions.drop_last(), last_pushed_seq);
        if versions.last() > last_pushed_seq {
            rest.push((versions.len() - 1) as usize)
        } else {
            rest
        }
    }
}

/// The events pushed are exactly those past the cursor: every position
/// listed holds such an event, every such event is listed, in increasing
/// position order (so none twice).
pub proof fn lemma_pending_positions_exact(versions: Seq<u64>, last_pushed_seq: u64)
    requires
        versions.len() <= usize::MAX,
    ensures
        forall|k: int|
            0 <= k < pending_positions(versions, last_pushed_seq).len() ==> {
                let p = #[trigger] pending_positions(versions, last_pushed_seq)[k];
                p < versions.len() && versions[p as int] > last_pushed_seq
            },
        forall|i: int|
            0 <= i < versions.len() && versions[i] > last_pushed_seq ==> pending_positions(
                versions,
                last_pushed_seq,
            ).contains(i as usize),
        forall|a: int, b: int|
            0 <= a < b < pending_positions(versions, last_pushed_seq).len() ==> pending_positions(
                versions,
                last_pushed_seq,
            )[a] < pending_positions(versions, last_pushed_seq)[b],
    decreases versions.len(),
{
    if versions.len() > 0 {
        let init = versions.drop_last();
        lemma_pending_positions_exact(init, last_pushed_seq);
        let rest = pending_positions(init, last_pushed_seq);
        let n = versions.len() - 1;
        assert forall|i: int| 0 <= i < versions.len() && versions[i] > last_pushed_seq implies pending_positions(
            versions,
            last_pushed_seq,
        ).contains(i as usize) by {
            if i < n {
                assert(init[i] == versions[i]);
                let k = choose|k: int| 0 <= k < rest.len() && rest[k] == i as usize;
                if versions.last() > last_pushed_seq {
                    assert(rest.push(n as usize)[k] == i as usize);
                }
            } else {
                assert(rest.push(n as usize)[rest.len() as int] == n as usize);
            }
        }
    }
}

/// The positions of the events the server does not have yet: those whose
/// version is past the last pushed sequence number, in order.
pub fn events_to_push(event_versions: &[u64], last_pushed_seq: u64) -> (r: Vec<usize>)
    ensures
        r@ == pending_positions(event_versions@, last_pushed_seq),
{
    let mut r: Vec<usize> = Vec::new();
    let mut i: usize = 0;
    while i < event_versions.len()
        invariant
            i <= event_versions.len(),
            r@ == pending_positions(event_versions@.take(i as int), last_pushed_seq),
        decreases event_versions.len() - i,
    {
        proof {
            assert(event_versions@.take(i as int + 1).drop_last() == event_versions@.take(i as int));
        }
        if event_versions[i] > last_pushed_seq {
            r.push(i);
        }
        i = i + 1;
    }
    proof {
        assert(event_versions@.take(event_versions.len() as int) == event_versions@);
    }
    r
}

/// Where pulling the assistants' events stands: the cursor to pull after,
/// the server's sequence number as far as this device knows it, and how
/// many server events were seen.
#[derive(Debug, Clone, Copy)]
pub struct PullProgress {
    pub since: u32,
    pub last_pushed_seq: u64,
    pub new_server_events_seen: usize,
}

/// The start of a pull: after the cursor the device had before pushing,
/// knowing the sequence number the push left.
pub fn start_pull(baseline_server_cursor: u64, last_pushed_seq: u64) -> (r: PullProgress)
    ensures
        r.since == baseline_server_cursor as u32,
        r.last_pushed_seq == last_pushed_seq,
        r.new_server_events_seen == 0,
{
    PullProgress {
        since: baseline_server_cursor as u32,
        last_pushed_seq,
        new_server_events_seen: 0,
    }
}

/// After a page of `page_event_count` events with cursor `page_cursor`: the
/// known sequence number rises to the cursor; an empty page ends the pull
/// (the returned flag); otherwise the events are counted and the next pull
/// starts after the page's cursor.
pub fn advance_pull(progress: PullProgress, page_event_count: usize, page_cursor: u64) -> (r: (
    PullProgress,
    bool,
))
    requires
        progress.new_server_events_seen + page_event_count <= usize::MAX,
    ensures
        r.0.last_pushed_seq == if progress.last_pushed_seq >= page_cursor {
            progress.last_pushed_seq
        } else {
            page_cursor
        },
        r.1 == (page_event_count == 0),
        page_event_count == 0 ==> r.0.since == progress.since && r.0.new_server_events_seen
            == progress.new_server_events_seen,
        page_event_count > 0 ==> r.0.since == page_cursor as u32 && r.0.new_server_events_seen
            == progress.new_server_events_seen + page_event_count,
{
    let last_pushed_seq = if progress.last_pushed_seq >= page_cursor {
        progress.last_pushed_seq
    } else {
        page_cursor
    };
    if page_event_count == 0 {
        (PullProgress { last_pushed_seq, ..progress }, true)
    } else {
        (
            PullProgress {
                since: page_cursor as u32,
                last_pushed_seq,
                new_server_events_seen: progress.new_server_events_seen + page_event_count,
            },
            false,
        )
    }
}

// ── Error bodies ────────────────────────────────────────────────────────────

/// The first member named `key`.
pub open spec fn member_entry(members: Seq<JsonMember>, key: Seq<char>) -> Option<JsonMember>
    decreases members.len(),
{
    if members.len() == 0 {
        None
    } else if members[0].key@ == key {
        Some(members[0])
    } else {
        member_entry(members.drop_first(), key)
    }
}

/// The value of the first member named `key`.
pub open spec fn member(members: Seq<JsonMember>, key: Seq<char>) -> Option<JsonValue> {
    match member_entry(members, key) {
        Some(m) => Some(m.value),
        None => None,
    }
}

/// The text of the member named `key`, when it is a string.
pub open spec fn text_member(members: Seq<JsonMember>, key: Seq<char>) -> Option<Seq<char>> {
    match member(members, key) {
        Some(JsonValue::Str(s)) => Some(s@),
        _ => None,
    }
}

/// `label` followed by the text, when there is one.
pub open spec fn labelled(text: Option<Seq<char>>, label: Seq<char>) -> Seq<Seq<char>> {
    match text {
        Some(t) => seq![label + t],
        None => Seq::empty(),
    }
}

/// A context field as `name=value` (the value as JSON), when present.
pub open spec fn context_part(context: Seq<JsonMember>, name: Seq<char>) -> Seq<Seq<char>> {
    match member_entry(context, name) {
        Some(m) => seq![name + "="@ + m.text@],
        None => Seq::empty(),
    }
}

/// The context fields shown of an error body.
pub open spec fn context_parts(context: Seq<JsonMember>) -> Seq<Seq<char>> {
    context_part(context, "session_id"@) + context_part(context, "event_count"@) + context_part(
        context,
        "method"@,
    ) + context_part(context, "path"@)
}

/// The parts shown of an error object: its `error`, `route` and `message`
/// texts and the chosen fields of its `context` object.
pub open spec fn error_object_parts(members: Seq<JsonMember>) -> Seq<Seq<char>> {
    labelled(text_member(members, "error"@), ""@) + labelled(text_member(members, "route"@), "route="@)
        + labelled(text_member(members, "message"@), "message="@) + match member(
        members,
        "context"@,
    ) {
        Some(JsonValue::Object(context)) => context_parts(context@),
        _ => Seq::empty(),
    }
}

/// What is shown of an error body: nothing for a blank body; the quota
/// message for Cloudflare's quota page; for a JSON object with something to
/// show, its parts joined with `; `; otherwise the trimmed body.
pub open spec fn error_body_display(
    raw_body: Seq<char>,
    parsed_body: Option<JsonValue>,
    reset_time_local: Option<Seq<char>>,
) -> Seq<char> {
    let trimmed = trim(raw_body);
    if trimmed.len() == 0 {
        Seq::empty()
    } else if is_daily_quota_error(trimmed) {
        daily_quota_message(reset_time_local)
    } else {
        match parsed_body {
            Some(JsonValue::Object(members)) => {
                let parts = error_object_parts(members@);
                if parts.len() == 0 {
                    trimmed
                } else {
                    join(parts, "; "@)
                }
            },
            _ => trimmed,
        }
    }
}

fn member_value<'a>(members: &'a Vec<JsonMember>, key: &str) -> (r: Option<&'a JsonMember>)
    ensures
        match r {
            Some(m) => member_entry(members@, key@) == Some(*m),
            None => member_entry(members@, key@) is None,
        },
{
    let wanted = chars_of(key);
    let mut i: usize = 0;
    proof {
        assert(members@.skip(0) == members@);
    }
    while i < members.len()
        invariant
            i <= members.len(),
            wanted@ == key@,
            member_entry(members@, key@) == member_entry(members@.skip(i as int), key@),
        decreases members.len() - i,
    {
        proof {
            assert(members@.skip(i as int).drop_first() == members@.skip(i as int + 1));
            assert(members@.skip(i as int)[0] == members@[i as int]);
        }
        if crate::text::chars_equal(chars_of(members[i].key.as_str()).as_slice(), wanted.as_slice()) {
            return Some(&members[i]);
        }
        i = i + 1;
    }
    None
}

fn push_labelled_text(parts: &mut Vec<Vec<char>>, members: &Vec<JsonMember>, key: &str, label: &str)
    ensures
        char_views(final(parts)@) == char_views(old(parts)@) + labelled(text_member(members@, key@), label@),
{
    match member_value(members, key) {
        Some(JsonMember { value: JsonValue::Str(t), .. }) => {
            let mut part = chars_of(label);
            push_all(&mut part, chars_of(t.as_str()).as_slice());
            parts.push(part);
            proof {
                assert(char_views(parts@) =~= char_views(old(parts)@) + labelled(
                    text_member(members@, key@),
                    label@,
                ));
            }
        },
        _ => {
            proof {
                assert(char_views(parts@) =~= char_views(old(parts)@) + labelled(
                    text_member(members@, key@),
                    label@,
                ));
            }
        },
    }
}

fn push_context_part(parts: &mut Vec<Vec<char>>, context: &Vec<JsonMember>, name: &str)
    ensures
        char_views(final(parts)@) == char_views(old(parts)@) + context_part(context@, name@),
{
    match member_value(context, name) {
        Some(m) => {
            let mut part = chars_of(name);
            push_all(&mut part, chars_of("=").as_slice());
            push_all(&mut part, chars_of(m.text.as_str()).as_slice());
            parts.push(part);
            proof {
                assert(char_views(parts@) =~= char_views(old(parts)@) + context_part(context@, name@));
            }
        },
        None => {
            proof {
                assert(char_views(parts@) =~= char_views(old(parts)@) + context_part(context@, name@));
            }
        },
    }
}

fn error_parts_of(members: &Vec<JsonMember>) -> (r: Vec<Vec<char>>)
    ensures
        char_views(r@) == error_object_parts(members@),
{
    let mut parts: Vec<Vec<char>> = Vec::new();
    push_labelled_text(&mut parts, members, "error", "");
    push_labelled_text(&mut parts, members, "route", "route=");
    push_labelled_text(&mut parts, members, "message", "message=");
    let ghost before_context = char_views(parts@);
    match member_value(members, "context") {
        Some(JsonMember { value: JsonValue::Object(context), .. }) => {
            push_context_part(&mut parts, context, "session_id");
            push_context_part(&mut parts, context, "event_count");
            push_context_part(&mut parts, context, "method");
            push_context_part(&mut parts, context, "path");
        },
        _ => {},
    }
    proof {
        assert(char_views(parts@) =~= error_object_parts(members@));
    }
    parts
}

/// What is shown of a failed request's body, given `parsed_body`, the
/// trimmed body as `serde_json` reads it; `reset_time_local` is as for
/// [`format_cloudflare_daily_quota_error_for_display`].
pub fn error_body_for_display(
    raw_body: &str,
    parsed_body: Option<JsonValue>,
    reset_time_local: Option<String>,
) -> (r: String)
    ensures
        r@ == error_body_display(
            raw_body@,
            parsed_body,
            match reset_time_local {
                Some(t) => Some(t@),
                None => None,
            },
        ),
{
    let trimmed = trim_chars(chars_of(raw_body).as_slice());
    if trimmed.len() == 0 {
        return string_from_chars(trimmed.as_slice());
    }
    let trimmed_text = string_from_chars(trimmed.as_slice());
    if body_matches_cloudflare_daily_quota_error(trimmed_text.as_str()) {
        return format_cloudflare_daily_quota_error_for_display(reset_time_local);
    }
    match parsed_body {
        Some(JsonValue::Object(members)) => {
            let parts = error_parts_of(&members);
            if parts.len() == 0 {
                trimmed_text
            } else {
                string_from_chars(join_chars(&parts, chars_of("; ").as_slice()).as_slice())
            }
        },
        _ => trimmed_text,
    }
}

/// What is shown of a failed request's body: the body is trimmed, read with
/// `serde_json`, and shown as [`error_body_for_display`] shows it;
/// `reset_time_local` is as for
/// [`format_cloudflare_daily_quota_error_for_display`].
pub fn format_error_body_for_display(raw_body: &str, reset_time_local: Option<String>) -> (r: String)
    ensures
        r@ == error_body_display(
            raw_body@,
            json_parsed(trim(raw_body@)),
            match reset_time_local {
                Some(t) => Some(t@),
                None => None,
            },
        ),
{
    let trimmed = string_from_chars(trim_chars(chars_of(raw_body).as_slice()).as_slice());
    let parsed = parse_json_value(trimmed.as_str());
    error_body_for_display(raw_body, parsed, reset_time_local)
}

// ── Requests ────────────────────────────────────────────────────────────────

/// How a request is sent: to the page's own origin, or across origins.
#[derive(Debug, Clone, Copy, PartialEq, Eq, Structural)]
pub enum FetchMode {
    SameOrigin,
    Cors,
}

/// A request goes out same-origin when the page's origin is known and is
/// the request's origin, and with CORS otherwise.
pub fn fetch_mode(current_origin: &str, request_origin: &str) -> (r: FetchMode)
    ensures
        r == if current_origin@.len() > 0 && current_origin@ == request_origin@ {
            FetchMode::SameOrigin
        } else {
            FetchMode::Cors
        },
{
    if !current_origin.is_empty() && crate::text::chars_equal(
        chars_of(current_origin).as_slice(),
        chars_of(request_origin).as_slice(),
    ) {
        FetchMode::SameOrigin
    } else {
        FetchMode::Cors
    }
}

/// The headers a request carries: a JSON content type when it has a body,
/// and the coach key when one is given and not empty.
pub fn fetch_headers(has_body: bool, coach_key: Option<&str>) -> (r: Vec<(String, String)>)
    ensures
        r@.map_values(|h: (String, String)| (h.0@, h.1@)) == (if has_body {
            seq![("Content-Type"@, "application/json"@)]
        } else {
            Seq::empty()
        }) + match coach_key {
            Some(k) if k@.len() > 0 => seq![("X-Coach-Key"@, k@)],
            _ => Seq::empty(),
        },
{
    let mut r: Vec<(String, String)> = Vec::new();
    if has_body {
        r.push(
            (
                string_from_chars(chars_of("Content-Type").as_slice()),
                string_from_chars(chars_of("application/json").as_slice()),
            ),
        );
    }
    match coach_key {
        Some(k) => {
            if !k.is_empty() {
                r.push(
                    (
                        string_from_chars(chars_of("X-Coach-Key").as_slice()),
                        string_from_chars(chars_of(k).as_slice()),
                    ),
                );
            }
        },
        None => {},
    }
    proof {
        assert(r@.map_values(|h: (String, String)| (h.0@, h.1@)) =~= (if has_body {
            seq![("Content-Type"@, "application/json"@)]
        } else {
            Seq::empty()
        }) + match coach_key {
            Some(k) if k@.len() > 0 => seq![("X-Coach-Key"@, k@)],
            _ => Seq::empty(),
        });
    }
    r
}

} // verus!

//! The coach screens' rules: which analyses a session supports, how the
//! score entry modes are explained, the styling of the active tab, the
//! checks on a new player's name, and the order in which players and
//! results are handed to the ranking.
use vstd::prelude::*;

use crate::models::{MatchId, MatchStatus, Player, PlayerId, ScheduledMatch, ScoreEntryMode};
use crate::share::RoundScheduleImageShareOutcome;
use crate::text::{decimal, push_all, push_decimal, views};
use vstd::string::StringSliceAdditionalSpecFns;
use crate::text::{ascii_lower, chars_equal, chars_of, lower_chars, string_from_chars, trim,
    trim_chars};

verus! {

// ── Tabs ────────────────────────────────────────────────────────────────────

/// The classes of a dashboard tab.
pub fn tab_class(active: bool) -> (r: &'static str)
    ensures
        r@ == if active {
            "shrink-0 min-w-[88px] px-3 py-3 text-white font-semibold text-xs text-center border-b-2 border-blue-500 transition-colors md:flex-1"@
        } else {
            "shrink-0 min-w-[88px] px-3 py-3 text-gray-400 hover:text-gray-200 font-medium text-xs text-center border-b-2 border-transparent transition-colors md:flex-1"@
        },
{
    if active {
        "shrink-0 min-w-[88px] px-3 py-3 text-white font-semibold text-xs text-center border-b-2 border-blue-500 transition-colors md:flex-1"
    } else {
        "shrink-0 min-w-[88px] px-3 py-3 text-gray-400 hover:text-gray-200 font-medium text-xs text-center border-b-2 border-transparent transition-colors md:flex-1"
    }
}

/// The classes of an analysis sub-tab.
pub fn analysis_sub_tab_class(active: bool) -> (r: &'static str)
    ensures
        r@ == if active {
            "px-3 py-1.5 text-sm font-semibold text-white bg-gray-800 rounded-lg border border-gray-600"@
        } else {
            "px-3 py-1.5 text-sm font-medium text-gray-400 hover:text-gray-200 rounded-lg border border-transparent"@
        },
{
    if active {
        "px-3 py-1.5 text-sm font-semibold text-white bg-gray-800 rounded-lg border border-gray-600"
    } else {
        "px-3 py-1.5 text-sm font-medium text-gray-400 hover:text-gray-200 rounded-lg border border-transparent"
    }
}

// ── Score entry modes ───────────────────────────────────────────────────────

/// The attacking/defending analysis needs individual points.
pub fn supports_adt_analysis(score_entry_mode: ScoreEntryMode) -> (r: bool)
    ensures
        r == (score_entry_mode == ScoreEntryMode::PointsPerPlayer),
{
    score_entry_mode == ScoreEntryMode::PointsPerPlayer
}

/// The synergy analysis needs scores (not only outcomes) and teams of at
/// least two.
pub fn supports_synergy_analysis(score_entry_mode: ScoreEntryMode, team_size: u8) -> (r: bool)
    ensures
        r == (score_entry_mode != ScoreEntryMode::WinDrawLose && team_size >= 2),
{
    score_entry_mode != ScoreEntryMode::WinDrawLose && team_size >= 2
}

/// The label of the overall score column.
pub fn overall_score_stat_label(score_entry_mode: ScoreEntryMode) -> (r: &'static str)
    ensures
        r@ == match score_entry_mode {
            ScoreEntryMode::PointsPerPlayer => "Pts"@,
            ScoreEntryMode::PointsPerTeam => "Team Pts"@,
            ScoreEntryMode::WinDrawLose => "WDL Pts"@,
        },
{
    match score_entry_mode {
        ScoreEntryMode::PointsPerPlayer => "Pts",
        ScoreEntryMode::PointsPerTeam => "Team Pts",
        ScoreEntryMode::WinDrawLose => "WDL Pts",
    }
}

/// The explanation of a score entry mode shown during setup.
pub fn score_entry_mode_help_text(mode: ScoreEntryMode) -> (r: &'static str)
    ensures
        r@ == match mode {
            ScoreEntryMode::PointsPerPlayer => "Enter points for each player individually. Best when teammates can score different amounts."@,
            ScoreEntryMode::PointsPerTeam => "Enter one total for each team. Best when the match is decided by the team score."@,
            ScoreEntryMode::WinDrawLose => "Record only the outcome: Team A win, draw, or Team B win. Best when exact points do not matter."@,
        },
{
    match mode {
        ScoreEntryMode::PointsPerPlayer => "Enter points for each player individually. Best when teammates can score different amounts.",
        ScoreEntryMode::PointsPerTeam => "Enter one total for each team. Best when the match is decided by the team score.",
        ScoreEntryMode::WinDrawLose => "Record only the outcome: Team A win, draw, or Team B win. Best when exact points do not matter.",
    }
}

/// The element id of a score entry mode's explanation.
pub fn score_entry_mode_tooltip_id(mode: ScoreEntryMode) -> (r: &'static str)
    ensures
        r@ == match mode {
            ScoreEntryMode::PointsPerPlayer => "score-entry-mode-help-points-per-player"@,
            ScoreEntryMode::PointsPerTeam => "score-entry-mode-help-points-per-team"@,
            ScoreEntryMode::WinDrawLose => "score-entry-mode-help-win-draw-lose"@,
        },
{
    match mode {
        ScoreEntryMode::PointsPerPlayer => "score-entry-mode-help-points-per-player",
        ScoreEntryMode::PointsPerTeam => "score-entry-mode-help-points-per-team",
        ScoreEntryMode::WinDrawLose => "score-entry-mode-help-win-draw-lose",
    }
}

// ── Adding a player ─────────────────────────────────────────────────────────

/// Two names are the same player name: equal after trimming, ignoring ASCII
/// case.
pub open spec fn same_player_name(a: Seq<char>, b: Seq<char>) -> bool {
    ascii_lower(trim(a)) == ascii_lower(trim(b))
}

/// What adding a player named `raw` gives: the trimmed name, or why not.
pub open spec fn new_player_name_outcome(raw: Seq<char>, players: Seq<Player>) -> Result<
    Seq<char>,
    Seq<char>,
> {
    if trim(raw).len() == 0 {
        Err("Enter a player name."@)
    } else if exists|i: int| 0 <= i < players.len() && same_player_name(#[trigger] players[i].name@, raw) {
        Err("That player name is already in this session."@)
    } else {
        Ok(trim(raw))
    }
}

/// Checks a new player's name: it must not be blank and must not repeat a
/// player's name (ignoring surrounding space and ASCII case).
pub fn validate_new_player_name(raw_name: &str, existing_players: &[Player]) -> (r: Result<
    String,
    String,
>)
    ensures
        match (r, new_player_name_outcome(raw_name@, existing_players@)) {
            (Ok(name), Ok(expected)) => name@ == expected,
            (Err(message), Err(expected)) => message@ == expected,
            _ => false,
        },
{
    let trimmed = trim_chars(chars_of(raw_name).as_slice());
    if trimmed.len() == 0 {
        return Err(string_from_chars(chars_of("Enter a player name.").as_slice()));
    }
    let wanted = lower_chars(trimmed.as_slice());
    let mut i: usize = 0;
    while i < existing_players.len()
        invariant
            i <= existing_players.len(),
            trimmed@ == trim(raw_name@),
            trimmed@.len() > 0,
            wanted@ == ascii_lower(trim(raw_name@)),
            forall|k: int| 0 <= k < i ==> !same_player_name(#[trigger] existing_players@[k].name@, raw_name@),
        decreases existing_players.len() - i,
    {
        let name = lower_chars(trim_chars(chars_of(existing_players[i].name.as_str()).as_slice()).as_slice());
        if chars_equal(name.as_slice(), wanted.as_slice()) {
            proof {
                assert(same_player_name(existing_players@[i as int].name@, raw_name@));
            }
            return Err(
                string_from_chars(chars_of("That player name is already in this session.").as_slice()),
            );
        }
        i = i + 1;
    }
    Ok(string_from_chars(trimmed.as_slice()))
}

// ── Ranking input order ─────────────────────────────────────────────────────

/// Ids in ascending order.
pub open spec fn ids_ascending(ids: Seq<u32>) -> bool {
    forall|i: int, j: int| 0 <= i < j < ids.len() ==> ids[i] <= ids[j]
}

/// Sorts items by an integer key, keeping every item.
fn sort_by_u32_key<T>(items: Vec<T>, keys: Vec<u32>, Ghost(key): Ghost<spec_fn(T) -> u32>) -> (r: Vec<T>)
    requires
        items.len() == keys.len(),
        forall|i: int| 0 <= i < items.len() ==> #[trigger] keys@[i] == key(items@[i]),
    ensures
        r@.to_multiset() == items@.to_multiset(),
        forall|i: int, j: int| 0 <= i < j < r.len() ==> key(#[trigger] r@[i]) <= key(#[trigger] r@[j]),
{
    let ghost all = items@;
    let mut rest = items;
    let mut rest_keys = keys;
    let mut r: Vec<T> = Vec::new();
    let mut r_keys: Vec<u32> = Vec::new();
    proof {
        vstd::seq_lib::to_multiset_len(r@);
        vstd::multiset::lemma_multiset_empty_len(r@.to_multiset());
        assert(r@.to_multiset() =~= vstd::multiset::Multiset::<T>::empty());
    }
    while rest.len() > 0
        invariant
            rest.len() == rest_keys.len(),
            r.len() == r_keys.len(),
            forall|i: int| 0 <= i < rest.len() ==> #[trigger] rest_keys@[i] == key(rest@[i]),
            forall|i: int| 0 <= i < r.len() ==> #[trigger] r_keys@[i] == key(r@[i]),
            ids_ascending(r_keys@),
            r@.to_multiset().add(rest@.to_multiset()) == all.to_multiset(),
        decreases rest.len(),
    {
        let ghost before_rest = rest@;
        let ghost before_keys = rest_keys@;
        let x = rest.pop().unwrap();
        let kx = rest_keys.pop().unwrap();
        proof {
            assert(before_rest == rest@.push(x));
            vstd::seq_lib::to_multiset_build(rest@, x);
            assert(kx == before_keys[before_keys.len() - 1]);
            assert(x == before_rest[before_rest.len() - 1]);
        }
        let mut pos: usize = 0;
        while pos < r_keys.len() && r_keys[pos] <= kx
            invariant
                pos <= r_keys.len(),
                forall|k: int| 0 <= k < pos ==> #[trigger] r_keys@[k] <= kx,
            decreases r_keys.len() - pos,
        {
            pos = pos + 1;
        }
        proof {
            vstd::seq_lib::to_multiset_insert(r@, pos as int, x);
        }
        let ghost old_r = r@;
        let ghost old_keys = r_keys@;
        r.insert(pos, x);
        r_keys.insert(pos, kx);
        proof {
            assert forall|k: int| 0 <= k < r.len() implies #[trigger] r_keys@[k] == key(r@[k]) by {
                if k < pos {
                    assert(r_keys@[k] == old_keys[k] && r@[k] == old_r[k]);
                } else if k > pos {
                    assert(r_keys@[k] == old_keys[k - 1] && r@[k] == old_r[k - 1]);
                }
            }
            assert forall|a: int, b: int| 0 <= a < b < r_keys@.len() implies r_keys@[a] <= r_keys@[b] by {
                if b < pos {
                    assert(r_keys@[a] == old_keys[a] && r_keys@[b] == old_keys[b]);
                } else if b == pos {
                    assert(r_keys@[a] == old_keys[a]);
                } else if a < pos {
                    assert(r_keys@[a] == old_keys[a] && r_keys@[b] == old_keys[b - 1]);
                } else if a == pos {
                    assert(r_keys@[b] == old_keys[b - 1]);
                    assert(old_keys[pos as int] > kx);
                } else {
                    assert(r_keys@[a] == old_keys[a - 1] && r_keys@[b] == old_keys[b - 1]);
                }
            }
            assert(r@.to_multiset().add(rest@.to_multiset()) =~= all.to_multiset());
        }
    }
    proof {
        vstd::seq_lib::to_multiset_len(rest@);
        vstd::multiset::lemma_multiset_empty_len(rest@.to_multiset());
        assert(rest@.to_multiset() =~= vstd::multiset::Multiset::<T>::empty());
        assert(r@.to_multiset() =~= all.to_multiset());
        assert forall|i: int, j: int| 0 <= i < j < r.len() implies key(#[trigger] r@[i]) <= key(
            #[trigger] r@[j],
        ) by {
            assert(r_keys@[i] == key(r@[i]));
            assert(r_keys@[j] == key(r@[j]));
        }
    }
    r
}

/// A player's id.
pub open spec fn player_key(p: Player) -> u32 {
    p.id
}

/// The session's players in ascending id order, as the ranking takes them.
pub fn collect_players_sorted_for_ranking_input(players: Vec<Player>) -> (r: Vec<Player>)
    ensures
        r@.to_multiset() == players@.to_multiset(),
        forall|i: int, j: int| 0 <= i < j < r.len() ==> (#[trigger] r@[i]).id <= (#[trigger] r@[j]).id,
{
    let mut keys: Vec<u32> = Vec::new();
    let mut i: usize = 0;
    while i < players.len()
        invariant
            i <= players.len(),
            keys.len() == i,
            forall|k: int| 0 <= k < i ==> #[trigger] keys@[k] == player_key(players@[k]),
        decreases players.len() - i,
    {
        keys.push(players[i].id);
        i = i + 1;
    }
    let r = sort_by_u32_key(players, keys, Ghost(|p: Player| player_key(p)));
    proof {
        assert forall|i: int, j: int| 0 <= i < j < r.len() implies (#[trigger] r@[i]).id <= (
        #[trigger] r@[j]).id by {
            assert(player_key(r@[i]) <= player_key(r@[j]));
        }
    }
    r
}

/// The status of the match with `id`, when there is one.
pub open spec fn status_of(matches: Seq<ScheduledMatch>, id: MatchId) -> Option<MatchStatus> {
    if exists|k: int| 0 <= k < matches.len() && (#[trigger] matches[k]).id == id {
        Some(matches[choose|k: int| 0 <= k < matches.len() && (#[trigger] matches[k]).id == id].status)
    } else {
        None
    }
}

/// A result whose match is completed.
pub open spec fn of_completed_match<T>(matches: Seq<ScheduledMatch>) -> spec_fn((MatchId, T)) -> bool {
    |result: (MatchId, T)| status_of(matches, result.0) == Some(MatchStatus::Completed)
}

/// The match with `id` is there and completed.
pub open spec fn has_completed_match(matches: Seq<ScheduledMatch>, id: MatchId) -> bool {
    exists|j: int| 0 <= j < matches.len() && (#[trigger] matches[j]).id == id && matches[j].status
        == MatchStatus::Completed
}

/// The ranking takes a result exactly when the match with its id exists and
/// is completed: no result of a scheduled, in-progress or voided match (nor
/// of an unknown one) feeds it, and every result of a completed match does.
pub proof fn lemma_ranking_input_only_completed<T>(
    results: Seq<(MatchId, T)>,
    matches: Seq<ScheduledMatch>,
    x: (MatchId, T),
)
    requires
        crate::models::distinct_match_ids(matches),
    ensures
        results.filter(of_completed_match(matches)).contains(x) <==> (results.contains(x)
            && has_completed_match(matches, x.0)),
{
    crate::text::lemma_filter_contains_iff(results, of_completed_match(matches), x);
    if has_completed_match(matches, x.0) {
        let j = choose|j: int| 0 <= j < matches.len() && (#[trigger] matches[j]).id == x.0
            && matches[j].status == MatchStatus::Completed;
        let k = choose|k: int| 0 <= k < matches.len() && (#[trigger] matches[k]).id == x.0;
        assert(matches[k].id == x.0);
        assert(k == j);
    }
    if status_of(matches, x.0) == Some(MatchStatus::Completed) {
        let k = choose|k: int| 0 <= k < matches.len() && (#[trigger] matches[k]).id == x.0;
        assert(matches[k].id == x.0 && matches[k].status == MatchStatus::Completed);
    }
}

fn match_is_completed(matches: &[ScheduledMatch], id: MatchId) -> (r: bool)
    requires
        crate::models::distinct_match_ids(matches@),
    ensures
        r == (status_of(matches@, id) == Some(MatchStatus::Completed)),
{
    let mut k: usize = 0;
    while k < matches.len()
        invariant
            k <= matches.len(),
            forall|j: int| 0 <= j < k ==> (#[trigger] matches@[j]).id != id,
            crate::models::distinct_match_ids(matches@),
        decreases matches.len() - k,
    {
        if matches[k].id == id {
            proof {
                assert(matches@[k as int].id == id);
                let c = choose|j: int| 0 <= j < matches@.len() && (#[trigger] matches@[j]).id == id;
                assert(c == k as int);
            }
            return matches[k].status == MatchStatus::Completed;
        }
        k = k + 1;
    }
    false
}

/// The results of completed matches, in ascending match id order, as the
/// ranking takes them. Each result is paired with its match's id.
pub fn collect_completed_results_sorted_for_ranking_input<T>(
    results: Vec<(MatchId, T)>,
    matches: &[ScheduledMatch],
) -> (r: Vec<(MatchId, T)>)
    requires
        crate::models::distinct_match_ids(matches@),
    ensures
        r@.to_multiset() == results@.filter(of_completed_match(matches@)).to_multiset(),
        forall|i: int, j: int| 0 <= i < j < r.len() ==> (#[trigger] r@[i]).0 <= (#[trigger] r@[j]).0,
        forall|x: (MatchId, T)|
            #[trigger] r@.contains(x) <==> (results@.contains(x) && has_completed_match(matches@, x.0)),
{
    let ghost keep = of_completed_match::<T>(matches@);
    let ghost all = results@;
    let mut rest = results;
    let mut kept: Vec<(MatchId, T)> = Vec::new();
    let mut keys: Vec<u32> = Vec::new();
    proof {
        vstd::seq_lib::to_multiset_len(kept@);
        vstd::multiset::lemma_multiset_empty_len(kept@.to_multiset());
        assert(kept@.to_multiset() =~= vstd::multiset::Multiset::<(MatchId, T)>::empty());
    }
    while rest.len() > 0
        invariant
            kept.len() == keys.len(),
            forall|i: int| 0 <= i < kept.len() ==> #[trigger] keys@[i] == kept@[i].0,
            kept@.to_multiset().add(rest@.filter(keep).to_multiset()) == all.filter(keep).to_multiset(),
            keep == of_completed_match::<T>(matches@),
            crate::models::distinct_match_ids(matches@),
        decreases rest.len(),
    {
        let ghost before = rest@;
        let x = rest.pop().unwrap();
        proof {
            assert(before == rest@.push(x));
            crate::text::lemma_filter_push(rest@, keep, x);
        }
        if match_is_completed(matches, x.0) {
            proof {
                vstd::seq_lib::to_multiset_build(rest@.filter(keep), x);
                vstd::seq_lib::to_multiset_build(kept@, x);
            }
            keys.push(x.0);
            kept.push(x);
            proof {
                assert(kept@.to_multiset().add(rest@.filter(keep).to_multiset()) =~= all.filter(
                    keep,
                ).to_multiset());
            }
        }
    }
    proof {
        vstd::seq_lib::to_multiset_len(rest@.filter(keep));
        vstd::multiset::lemma_multiset_empty_len(rest@.filter(keep).to_multiset());
        assert(rest@.filter(keep).to_multiset() =~= vstd::multiset::Multiset::<(MatchId, T)>::empty());
        assert(kept@.to_multiset() =~= all.filter(keep).to_multiset());
    }
    let r = sort_by_u32_key(kept, keys, Ghost(|x: (MatchId, T)| x.0));
    proof {
        assert(r@.to_multiset() == all.filter(keep).to_multiset());
        assert(keep == of_completed_match::<T>(matches@));
        assert forall|x: (MatchId, T)| #[trigger] r@.contains(x) <==> (all.contains(x)
            && has_completed_match(matches@, x.0)) by {
            r@.to_multiset_ensures();
            all.filter(keep).to_multiset_ensures();
            assert(r@.to_multiset().count(x) == all.filter(keep).to_multiset().count(x));
            assert(r@.contains(x) <==> all.filter(keep).contains(x));
            lemma_ranking_input_only_completed(all, matches@, x);
        }
    }
    r
}

// ── Share link QR codes ─────────────────────────────────────────────────────

/// The largest image size the QR renderer takes: it computes
/// `size + modules - 1` in `u32`, with up to 185 modules across (a
/// version 40 code and its quiet zone).
pub const QR_MAX_SIZE: u32 = 4294967111;

/// The SVG that `qrcode` renders for `data` at error correction level M,
/// `size`×`size` pixels with a quiet zone, dark modules in `dark` and the
/// background in `light`; `None` when the data does not fit in a QR code.
pub uninterp spec fn qr_svg_rendering(data: Seq<u8>, size: u32, dark: Seq<char>, light: Seq<char>) -> Option<
    Seq<char>,
>;

/// Renders a QR code as SVG with `qrcode` (`QrCode::with_error_correction_level`
/// at level M, then its SVG renderer). The contract names the result; `None`
/// stands for the crate's error when the data is too long. The renderer
/// adds the code's width in modules, at most 185 with the quiet zone, to
/// `size` in `u32` arithmetic, so `size` leaves room for that.
#[verifier::external_body]
fn render_qr_svg(data: &[u8], size: u32, dark: &str, light: &str) -> (r: Option<String>)
    requires
        size <= QR_MAX_SIZE,
    ensures
        match r {
            Some(svg) => qr_svg_rendering(data@, size, dark@, light@) == Some(svg@),
            None => qr_svg_rendering(data@, size, dark@, light@) is None,
        },
{
    match qrcode::QrCode::with_error_correction_level(data, qrcode::EcLevel::M) {
        Ok(code) => Some(
            code.render::<qrcode::render::svg::Color<'_>>().min_dimensions(size, size).max_dimensions(
                size,
                size,
            ).dark_color(qrcode::render::svg::Color(dark)).light_color(
                qrcode::render::svg::Color(light),
            ).quiet_zone(true).build(),
        ),
        Err(_) => None,
    }
}

/// The markup shown for a rendering: the SVG, or nothing when there is none.
pub fn qr_svg_or_empty(rendering: Option<String>) -> (r: String)
    ensures
        r@ == match rendering {
            Some(svg) => svg@,
            None => Seq::empty(),
        },
{
    match rendering {
        Some(svg) => svg,
        None => String::new(),
    }
}

/// A share link as a QR code: white modules on the dark card colour,
/// `size`×`size` pixels; empty when the link does not fit in a QR code.
pub fn qr_svg(url: &str, size: u32) -> (r: String)
    requires
        size <= QR_MAX_SIZE,
    ensures
        r@ == match qr_svg_rendering(url.spec_bytes(), size, "#ffffff"@, "#111827"@) {
            Some(svg) => svg,
            None => Seq::empty(),
        },
{
    qr_svg_or_empty(render_qr_svg(url.as_bytes(), size, "#ffffff", "#111827"))
}

// ── The matches tab ─────────────────────────────────────────────────────────

/// The matches shared for the current round: those of the round that are not
/// voided, as positions in `matches`, in their given order. The round is
/// shared only when this is not empty.
pub fn current_round_match_positions(matches: &[ScheduledMatch], current_round: u32) -> (r: Vec<usize>)
    ensures
        r@ == crate::follow::positions_where(
            matches@,
            |m: ScheduledMatch| crate::follow::in_round(m, current_round),
        ),
        forall|i: usize|
            #[trigger] r@.contains(i) <==> (i < matches@.len() && matches@[i as int].round == current_round
                && matches@[i as int].status != MatchStatus::Voided),
{
    let ghost keep = |m: ScheduledMatch| crate::follow::in_round(m, current_round);
    let mut r: Vec<usize> = Vec::new();
    let mut i: usize = 0;
    while i < matches.len()
        invariant
            i <= matches@.len(),
            keep == (|m: ScheduledMatch| crate::follow::in_round(m, current_round)),
            r@ == crate::follow::positions_where(matches@.take(i as int), keep),
        decreases matches@.len() - i,
    {
        proof {
            assert(matches@.take(i as int + 1).drop_last() == matches@.take(i as int));
            assert(matches@.take(i as int + 1).last() == matches@[i as int]);
        }
        if matches[i].round == current_round && matches[i].status != MatchStatus::Voided {
            r.push(i);
        }
        i = i + 1;
    }
    proof {
        assert(matches@.take(matches@.len() as int) == matches@);
    }
    proof {
        assert forall|i: usize| #[trigger] r@.contains(i) <==> (i < matches@.len() && matches@[i as int].round
            == current_round && matches@[i as int].status != MatchStatus::Voided) by {
            crate::follow::lemma_round_view_lists_unvoided_matches(matches@, current_round, i);
        }
    }
    r
}

/// The label of a session in shared schedules: sport and format (`Soccer 2v2`).
pub fn session_share_label(sport: &str, team_size: u8) -> (r: String)
    ensures
        r@ == sport@ + " "@ + decimal(team_size as nat) + "v"@ + decimal(team_size as nat),
{
    let mut out = chars_of(sport);
    push_all(&mut out, chars_of(" ").as_slice());
    push_decimal(&mut out, team_size as u64);
    push_all(&mut out, chars_of("v").as_slice());
    push_decimal(&mut out, team_size as u64);
    proof {
        assert(out@ =~= sport@ + " "@ + decimal(team_size as nat) + "v"@ + decimal(team_size as nat));
    }
    string_from_chars(out.as_slice())
}

/// How a match's status is shown on its card.
pub fn match_status_label(status: MatchStatus) -> (r: &'static str)
    ensures
        r@ == match status {
            MatchStatus::Completed => "Done"@,
            MatchStatus::InProgress => "In Progress"@,
            _ => "Scheduled"@,
        },
{
    match status {
        MatchStatus::Completed => "Done",
        MatchStatus::InProgress => "In Progress",
        _ => "Scheduled",
    }
}

/// The number of matches in the round (`1 match`, `3 matches`).
pub fn match_count_label(count: usize) -> (r: String)
    ensures
        r@ == decimal(count as nat) + " match"@ + if count == 1 {
            ""@
        } else {
            "es"@
        },
{
    let mut out: Vec<char> = Vec::new();
    push_decimal(&mut out, count as u64);
    push_all(&mut out, chars_of(" match").as_slice());
    if count != 1 {
        push_all(&mut out, chars_of("es").as_slice());
    }
    proof {
        reveal_strlit("");
        assert(out@ =~= decimal(count as nat) + " match"@ + if count == 1 {
            ""@
        } else {
            "es"@
        });
    }
    string_from_chars(out.as_slice())
}

/// What is said after sharing the round as an image.
pub fn round_image_share_status(outcome: RoundScheduleImageShareOutcome) -> (r: &'static str)
    ensures
        r@ == match outcome {
            RoundScheduleImageShareOutcome::SharedWithSystemSheet => "Round image shared."@,
            RoundScheduleImageShareOutcome::DownloadedPngFallback => "Round image downloaded. Native share is unavailable here."@,
        },
{
    match outcome {
        RoundScheduleImageShareOutcome::SharedWithSystemSheet => "Round image shared.",
        RoundScheduleImageShareOutcome::DownloadedPngFallback => "Round image downloaded. Native share is unavailable here.",
    }
}

/// The names of the players of a team that the session knows, in team
/// order; ids without a player are left out.
pub open spec fn known_names(players: Seq<Player>, ids: Seq<PlayerId>) -> Seq<Seq<char>>
    decreases ids.len(),
{
    if ids.len() == 0 {
        Seq::empty()
    } else {
        let rest = known_names(players, ids.drop_last());
        match player_position(players, ids.last()) {
            Some(k) => rest.push(players[k].name@),
            None => rest,
        }
    }
}

/// The position of the player with `id`, the first one if several.
pub open spec fn player_position(players: Seq<Player>, id: PlayerId) -> Option<int>
    decreases players.len(),
{
    if players.len() == 0 {
        None
    } else {
        match player_position(players.drop_last(), id) {
            Some(k) => Some(k),
            None => if players.last().id == id {
                Some(players.len() - 1)
            } else {
                None
            },
        }
    }
}

fn find_player(players: &[Player], id: PlayerId) -> (r: Option<usize>)
    ensures
        match r {
            Some(k) => player_position(players@, id) == Some(k as int) && k < players@.len(),
            None => player_position(players@, id) is None,
        },
{
    let mut k: usize = 0;
    while k < players.len()
        invariant
            k <= players.len(),
            player_position(players@.take(k as int), id) is None,
        decreases players.len() - k,
    {
        proof {
            assert(players@.take(k as int + 1).drop_last() == players@.take(k as int));
        }
        if players[k].id == id {
            proof {
                lemma_position_in_prefix(players@, id, k as int + 1);
            }
            return Some(k);
        }
        k = k + 1;
    }
    proof {
        assert(players@.take(players.len() as int) == players@);
    }
    None
}

proof fn lemma_position_in_prefix(players: Seq<Player>, id: PlayerId, n: int)
    requires
        0 <= n <= players.len(),
        player_position(players.take(n), id) is Some,
    ensures
        player_position(players, id) == player_position(players.take(n), id),
    decreases players.len() - n,
{
    if n < players.len() {
        assert(players.take(n + 1).drop_last() == players.take(n));
        lemma_position_in_prefix(players, id, n + 1);
    } else {
        assert(players.take(n) == players);
    }
}

/// The names shown on a match card for a team.
pub fn known_player_names(players: &[Player], ids: &Vec<PlayerId>) -> (r: Vec<String>)
    ensures
        views(r@) == known_names(players@, ids@),
{
    let mut r: Vec<String> = Vec::new();
    let mut i: usize = 0;
    while i < ids.len()
        invariant
            i <= ids.len(),
            views(r@) == known_names(players@, ids@.take(i as int)),
        decreases ids.len() - i,
    {
        proof {
            assert(ids@.take(i as int + 1).drop_last() == ids@.take(i as int));
        }
        match find_player(players, ids[i]) {
            Some(k) => {
                r.push(string_from_chars(chars_of(players[k].name.as_str()).as_slice()));
                proof {
                    assert(views(r@) =~= views(r@.drop_last()).push(r@.last()@));
                }
            },
            None => {},
        }
        i = i + 1;
    }
    proof {
        assert(ids@.take(ids.len() as int) == ids@);
    }
    r
}

// ── The coach home ──────────────────────────────────────────────────────────

/// The page of a session's matches.
pub fn session_matches_path(session_id: &str) -> (r: String)
    ensures
        r@ == "/coach/session/"@ + session_id@ + "/matches"@,
{
    let mut out = chars_of("/coach/session/");
    push_all(&mut out, chars_of(session_id).as_slice());
    push_all(&mut out, chars_of("/matches").as_slice());
    string_from_chars(out.as_slice())
}

/// A recovery request from the form: the trimmed session id and PIN, or
/// the message when the id is blank or the PIN shorter than four bytes.
pub fn check_recovery_request(raw_session_id: &str, raw_pin: &str) -> (r: Result<
    (String, String),
    &'static str,
>)
    ensures
        match r {
            Ok((id, pin)) => id@ == trim(raw_session_id@) && pin@ == trim(raw_pin@) && id@.len() > 0
                && vstd::utf8::encode_utf8(pin@).len() >= 4,
            Err(m) => (trim(raw_session_id@).len() == 0 || vstd::utf8::encode_utf8(
                trim(raw_pin@),
            ).len() < 4) && m@ == "Enter a session ID and at least 4-digit PIN."@,
        },
{
    let id = string_from_chars(trim_chars(chars_of(raw_session_id).as_slice()).as_slice());
    let pin = string_from_chars(trim_chars(chars_of(raw_pin).as_slice()).as_slice());
    if id.as_str().is_empty() || pin.as_str().as_bytes().len() < 4 {
        return Err("Enter a session ID and at least 4-digit PIN.");
    }
    Ok((id, pin))
}

} // verus!

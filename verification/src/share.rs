//! Sharing a round's schedule: the snapshot of who plays where, the plain
//! text for group chats, and the cards that the schedule image is drawn from.
use vstd::prelude::*;

use crate::models::{Player, PlayerId, PlayerStatus, ScheduledMatch};
use crate::text::{
    ascii_lower, chars_from, chars_of, char_views, decimal, join, join_chars, join_strings,
    lemma_filter_push, lex_le, lower_chars, push_all, sort_by_keys,
    push_decimal, string_from_chars, views, word_scan, words, words_of, contains_text, occurs_at, has_prefix,
};

verus! {

// ── Types ───────────────────────────────────────────────────────────────────

/// One field of the round: its label and the names of both teams.
#[derive(Debug, Clone, PartialEq, Eq)]
pub struct RoundScheduleFieldShareCard {
    pub field_label: String,
    pub team_a_player_names: Vec<String>,
    pub team_b_player_names: Vec<String>,
}

/// Everything the shared schedule of one round shows.
#[derive(Debug, Clone, PartialEq, Eq)]
pub struct RoundScheduleShareSnapshot {
    pub session_label: String,
    pub round_number: u32,
    pub scheduled_field_cards: Vec<RoundScheduleFieldShareCard>,
    pub benched_player_names: Vec<String>,
}

/// How sharing the schedule image ended.
#[derive(Debug, Clone, Copy, PartialEq, Eq)]
pub enum RoundScheduleImageShareOutcome {
    SharedWithSystemSheet,
    DownloadedPngFallback,
}

/// One card of the schedule image: a title and its wrapped body lines.
#[derive(Debug, Clone, PartialEq, Eq)]
pub struct RoundScheduleRenderCard {
    pub card_title: String,
    pub body_lines: Vec<String>,
}

// ── Line wrapping ───────────────────────────────────────────────────────────

/// Greedy wrapping, one word at a time: the word joins the current line
/// (after a space) when the result fits in `max` characters; otherwise the
/// current line is finished and the word starts the next one.
pub open spec fn wrap_step(
    state: (Seq<Seq<char>>, Seq<char>),
    word: Seq<char>,
    max: nat,
) -> (Seq<Seq<char>>, Seq<char>) {
    let (lines, current) = state;
    let candidate = if current.len() == 0 {
        word
    } else {
        current + seq![' '] + word
    };
    if candidate.len() <= max {
        (lines, candidate)
    } else {
        (if current.len() == 0 { lines } else { lines.push(current) }, word)
    }
}

/// The finished lines and the open line after wrapping `ws` in order.
pub open spec fn wrap_words(ws: Seq<Seq<char>>, max: nat) -> (Seq<Seq<char>>, Seq<char>)
    decreases ws.len(),
{
    if ws.len() == 0 {
        (Seq::empty(), Seq::empty())
    } else {
        wrap_step(wrap_words(ws.drop_last(), max), ws.last(), max)
    }
}

/// The lines that `text` wraps into: the words of `text` filled greedily into
/// lines of at most `max` characters (a longer word stands on a line of its
/// own); a text without words gives one empty line.
pub open spec fn wrap_text(text: Seq<char>, max: nat) -> Seq<Seq<char>> {
    let (lines, current) = wrap_words(words(text), max);
    let all = if current.len() > 0 {
        lines.push(current)
    } else {
        lines
    };
    if all.len() == 0 {
        seq![Seq::empty()]
    } else {
        all
    }
}

/// A wrapped line is acceptable: it fits in `max` characters or it is one
/// of the words (a word longer than the limit).
pub open spec fn line_fits(line: Seq<char>, max: nat, ws: Seq<Seq<char>>) -> bool {
    line.len() <= max || ws.contains(line)
}

proof fn lemma_wrap_words_fit(ws: Seq<Seq<char>>, max: nat)
    ensures
        ({
            let (lines, current) = wrap_words(ws, max);
            &&& forall|i: int| 0 <= i < lines.len() ==> line_fits(#[trigger] lines[i], max, ws)
            &&& current.len() == 0 || line_fits(current, max, ws)
        }),
    decreases ws.len(),
{
    if ws.len() > 0 {
        let prev = ws.drop_last();
        lemma_wrap_words_fit(prev, max);
        let (lines, current) = wrap_words(prev, max);
        assert forall|x: Seq<char>| prev.contains(x) implies ws.contains(x) by {
            let k = choose|k: int| 0 <= k < prev.len() && prev[k] == x;
            assert(ws[k] == x);
        }
        assert(ws[ws.len() - 1] == ws.last());
        assert(ws.contains(ws.last()));
        let (nl, nc) = wrap_words(ws, max);
        assert forall|i: int| 0 <= i < nl.len() implies line_fits(#[trigger] nl[i], max, ws) by {
            if i < lines.len() {
                assert(nl[i] == lines[i]);
                assert(line_fits(lines[i], max, prev));
            } else {
                assert(nl[i] == current);
            }
        }
    }
}

/// Every line that wrapping gives fits in the requested width, unless it is
/// a single word longer than the width.
pub proof fn lemma_wrapped_lines_fit(text: Seq<char>, max: nat)
    ensures
        forall|i: int|
            0 <= i < wrap_text(text, max).len() ==> line_fits(
                #[trigger] wrap_text(text, max)[i],
                max,
                words(text),
            ),
{
    lemma_wrap_words_fit(words(text), max);
    let (lines, current) = wrap_words(words(text), max);
    let all = if current.len() > 0 { lines.push(current) } else { lines };
    assert forall|i: int| 0 <= i < wrap_text(text, max).len() implies line_fits(
        #[trigger] wrap_text(text, max)[i],
        max,
        words(text),
    ) by {
        if all.len() == 0 {
            assert(wrap_text(text, max)[i].len() == 0);
        } else if i < lines.len() {
            assert(all[i] == lines[i]);
        } else {
            assert(all[i] == current);
        }
    }
}

proof fn lemma_join_push(parts: Seq<Seq<char>>, last: Seq<char>, sep: Seq<char>)
    ensures
        join(parts.push(last), sep) == (if parts.len() == 0 {
            last
        } else {
            join(parts, sep) + sep + last
        }),
{
    assert(parts.push(last).drop_last() == parts);
    if parts.len() == 0 {
        assert(parts.push(last) =~= seq![last]);
    }
}

proof fn lemma_word_scan_nonempty(s: Seq<char>)
    ensures
        ({
            let (done, current) = word_scan(s);
            forall|i: int| 0 <= i < done.len() ==> (#[trigger] done[i]).len() > 0
        }),
    decreases s.len(),
{
    if s.len() > 0 {
        lemma_word_scan_nonempty(s.drop_last());
        let (done, current) = word_scan(s.drop_last());
        let (nd, nc) = word_scan(s);
        assert forall|i: int| 0 <= i < nd.len() implies (#[trigger] nd[i]).len() > 0 by {
            if i < done.len() {
                assert(nd[i] == done[i]);
            }
        }
    }
}

/// The words of a text are never empty.
pub proof fn lemma_words_nonempty(s: Seq<char>)
    ensures
        forall|i: int| 0 <= i < words(s).len() ==> (#[trigger] words(s)[i]).len() > 0,
{
    lemma_word_scan_nonempty(s);
}

/// All lines of a wrapping state, the open line included.
pub open spec fn wrapped_so_far(state: (Seq<Seq<char>>, Seq<char>)) -> Seq<Seq<char>> {
    let (lines, current) = state;
    if current.len() > 0 {
        lines.push(current)
    } else {
        lines
    }
}

proof fn lemma_wrap_words_keep_words(ws: Seq<Seq<char>>, max: nat)
    requires
        forall|i: int| 0 <= i < ws.len() ==> (#[trigger] ws[i]).len() > 0,
    ensures
        join(wrapped_so_far(wrap_words(ws, max)), " "@) == join(ws, " "@),
        (wrap_words(ws, max).1.len() == 0) == (ws.len() == 0),
        ws.len() == 0 ==> wrap_words(ws, max).0.len() == 0,
    decreases ws.len(),
{
    if ws.len() > 0 {
        let prev = ws.drop_last();
        let w = ws.last();
        assert(w == ws[ws.len() - 1]);
        assert forall|i: int| 0 <= i < prev.len() implies (#[trigger] prev[i]).len() > 0 by {
            assert(prev[i] == ws[i]);
        }
        lemma_wrap_words_keep_words(prev, max);
        let (lines, current) = wrap_words(prev, max);
        let sp = " "@;
        lemma_join_push(prev, w, sp);
        assert(ws == prev.push(w));
        if current.len() == 0 {
            assert(lines.len() == 0);
            assert(seq![w] == Seq::<Seq<char>>::empty().push(w));
            lemma_join_push(Seq::<Seq<char>>::empty(), w, sp);
        } else {
            lemma_join_push(lines, current, sp);
            let candidate = current + seq![' '] + w;
            if candidate.len() <= max {
                lemma_join_push(lines, candidate, sp);
                assert(" "@ =~= seq![' ']) by {
                    reveal_strlit(" ");
                }
                if lines.len() > 0 {
                    assert(join(lines, sp) + sp + candidate =~= join(lines, sp) + sp + current + sp + w);
                }
            } else {
                lemma_join_push(lines.push(current), w, sp);
            }
        }
    }
}

/// Wrapping loses no word and keeps their order: the lines joined with
/// spaces are the words of the text joined with spaces.
pub proof fn lemma_wrapping_keeps_words(text: Seq<char>, max: nat)
    ensures
        join(wrap_text(text, max), " "@) == join(words(text), " "@),
{
    lemma_words_nonempty(text);
    lemma_wrap_words_keep_words(words(text), max);
    let all = wrapped_so_far(wrap_words(words(text), max));
    if all.len() == 0 {
        assert(wrap_text(text, max) == seq![Seq::<char>::empty()]);
        assert(words(text).len() == 0);
    }
}

/// The characters of each vector, as `String`s.
pub fn strings_from_char_vecs(vs: &Vec<Vec<char>>) -> (r: Vec<String>)
    ensures
        views(r@) == char_views(vs@),
{
    let mut r: Vec<String> = Vec::new();
    let mut i: usize = 0;
    while i < vs.len()
        invariant
            i <= vs.len(),
            views(r@) == char_views(vs@).take(i as int),
        decreases vs.len() - i,
    {
        let s = string_from_chars(vs[i].as_slice());
        r.push(s);
        proof {
            assert(char_views(vs@).take(i as int + 1) == char_views(vs@).take(i as int).push(
                vs@[i as int]@,
            ));
            assert(views(r@) == views(r@.drop_last()).push(r@.last()@));
        }
        i = i + 1;
    }
    proof {
        assert(char_views(vs@).take(vs.len() as int) == char_views(vs@));
    }
    r
}

/// A copy of a character slice.
pub fn copy_chars(s: &[char]) -> (r: Vec<char>)
    ensures
        r@ == s@,
{
    let r = chars_from(s, 0);
    proof {
        assert(s@.skip(0) == s@);
    }
    r
}

/// Wraps the words of `text` into lines of at most `max` characters.
pub fn wrap_chars(text: &[char], max: usize) -> (r: Vec<Vec<char>>)
    ensures
        char_views(r@) == wrap_text(text@, max as nat),
{
    let ws = words_of(text);
    let ghost word_views = char_views(ws@);
    let mut lines: Vec<Vec<char>> = Vec::new();
    let mut current: Vec<char> = Vec::new();
    let mut i: usize = 0;
    while i < ws.len()
        invariant
            i <= ws.len(),
            word_views == char_views(ws@),
            (char_views(lines@), current@) == wrap_words(word_views.take(i as int), max as nat),
        decreases ws.len() - i,
    {
        proof {
            assert(word_views.take(i as int + 1).drop_last() == word_views.take(i as int));
            assert(word_views.take(i as int + 1).last() == ws@[i as int]@);
        }
        let word = ws[i].as_slice();
        let mut candidate: Vec<char>;
        if current.len() == 0 {
            candidate = copy_chars(word);
        } else {
            candidate = copy_chars(current.as_slice());
            candidate.push(' ');
            push_all(&mut candidate, word);
        }
        if candidate.len() <= max {
            current = candidate;
        } else {
            if current.len() > 0 {
                let ghost prev = lines@;
                lines.push(current);
                proof {
                    assert(lines@.drop_last() == prev);
                    assert(char_views(lines@) == char_views(prev).push(lines@.last()@));
                }
            }
            current = copy_chars(word);
        }
        i = i + 1;
    }
    proof {
        assert(word_views.take(ws.len() as int) == word_views);
    }
    if current.len() > 0 {
        let ghost prev = lines@;
        lines.push(current);
        proof {
            assert(lines@.drop_last() == prev);
            assert(char_views(lines@) == char_views(prev).push(lines@.last()@));
        }
    }
    if lines.len() == 0 {
        lines.push(Vec::new());
        proof {
            assert(char_views(lines@) =~= seq![Seq::<char>::empty()]);
        }
    }
    lines
}

/// Splits `text` into lines of at most `max_characters_per_line` characters,
/// breaking only between words; a word longer than the limit gets a line of
/// its own, and a text without words gives a single empty line.
pub fn wrap_text_to_line_width(text: &str, max_characters_per_line: usize) -> (r: Vec<String>)
    ensures
        views(r@) == wrap_text(text@, max_characters_per_line as nat),
{
    let cs = chars_of(text);
    let lines = wrap_chars(cs.as_slice(), max_characters_per_line);
    strings_from_char_vecs(&lines)
}

// ── Share text ──────────────────────────────────────────────────────────────

/// The five lines of one field in the shared text: label, team A, `vs`,
/// team B, blank.
pub open spec fn card_lines(card: RoundScheduleFieldShareCard) -> Seq<Seq<char>> {
    seq![
        card.field_label@,
        join(views(card.team_a_player_names@), " / "@),
        "vs"@,
        join(views(card.team_b_player_names@), " / "@),
        Seq::empty(),
    ]
}

/// The lines of all fields, in card order.
pub open spec fn cards_lines(cards: Seq<RoundScheduleFieldShareCard>) -> Seq<Seq<char>>
    decreases cards.len(),
{
    if cards.len() == 0 {
        Seq::empty()
    } else {
        cards_lines(cards.drop_last()) + card_lines(cards.last())
    }
}

/// `lines` without the empty lines at its end.
pub open spec fn drop_trailing_blank_lines(lines: Seq<Seq<char>>) -> Seq<Seq<char>>
    decreases lines.len(),
{
    if lines.len() > 0 && lines.last().len() == 0 {
        drop_trailing_blank_lines(lines.drop_last())
    } else {
        lines
    }
}

/// The lines of the shared text: the session label, `Round n`, a blank line,
/// the lines of every field, then `Bench` and the benched names joined with
/// `", "` when someone sits out; with nobody benched the trailing blank
/// lines are dropped.
pub open spec fn share_text_lines(snapshot: RoundScheduleShareSnapshot) -> Seq<Seq<char>> {
    let body = seq![
        snapshot.session_label@,
        "Round "@ + decimal(snapshot.round_number as nat),
        Seq::empty(),
    ] + cards_lines(snapshot.scheduled_field_cards@);
    if snapshot.benched_player_names@.len() > 0 {
        body + seq!["Bench"@, join(views(snapshot.benched_player_names@), ", "@)]
    } else {
        drop_trailing_blank_lines(body)
    }
}

/// `s` ends with `suffix`.
pub open spec fn ends_with(s: Seq<char>, suffix: Seq<char>) -> bool {
    suffix.len() <= s.len() && s.skip(s.len() - suffix.len()) == suffix
}

proof fn lemma_occurs_in_prefix(a: Seq<char>, b: Seq<char>, pat: Seq<char>, t: int)
    requires
        occurs_at(a, pat, t),
    ensures
        occurs_at(a + b, pat, t),
{
    assert((a + b).subrange(t, t + pat.len()) =~= a.subrange(t, t + pat.len()));
}

proof fn lemma_occurs_in_suffix(a: Seq<char>, b: Seq<char>, pat: Seq<char>, t: int)
    requires
        occurs_at(b, pat, t),
    ensures
        occurs_at(a + b, pat, a.len() + t),
{
    assert((a + b).subrange(a.len() + t, a.len() + t + pat.len()) =~= b.subrange(t, t + pat.len()));
}

/// Every part of a join occurs in it.
proof fn lemma_join_contains_part(parts: Seq<Seq<char>>, sep: Seq<char>, k: int)
    requires
        0 <= k < parts.len(),
    ensures
        contains_text(join(parts, sep), parts[k]),
    decreases parts.len(),
{
    if parts.len() == 1 {
        assert(join(parts, sep).subrange(0, parts[0].len() as int) =~= parts[0]);
        assert(occurs_at(join(parts, sep), parts[k], 0));
    } else {
        let init = parts.drop_last();
        if k == parts.len() - 1 {
            assert(parts.last().subrange(0, parts.last().len() as int) =~= parts.last());
            assert(occurs_at(parts.last(), parts.last(), 0));
            lemma_occurs_in_suffix(join(init, sep) + sep, parts.last(), parts.last(), 0);
            assert(occurs_at(join(parts, sep), parts[k], (join(init, sep) + sep).len() as int));
        } else {
            lemma_join_contains_part(init, sep, k);
            assert(init[k] == parts[k]);
            let t = choose|t: int| occurs_at(join(init, sep), parts[k], t);
            lemma_occurs_in_prefix(join(init, sep), sep + parts.last(), parts[k], t);
            assert(join(init, sep) + (sep + parts.last()) =~= join(parts, sep));
        }
    }
}

/// When someone sits out, the shared text ends with a `Bench` line followed
/// by a line of the benched names joined with `", "`, and it names every
/// benched player.
pub proof fn lemma_share_text_ends_with_bench(snapshot: RoundScheduleShareSnapshot)
    requires
        snapshot.benched_player_names@.len() > 0,
    ensures
        ends_with(
            join(share_text_lines(snapshot), "\n"@),
            "\nBench\n"@ + join(views(snapshot.benched_player_names@), ", "@),
        ),
        forall|k: int|
            0 <= k < snapshot.benched_player_names@.len() ==> contains_text(
                join(share_text_lines(snapshot), "\n"@),
                #[trigger] snapshot.benched_player_names@[k]@,
            ),
{
    let names = views(snapshot.benched_player_names@);
    let bench = join(names, ", "@);
    let body = seq![
        snapshot.session_label@,
        "Round "@ + decimal(snapshot.round_number as nat),
        Seq::empty(),
    ] + cards_lines(snapshot.scheduled_field_cards@);
    assert(share_text_lines(snapshot) =~= body.push("Bench"@).push(bench));
    lemma_join_push(body, "Bench"@, "\n"@);
    lemma_join_push(body.push("Bench"@), bench, "\n"@);
    let head = join(body, "\n"@);
    let text = join(share_text_lines(snapshot), "\n"@);
    reveal_strlit("\n");
    reveal_strlit("Bench");
    reveal_strlit("\nBench\n");
    let suffix = "\nBench\n"@ + bench;
    assert(text =~= head + suffix);
    assert(text.skip(text.len() - suffix.len()) =~= suffix);
    assert forall|k: int| 0 <= k < snapshot.benched_player_names@.len() implies contains_text(
        text,
        #[trigger] snapshot.benched_player_names@[k]@,
    ) by {
        lemma_join_contains_part(names, ", "@, k);
        assert(names[k] == snapshot.benched_player_names@[k]@);
        let t = choose|t: int| occurs_at(bench, names[k], t);
        lemma_occurs_in_suffix(head + "\nBench\n"@, bench, names[k], t);
        assert(head + "\nBench\n"@ + bench =~= text);
    }
}

proof fn lemma_join_has_prefix(lines: Seq<Seq<char>>, sep: Seq<char>, n: int)
    requires
        1 <= n <= lines.len(),
    ensures
        has_prefix(join(lines, sep), join(lines.take(n), sep)),
    decreases lines.len(),
{
    if n == lines.len() {
        assert(lines.take(n) =~= lines);
        assert(join(lines, sep).take(join(lines, sep).len() as int) =~= join(lines, sep));
    } else {
        let init = lines.drop_last();
        lemma_join_has_prefix(init, sep, n);
        assert(init.take(n) =~= lines.take(n));
        let p = join(lines.take(n), sep);
        assert(join(lines, sep) == join(init, sep) + sep + lines.last());
        assert(join(lines, sep).take(p.len() as int) =~= join(init, sep).take(p.len() as int));
    }
}

proof fn lemma_drop_blank_keeps_head(lines: Seq<Seq<char>>)
    requires
        lines.len() >= 2,
        lines[1].len() > 0,
    ensures
        drop_trailing_blank_lines(lines).len() >= 2,
        drop_trailing_blank_lines(lines).len() <= lines.len(),
        drop_trailing_blank_lines(lines) == lines.take(drop_trailing_blank_lines(lines).len() as int),
    decreases lines.len(),
{
    if lines.last().len() == 0 {
        let init = lines.drop_last();
        assert(init[1] == lines[1]);
        lemma_drop_blank_keeps_head(init);
        let r = drop_trailing_blank_lines(init);
        assert(init.take(r.len() as int) =~= lines.take(r.len() as int));
    } else {
        assert(lines.take(lines.len() as int) =~= lines);
    }
}

/// The shared text opens with the session label and, on the next line,
/// `Round <n>`.
pub proof fn lemma_share_text_opens_with_round(snapshot: RoundScheduleShareSnapshot)
    ensures
        has_prefix(
            join(share_text_lines(snapshot), "\n"@),
            snapshot.session_label@ + "\n"@ + "Round "@ + decimal(snapshot.round_number as nat),
        ),
{
    reveal_strlit("Round ");
    let round_line = "Round "@ + decimal(snapshot.round_number as nat);
    let body = seq![snapshot.session_label@, round_line, Seq::empty()] + cards_lines(
        snapshot.scheduled_field_cards@,
    );
    let lines = share_text_lines(snapshot);
    assert(body[1] == round_line);
    if snapshot.benched_player_names@.len() > 0 {
        assert(lines.take(2) =~= seq![snapshot.session_label@, round_line]);
    } else {
        lemma_drop_blank_keeps_head(body);
        let m = lines.len() as int;
        assert(lines == body.take(m));
        assert(lines.take(2) =~= seq![snapshot.session_label@, round_line]);
    }
    lemma_join_push(seq![snapshot.session_label@], round_line, "\n"@);
    assert(seq![snapshot.session_label@].push(round_line) =~= seq![snapshot.session_label@, round_line]);
    assert(join(seq![snapshot.session_label@], "\n"@) == snapshot.session_label@);
    lemma_join_has_prefix(lines, "\n"@, 2);
    assert(join(lines.take(2), "\n"@) =~= snapshot.session_label@ + "\n"@ + "Round "@ + decimal(
        snapshot.round_number as nat,
    ));
}

/// Pushes a line onto a vector of lines.
fn push_line(lines: &mut Vec<Vec<char>>, line: Vec<char>)
    ensures
        char_views(final(lines)@) == char_views(old(lines)@).push(line@),
{
    lines.push(line);
    proof {
        assert(final(lines)@.drop_last() == old(lines)@);
    }
}

/// The group-chat text of a round's schedule: the lines of
/// `share_text_lines` joined with newlines.
pub fn format_round_schedule_share_text(snapshot: &RoundScheduleShareSnapshot) -> (r: String)
    ensures
        r@ == join(share_text_lines(*snapshot), "\n"@),
        snapshot.benched_player_names@.len() > 0 ==> ends_with(
            r@,
            "\nBench\n"@ + join(views(snapshot.benched_player_names@), ", "@),
        ),
        forall|k: int|
            0 <= k < snapshot.benched_player_names@.len() ==> contains_text(
                r@,
                #[trigger] snapshot.benched_player_names@[k]@,
            ),
        has_prefix(r@, snapshot.session_label@ + "\n"@ + "Round "@ + decimal(snapshot.round_number as nat)),
{
    proof {
        lemma_share_text_opens_with_round(*snapshot);
        if snapshot.benched_player_names@.len() > 0 {
            lemma_share_text_ends_with_bench(*snapshot);
        }
    }
    let mut lines: Vec<Vec<char>> = Vec::new();
    push_line(&mut lines, chars_of(snapshot.session_label.as_str()));
    let mut round_line = chars_of("Round ");
    push_decimal(&mut round_line, snapshot.round_number as u64);
    push_line(&mut lines, round_line);
    push_line(&mut lines, Vec::new());
    let ghost header = char_views(lines@);
    proof {
        assert(header =~= seq![
            snapshot.session_label@,
            "Round "@ + decimal(snapshot.round_number as nat),
            Seq::<char>::empty(),
        ]);
    }
    let cards = &snapshot.scheduled_field_cards;
    let mut i: usize = 0;
    while i < cards.len()
        invariant
            i <= cards.len(),
            cards == &snapshot.scheduled_field_cards,
            char_views(lines@) == header + cards_lines(cards@.take(i as int)),
        decreases cards.len() - i,
    {
        let card = &cards[i];
        push_line(&mut lines, chars_of(card.field_label.as_str()));
        push_line(&mut lines, join_strings(&card.team_a_player_names, " / "));
        push_line(&mut lines, chars_of("vs"));
        push_line(&mut lines, join_strings(&card.team_b_player_names, " / "));
        push_line(&mut lines, Vec::new());
        proof {
            let prefix = cards@.take(i as int + 1);
            assert(prefix.drop_last() == cards@.take(i as int));
            assert(prefix.last() == cards@[i as int]);
            assert(char_views(lines@) =~= header + cards_lines(cards@.take(i as int)) + card_lines(
                cards@[i as int],
            ));
        }
        i = i + 1;
    }
    proof {
        assert(cards@.take(cards.len() as int) == cards@);
    }
    if snapshot.benched_player_names.len() > 0 {
        push_line(&mut lines, chars_of("Bench"));
        push_line(&mut lines, join_strings(&snapshot.benched_player_names, ", "));
        proof {
            assert(char_views(lines@) =~= header + cards_lines(cards@) + seq![
                "Bench"@,
                join(views(snapshot.benched_player_names@), ", "@),
            ]);
        }
    } else {
        while lines.len() > 0 && lines[lines.len() - 1].len() == 0
            invariant
                drop_trailing_blank_lines(char_views(lines@)) == drop_trailing_blank_lines(
                    header + cards_lines(cards@),
                ),
            decreases lines.len(),
        {
            let ghost prev = lines@;
            lines.pop();
            proof {
                assert(char_views(prev).drop_last() == char_views(lines@));
            }
        }
        proof {
            assert(drop_trailing_blank_lines(char_views(lines@)) == char_views(lines@));
        }
    }
    let newline = chars_of("\n");
    let text = join_chars(&lines, newline.as_slice());
    string_from_chars(text.as_slice())
}

// ── Render cards ────────────────────────────────────────────────────────────

/// The body of a field's image card: team A wrapped at 34 characters, `vs`,
/// team B wrapped at 34 characters.
pub open spec fn field_card_body(card: RoundScheduleFieldShareCard) -> Seq<Seq<char>> {
    wrap_text(join(views(card.team_a_player_names@), " / "@), 34) + seq!["vs"@] + wrap_text(
        join(views(card.team_b_player_names@), " / "@),
        34,
    )
}

/// A render card as title and body lines.
pub open spec fn render_card_view(card: RoundScheduleRenderCard) -> (Seq<char>, Seq<Seq<char>>) {
    (card.card_title@, views(card.body_lines@))
}

/// The image cards of a snapshot: one per field, in order, with the field
/// label as title, then a `Bench` card with the benched names (joined with
/// `", "`, wrapped at 42 characters) when someone sits out.
pub open spec fn render_cards(snapshot: RoundScheduleShareSnapshot) -> Seq<(Seq<char>, Seq<Seq<char>>)> {
    let fields = snapshot.scheduled_field_cards@.map_values(
        |card: RoundScheduleFieldShareCard| (card.field_label@, field_card_body(card)),
    );
    if snapshot.benched_player_names@.len() > 0 {
        fields.push(("Bench"@, wrap_text(join(views(snapshot.benched_player_names@), ", "@), 42)))
    } else {
        fields
    }
}

/// Builds the cards that the schedule image is drawn from.
pub fn build_render_cards(snapshot: &RoundScheduleShareSnapshot) -> (r: Vec<RoundScheduleRenderCard>)
    ensures
        r@.map_values(|c: RoundScheduleRenderCard| render_card_view(c)) == render_cards(*snapshot),
{
    let cards = &snapshot.scheduled_field_cards;
    let ghost expected = render_cards(*snapshot);
    let ghost field_views = cards@.map_values(
        |card: RoundScheduleFieldShareCard| (card.field_label@, field_card_body(card)),
    );
    let mut r: Vec<RoundScheduleRenderCard> = Vec::new();
    let mut i: usize = 0;
    while i < cards.len()
        invariant
            i <= cards.len(),
            cards == &snapshot.scheduled_field_cards,
            field_views == cards@.map_values(
                |card: RoundScheduleFieldShareCard| (card.field_label@, field_card_body(card)),
            ),
            r@.map_values(|c: RoundScheduleRenderCard| render_card_view(c)) == field_views.take(
                i as int,
            ),
        decreases cards.len() - i,
    {
        let card = &cards[i];
        let team_a = join_strings(&card.team_a_player_names, " / ");
        let mut body = wrap_chars(team_a.as_slice(), 34);
        let ghost first = char_views(body@);
        push_line(&mut body, chars_of("vs"));
        let team_b = join_strings(&card.team_b_player_names, " / ");
        let tail = wrap_chars(team_b.as_slice(), 34);
        let ghost mid = char_views(body@);
        let mut k: usize = 0;
        while k < tail.len()
            invariant
                k <= tail.len(),
                char_views(body@) == mid + char_views(tail@).take(k as int),
            decreases tail.len() - k,
        {
            push_line(&mut body, copy_chars(tail[k].as_slice()));
            proof {
                assert(char_views(tail@).take(k as int + 1) == char_views(tail@).take(k as int).push(
                    tail@[k as int]@,
                ));
            }
            k = k + 1;
        }
        proof {
            assert(char_views(tail@).take(tail.len() as int) == char_views(tail@));
        }
        let title = string_from_chars(chars_of(card.field_label.as_str()).as_slice());
        let body_lines = strings_from_char_vecs(&body);
        let ghost prev = r@;
        r.push(RoundScheduleRenderCard { card_title: title, body_lines });
        proof {
            assert(r@.drop_last() == prev);
            assert(render_card_view(r@.last()) == field_views[i as int]);
            assert(field_views.take(i as int + 1) == field_views.take(i as int).push(
                field_views[i as int],
            ));
            assert(r@.map_values(|c: RoundScheduleRenderCard| render_card_view(c)) =~= prev.map_values(
                |c: RoundScheduleRenderCard| render_card_view(c),
            ).push(render_card_view(r@.last())));
        }
        i = i + 1;
    }
    proof {
        assert(field_views.take(cards.len() as int) == field_views);
    }
    if snapshot.benched_player_names.len() > 0 {
        let bench = join_strings(&snapshot.benched_player_names, ", ");
        let wrapped = wrap_chars(bench.as_slice(), 42);
        let title = string_from_chars(chars_of("Bench").as_slice());
        let body_lines = strings_from_char_vecs(&wrapped);
        let ghost prev = r@;
        r.push(RoundScheduleRenderCard { card_title: title, body_lines });
        proof {
            assert(r@.drop_last() == prev);
            assert(r@.map_values(|c: RoundScheduleRenderCard| render_card_view(c)) =~= prev.map_values(
                |c: RoundScheduleRenderCard| render_card_view(c),
            ).push(render_card_view(r@.last())));
        }
    }
    r
}

/// The file name of the shared schedule image of a round.
pub fn round_schedule_png_filename(round_number: u32) -> (r: String)
    ensures
        r@ == "pcplayerpicker-round-"@ + decimal(round_number as nat) + ".png"@,
{
    let mut name = chars_of("pcplayerpicker-round-");
    push_decimal(&mut name, round_number as u64);
    push_all(&mut name, chars_of(".png").as_slice());
    string_from_chars(name.as_slice())
}

// ── Snapshot ────────────────────────────────────────────────────────────────

/// The name shown for a player id: the name of the first player with that
/// id, or `Player <id>` when the roster has none.
pub open spec fn player_name(players: Seq<Player>, id: PlayerId) -> Seq<char>
    decreases players.len(),
{
    if players.len() == 0 {
        "Player "@ + decimal(id as nat)
    } else if players[0].id == id {
        players[0].name@
    } else {
        player_name(players.drop_first(), id)
    }
}

/// The names shown for a list of player ids.
pub open spec fn names_of(players: Seq<Player>, ids: Seq<PlayerId>) -> Seq<Seq<char>> {
    ids.map_values(|id: PlayerId| player_name(players, id))
}

/// The matches played on field `field`, in their given order.
pub open spec fn on_field(matches: Seq<ScheduledMatch>, field: int) -> Seq<ScheduledMatch> {
    matches.filter(|m: ScheduledMatch| m.field as int == field)
}

/// The matches on fields below `bound`, field by field, keeping the given
/// order among matches on the same field.
pub open spec fn by_field_below(matches: Seq<ScheduledMatch>, bound: int) -> Seq<ScheduledMatch>
    decreases bound,
{
    if bound <= 0 {
        Seq::empty()
    } else {
        by_field_below(matches, bound - 1) + on_field(matches, bound - 1)
    }
}

/// The matches in field order; matches on the same field keep their given
/// order (a stable sort by field).
pub open spec fn sorted_by_field(matches: Seq<ScheduledMatch>) -> Seq<ScheduledMatch> {
    by_field_below(matches, 256)
}

/// The matches on fields below `bound` come in ascending field order, each
/// on a field below `bound`.
pub proof fn lemma_by_field_below_ascending(matches: Seq<ScheduledMatch>, bound: int)
    ensures
        forall|k: int|
            0 <= k < by_field_below(matches, bound).len() ==> (#[trigger] by_field_below(matches, bound)[k]).field
                < bound,
        forall|a: int, b: int|
            0 <= a < b < by_field_below(matches, bound).len() ==> (#[trigger] by_field_below(matches, bound)[a]).field
                <= (#[trigger] by_field_below(matches, bound)[b]).field,
    decreases bound,
{
    if bound > 0 {
        lemma_by_field_below_ascending(matches, bound - 1);
        let below = by_field_below(matches, bound - 1);
        let on = on_field(matches, bound - 1);
        let all = below + on;
        assert(by_field_below(matches, bound) == all);
        assert forall|k: int| 0 <= k < on.len() implies (#[trigger] on[k]).field == bound - 1 by {
            matches.lemma_filter_pred(|m: ScheduledMatch| m.field as int == bound - 1, k);
        }
        assert forall|k: int| 0 <= k < all.len() implies (#[trigger] all[k]).field < bound by {
            if k < below.len() {
                assert(all[k] == below[k]);
            } else {
                assert(all[k] == on[k - below.len()]);
            }
        }
        assert forall|a: int, b: int| 0 <= a < b < all.len() implies (#[trigger] all[a]).field <= (
        #[trigger] all[b]).field by {
            if b < below.len() {
                assert(all[a] == below[a] && all[b] == below[b]);
            } else if a < below.len() {
                assert(all[a] == below[a]);
                assert(all[b] == on[b - below.len()]);
            } else {
                assert(all[a] == on[a - below.len()]);
                assert(all[b] == on[b - below.len()]);
            }
        }
    }
}

/// Sorting by field puts the matches in ascending field order.
pub proof fn lemma_sorted_by_field_ascending(matches: Seq<ScheduledMatch>)
    ensures
        forall|a: int, b: int|
            0 <= a < b < sorted_by_field(matches).len() ==> (#[trigger] sorted_by_field(matches)[a]).field
                <= (#[trigger] sorted_by_field(matches)[b]).field,
{
    lemma_by_field_below_ascending(matches, 256);
}

/// `card` shows match `m`: `Field <n>` and the names of both teams.
pub open spec fn card_shows_match(
    card: RoundScheduleFieldShareCard,
    m: ScheduledMatch,
    players: Seq<Player>,
) -> bool {
    &&& card.field_label@ == "Field "@ + decimal(m.field as nat)
    &&& views(card.team_a_player_names@) == names_of(players, m.team_a@)
    &&& views(card.team_b_player_names@) == names_of(players, m.team_b@)
}

/// Player `id` is on a team of match `m`.
pub open spec fn match_uses(m: ScheduledMatch, id: PlayerId) -> bool {
    m.team_a@.contains(id) || m.team_b@.contains(id)
}

/// Player `id` is on a team of one of `matches`.
pub open spec fn is_scheduled(matches: Seq<ScheduledMatch>, id: PlayerId) -> bool {
    exists|i: int| 0 <= i < matches.len() && #[trigger] match_uses(matches[i], id)
}

/// The active players that no match of the round uses.
pub open spec fn benched_players(players: Seq<Player>, matches: Seq<ScheduledMatch>) -> Seq<Player> {
    players.filter(
        |p: Player| p.status == PlayerStatus::Active && !is_scheduled(matches, p.id),
    )
}

/// The names of the benched players.
pub open spec fn benched_names(players: Seq<Player>, matches: Seq<ScheduledMatch>) -> Seq<String> {
    benched_players(players, matches).map_values(|p: Player| p.name)
}

/// Names ordered by their ASCII-lowercased form.
pub open spec fn sorted_ignoring_ascii_case(names: Seq<String>) -> bool {
    forall|i: int, j: int|
        0 <= i < j < names.len() ==> lex_le(
            ascii_lower(#[trigger] names[i]@),
            ascii_lower(#[trigger] names[j]@),
        )
}

/// `names` reordered by their ASCII-lowercased form.
pub fn sort_names_ignoring_ascii_case(names: Vec<String>) -> (r: Vec<String>)
    ensures
        r@.to_multiset() == names@.to_multiset(),
        sorted_ignoring_ascii_case(r@),
{
    let mut keys: Vec<Vec<char>> = Vec::new();
    let mut i: usize = 0;
    while i < names.len()
        invariant
            i <= names.len(),
            keys.len() == i,
            forall|k: int| 0 <= k < i ==> (#[trigger] keys@[k])@ == ascii_lower(names@[k]@),
        decreases names.len() - i,
    {
        keys.push(lower_chars(chars_of(names[i].as_str()).as_slice()));
        i = i + 1;
    }
    let ghost key = |s: String| ascii_lower(s@);
    let r = sort_by_keys(names, keys, Ghost(key));
    proof {
        assert forall|a: int, b: int| 0 <= a < b < r@.len() implies lex_le(
            ascii_lower(#[trigger] r@[a]@),
            ascii_lower(#[trigger] r@[b]@),
        ) by {
            assert(key(r@[a]) == ascii_lower(r@[a]@));
            assert(key(r@[b]) == ascii_lower(r@[b]@));
        }
    }
    r
}

/// The name shown for `player_id`: the roster's name for it, or
/// `Player <id>`.
pub fn lookup_player_name(players_by_id: &[Player], player_id: PlayerId) -> (r: String)
    ensures
        r@ == player_name(players_by_id@, player_id),
{
    let mut i: usize = 0;
    proof {
        assert(players_by_id@.skip(0) == players_by_id@);
    }
    while i < players_by_id.len()
        invariant
            i <= players_by_id.len(),
            player_name(players_by_id@, player_id) == player_name(
                players_by_id@.skip(i as int),
                player_id,
            ),
        decreases players_by_id.len() - i,
    {
        if players_by_id[i].id == player_id {
            return players_by_id[i].name.clone();
        }
        proof {
            assert(players_by_id@.skip(i as int).drop_first() == players_by_id@.skip(i as int + 1));
        }
        i = i + 1;
    }
    let mut fallback = chars_of("Player ");
    push_decimal(&mut fallback, player_id as u64);
    string_from_chars(fallback.as_slice())
}

/// The names shown for a list of player ids.
pub fn lookup_player_names(players_by_id: &[Player], ids: &Vec<PlayerId>) -> (r: Vec<String>)
    ensures
        views(r@) == names_of(players_by_id@, ids@),
{
    let mut r: Vec<String> = Vec::new();
    let mut i: usize = 0;
    while i < ids.len()
        invariant
            i <= ids.len(),
            views(r@) == names_of(players_by_id@, ids@.take(i as int)),
        decreases ids.len() - i,
    {
        let name = lookup_player_name(players_by_id, ids[i]);
        let ghost prev = r@;
        r.push(name);
        proof {
            assert(ids@.take(i as int + 1) == ids@.take(i as int).push(ids@[i as int]));
            assert(r@.drop_last() == prev);
            assert(views(r@) == views(prev).push(r@.last()@));
            assert(names_of(players_by_id@, ids@.take(i as int + 1)) =~= names_of(
                players_by_id@,
                ids@.take(i as int),
            ).push(player_name(players_by_id@, ids@[i as int])));
        }
        i = i + 1;
    }
    proof {
        assert(ids@.take(ids.len() as int) == ids@);
    }
    r
}

/// Whether `id` is one of `ids`.
pub fn ids_contain(ids: &Vec<PlayerId>, id: PlayerId) -> (r: bool)
    ensures
        r == ids@.contains(id),
{
    let mut j: usize = 0;
    while j < ids.len()
        invariant
            j <= ids.len(),
            forall|k: int| 0 <= k < j ==> ids@[k] != id,
        decreases ids.len() - j,
    {
        if ids[j] == id {
            proof {
                assert(ids@[j as int] == id);
            }
            return true;
        }
        j = j + 1;
    }
    false
}

/// Whether `id` is on a team of one of `matches`.
pub fn is_scheduled_exec(matches: &[ScheduledMatch], id: PlayerId) -> (r: bool)
    ensures
        r == is_scheduled(matches@, id),
{
    let mut i: usize = 0;
    while i < matches.len()
        invariant
            i <= matches.len(),
            forall|k: int| 0 <= k < i ==> !(#[trigger] match_uses(matches@[k], id)),
        decreases matches.len() - i,
    {
        let in_a = ids_contain(&matches[i].team_a, id);
        let in_b = ids_contain(&matches[i].team_b, id);
        if in_a || in_b {
            proof {
                assert(match_uses(matches@[i as int], id));
            }
            return true;
        }
        proof {
            assert(!match_uses(matches@[i as int], id));
        }
        i = i + 1;
    }
    false
}


/// Builds the shareable snapshot of a round: one card per scheduled match in
/// field order (matches on the same field keep their given order), and the
/// active players who play in none of the matches, ordered by their name
/// ignoring ASCII case. The players are those of a session, one per id.
pub fn build_round_schedule_share_snapshot(
    session_label: String,
    round_number: u32,
    players_by_id: &[Player],
    scheduled_matches: &[ScheduledMatch],
) -> (r: RoundScheduleShareSnapshot)
    requires
        crate::models::distinct_player_ids(players_by_id@),
    ensures
        r.session_label == session_label,
        r.round_number == round_number,
        r.scheduled_field_cards@.len() == sorted_by_field(scheduled_matches@).len(),
        forall|i: int|
            0 <= i < r.scheduled_field_cards@.len() ==> card_shows_match(
                #[trigger] r.scheduled_field_cards@[i],
                sorted_by_field(scheduled_matches@)[i],
                players_by_id@,
            ),
        r.benched_player_names@.to_multiset() == benched_names(
            players_by_id@,
            scheduled_matches@,
        ).to_multiset(),
        sorted_ignoring_ascii_case(r.benched_player_names@),
{
    let ghost ms = scheduled_matches@;
    let ghost players = players_by_id@;
    let mut cards: Vec<RoundScheduleFieldShareCard> = Vec::new();
    let ghost mut placed: Seq<ScheduledMatch> = Seq::empty();
    let mut field: u16 = 0;
    while field < 256
        invariant
            field <= 256,
            ms == scheduled_matches@,
            players == players_by_id@,
            placed == by_field_below(ms, field as int),
            cards@.len() == placed.len(),
            forall|k: int|
                0 <= k < cards@.len() ==> card_shows_match(
                    #[trigger] cards@[k],
                    placed[k],
                    players,
                ),
        decreases 256 - field,
    {
        let ghost base = placed;
        let mut j: usize = 0;
        while j < scheduled_matches.len()
            invariant
                field < 256,
                j <= scheduled_matches.len(),
                ms == scheduled_matches@,
                players == players_by_id@,
                base == by_field_below(ms, field as int),
                placed == base + on_field(ms.take(j as int), field as int),
                cards@.len() == placed.len(),
                forall|k: int|
                    0 <= k < cards@.len() ==> card_shows_match(
                        #[trigger] cards@[k],
                        placed[k],
                        players,
                    ),
            decreases scheduled_matches.len() - j,
        {
            let m = &scheduled_matches[j];
            proof {
                assert(ms.take(j as int + 1) == ms.take(j as int).push(ms[j as int]));
                lemma_filter_push(
                    ms.take(j as int),
                    |x: ScheduledMatch| x.field as int == field as int,
                    ms[j as int],
                );
            }
            if m.field as u16 == field {
                let mut label = chars_of("Field ");
                push_decimal(&mut label, m.field as u64);
                let card = RoundScheduleFieldShareCard {
                    field_label: string_from_chars(label.as_slice()),
                    team_a_player_names: lookup_player_names(players_by_id, &m.team_a),
                    team_b_player_names: lookup_player_names(players_by_id, &m.team_b),
                };
                let ghost old_cards = cards@;
                cards.push(card);
                proof {
                    placed = placed.push(ms[j as int]);
                    assert forall|k: int| 0 <= k < cards@.len() implies card_shows_match(
                        #[trigger] cards@[k],
                        placed[k],
                        players,
                    ) by {
                        if k < old_cards.len() {
                            assert(cards@[k] == old_cards[k]);
                        }
                    }
                }
            }
            j = j + 1;
        }
        proof {
            assert(ms.take(scheduled_matches.len() as int) == ms);
        }
        field = field + 1;
    }
    let mut bench: Vec<String> = Vec::new();
    let mut i: usize = 0;
    while i < players_by_id.len()
        invariant
            i <= players_by_id.len(),
            ms == scheduled_matches@,
            players == players_by_id@,
            bench@ == benched_players(players.take(i as int), ms).map_values(|p: Player| p.name),
        decreases players_by_id.len() - i,
    {
        let p = &players_by_id[i];
        proof {
            assert(players.take(i as int + 1) == players.take(i as int).push(players[i as int]));
            lemma_filter_push(
                players.take(i as int),
                |q: Player| q.status == PlayerStatus::Active && !is_scheduled(ms, q.id),
                players[i as int],
            );
        }
        if p.status == PlayerStatus::Active && !is_scheduled_exec(scheduled_matches, p.id) {
            bench.push(p.name.clone());
            proof {
                assert(bench@ =~= benched_players(players.take(i as int + 1), ms).map_values(
                    |q: Player| q.name,
                ));
            }
        }
        i = i + 1;
    }
    proof {
        assert(players.take(players_by_id.len() as int) == players);
    }
    let benched_player_names = sort_names_ignoring_ascii_case(bench);
    RoundScheduleShareSnapshot {
        session_label,
        round_number,
        scheduled_field_cards: cards,
        benched_player_names,
    }
}

} // verus!

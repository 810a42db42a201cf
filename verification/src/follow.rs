//! The pages that follow an online session through a share link: whether a
//! resolved link may be used, the event cursor to pull after, the player
//! picker, and which matches a player or an assistant sees.
use vstd::prelude::*;

use crate::models::{MatchStatus, Player, PlayerId, PlayerStatus, RoundNumber, ScheduledMatch};
use crate::sync::TokenInfo;
use crate::text::{chars_equal, chars_of, lex_le, sort_by_keys, string_from_chars};

verus! {

// ── Share links ─────────────────────────────────────────────────────────────

/// Who a share link is for.
#[derive(Debug, Clone, Copy, PartialEq, Eq, Structural)]
pub enum LinkRole {
    Player,
    Assistant,
}

/// The role name the worker gives a link.
pub open spec fn role_name(role: LinkRole) -> Seq<char> {
    match role {
        LinkRole::Player => "player"@,
        LinkRole::Assistant => "assistant"@,
    }
}

/// What a page does with a resolved share link.
#[derive(Debug, Clone, PartialEq, Eq)]
pub enum LinkAccess {
    /// Ask for the link's PIN first.
    NeedsPin,
    /// The link is for someone else; show the message.
    WrongRole { message: String },
    /// Follow the session.
    Granted { session_id: String },
}

/// What a page for `role` does with a resolved link: a link behind a PIN
/// asks for it; a link of another role is refused; otherwise the session is
/// followed.
pub fn share_link_access(info: &TokenInfo, role: LinkRole) -> (r: LinkAccess)
    ensures
        match r {
            LinkAccess::NeedsPin => info.requires_pin,
            LinkAccess::WrongRole { message } => !info.requires_pin && info.role@ != role_name(role)
                && message@ == match role {
                LinkRole::Player => "This link is for players only."@,
                LinkRole::Assistant => "This link is for assistants only."@,
            },
            LinkAccess::Granted { session_id } => !info.requires_pin && info.role@ == role_name(role)
                && session_id@ == info.session_id@,
        },
{
    if info.requires_pin {
        return LinkAccess::NeedsPin;
    }
    let expected = match role {
        LinkRole::Player => "player",
        LinkRole::Assistant => "assistant",
    };
    if !chars_equal(chars_of(info.role.as_str()).as_slice(), chars_of(expected).as_slice()) {
        let message = match role {
            LinkRole::Player => "This link is for players only.",
            LinkRole::Assistant => "This link is for assistants only.",
        };
        return LinkAccess::WrongRole { message: string_from_chars(chars_of(message).as_slice()) };
    }
    LinkAccess::Granted { session_id: string_from_chars(chars_of(info.session_id.as_str()).as_slice()) }
}

/// Where the next pull starts: the version of the last event held, cut to
/// 32 bits; 0 with no events.
pub fn pull_cursor(event_versions: &[u64]) -> (r: u32)
    ensures
        r == if event_versions@.len() == 0 {
            0
        } else {
            event_versions@.last() as u32
        },
{
    if event_versions.len() == 0 {
        0
    } else {
        event_versions[event_versions.len() - 1] as u32
    }
}

// ── The player page ─────────────────────────────────────────────────────────

/// Some player has `id`.
pub open spec fn has_player(players: Seq<Player>, id: PlayerId) -> bool {
    exists|k: int| 0 <= k < players.len() && (#[trigger] players[k]).id == id
}

/// The remembered player, if the session still has them.
pub fn valid_selection(selection: Option<PlayerId>, players: &[Player]) -> (r: Option<PlayerId>)
    ensures
        r == match selection {
            Some(id) => if has_player(players@, id) {
                Some(id)
            } else {
                None
            },
            None => None,
        },
{
    match selection {
        Some(id) => {
            let mut k: usize = 0;
            while k < players.len()
                invariant
                    k <= players.len(),
                    forall|j: int| 0 <= j < k ==> (#[trigger] players@[j]).id != id,
                    selection == Some(id),
                decreases players.len() - k,
            {
                if players[k].id == id {
                    proof {
                        assert(players@[k as int].id == id);
                    }
                    return Some(id);
                }
                k = k + 1;
            }
            None
        },
        None => None,
    }
}

/// A picker entry's name.
pub open spec fn entry_name(entry: (PlayerId, String)) -> Seq<char> {
    entry.1@
}

/// The active players as `(id, name)`, in order.
pub open spec fn active_entries(players: Seq<Player>) -> Seq<(PlayerId, Seq<char>)> {
    players.filter(|p: Player| p.status == PlayerStatus::Active).map_values(
        |p: Player| (p.id, p.name@),
    )
}

/// The player picker: the active players, ordered by name.
pub fn picker_players(players: &[Player]) -> (r: Vec<(PlayerId, String)>)
    ensures
        r@.map_values(|e: (PlayerId, String)| (e.0, e.1@)).to_multiset() == active_entries(
            players@,
        ).to_multiset(),
        forall|i: int, j: int|
            0 <= i < j < r@.len() ==> lex_le(#[trigger] r@[i].1@, #[trigger] r@[j].1@),
{
    let mut entries: Vec<(PlayerId, String)> = Vec::new();
    let mut keys: Vec<Vec<char>> = Vec::new();
    let mut i: usize = 0;
    let ghost active = |p: Player| p.status == PlayerStatus::Active;
    let ghost as_entry = |p: Player| (p.id, p.name@);
    while i < players.len()
        invariant
            i <= players.len(),
            entries.len() == keys.len(),
            forall|k: int| 0 <= k < entries.len() ==> (#[trigger] keys@[k])@ == entries@[k].1@,
            entries@.map_values(|e: (PlayerId, String)| (e.0, e.1@)) == players@.take(i as int).filter(
                active,
            ).map_values(as_entry),
            active == (|p: Player| p.status == PlayerStatus::Active),
            as_entry == (|p: Player| (p.id, p.name@)),
        decreases players.len() - i,
    {
        proof {
            assert(players@.take(i as int + 1) == players@.take(i as int).push(players@[i as int]));
            crate::text::lemma_filter_push(players@.take(i as int), active, players@[i as int]);
        }
        if players[i].status == PlayerStatus::Active {
            let name = chars_of(players[i].name.as_str());
            keys.push(chars_of(players[i].name.as_str()));
            let ghost old_entries = entries@;
            let entry = (players[i].id, string_from_chars(name.as_slice()));
            entries.push(entry);
            proof {
                let p = players@[i as int];
                let f = |e: (PlayerId, String)| (e.0, e.1@);
                let prev = players@.take(i as int).filter(active);
                assert(active(p));
                assert(players@.take(i as int + 1).filter(active) == prev.push(p));
                assert(prev.push(p).map_values(as_entry) =~= prev.map_values(as_entry).push(as_entry(p)));
                assert(entries@.map_values(f) =~= old_entries.map_values(f).push(f(entry)));
                assert(f(entry) == as_entry(p));
            }
        } else {
            proof {
                assert(!active(players@[i as int]));
            }
        }
        i = i + 1;
    }
    proof {
        assert(players@.take(players.len() as int) == players@);
    }
    let ghost before = entries@;
    let r = sort_by_keys(entries, keys, Ghost(|e: (PlayerId, String)| entry_name(e)));
    proof {
        crate::text::lemma_map_values_same_multiset(
            r@,
            before,
            |e: (PlayerId, String)| (e.0, e.1@),
        );
        assert forall|i: int, j: int| 0 <= i < j < r@.len() implies lex_le(
            #[trigger] r@[i].1@,
            #[trigger] r@[j].1@,
        ) by {
            assert(lex_le(entry_name(r@[i]), entry_name(r@[j])));
        }
    }
    r
}

// ── Which matches are shown ─────────────────────────────────────────────────

/// Sorts `(key, position)` pairs by key, keeping every pair.
fn sort_by_key(items: Vec<(u64, usize)>) -> (r: Vec<(u64, usize)>)
    ensures
        r@.to_multiset() == items@.to_multiset(),
        forall|i: int, j: int| 0 <= i < j < r@.len() ==> (#[trigger] r@[i]).0 <= (#[trigger] r@[j]).0,
{
    let ghost all = items@;
    let mut rest = items;
    let mut r: Vec<(u64, usize)> = Vec::new();
    proof {
        vstd::seq_lib::to_multiset_len(r@);
        vstd::multiset::lemma_multiset_empty_len(r@.to_multiset());
        assert(r@.to_multiset() =~= vstd::multiset::Multiset::<(u64, usize)>::empty());
    }
    while rest.len() > 0
        invariant
            forall|i: int, j: int| 0 <= i < j < r@.len() ==> (#[trigger] r@[i]).0 <= (#[trigger] r@[j]).0,
            r@.to_multiset().add(rest@.to_multiset()) == all.to_multiset(),
        decreases rest.len(),
    {
        let ghost before = rest@;
        let x = rest.pop().unwrap();
        proof {
            assert(before == rest@.push(x));
            vstd::seq_lib::to_multiset_build(rest@, x);
        }
        let mut pos: usize = 0;
        while pos < r.len() && r[pos].0 <= x.0
            invariant
                pos <= r@.len(),
                forall|k: int| 0 <= k < pos ==> (#[trigger] r@[k]).0 <= x.0,
            decreases r@.len() - pos,
        {
            pos = pos + 1;
        }
        proof {
            vstd::seq_lib::to_multiset_insert(r@, pos as int, x);
        }
        let ghost old_r = r@;
        r.insert(pos, x);
        proof {
            assert forall|a: int, b: int| 0 <= a < b < r@.len() implies (#[trigger] r@[a]).0 <= (
            #[trigger] r@[b]).0 by {
                if b < pos {
                    assert(r@[a] == old_r[a] && r@[b] == old_r[b]);
                } else if b == pos {
                    assert(r@[a] == old_r[a]);
                } else if a < pos {
                    assert(r@[a] == old_r[a] && r@[b] == old_r[b - 1]);
                } else if a == pos {
                    assert(r@[b] == old_r[b - 1]);
                    assert(old_r[pos as int].0 > x.0);
                } else {
                    assert(r@[a] == old_r[a - 1] && r@[b] == old_r[b - 1]);
                }
            }
            assert(r@.to_multiset().add(rest@.to_multiset()) =~= all.to_multiset());
        }
    }
    proof {
        vstd::seq_lib::to_multiset_len(rest@);
        vstd::multiset::lemma_multiset_empty_len(rest@.to_multiset());
        assert(rest@.to_multiset() =~= vstd::multiset::Multiset::<(u64, usize)>::empty());
        assert(r@.to_multiset() =~= all.to_multiset());
    }
    r
}

/// A match in the player's itinerary: of this round or the next, not
/// voided, with the player on either team.
pub open spec fn in_itinerary(m: ScheduledMatch, round: RoundNumber, player: PlayerId) -> bool {
    &&& (m.round == round || m.round == round + 1)
    &&& m.status != MatchStatus::Voided
    &&& (m.team_a@.contains(player) || m.team_b@.contains(player))
}

/// A match of the round being scored: of this round and not voided.
pub open spec fn in_round(m: ScheduledMatch, round: RoundNumber) -> bool {
    m.round == round && m.status != MatchStatus::Voided
}

/// The positions of the matches `keep` selects, in order.
pub open spec fn positions_where(matches: Seq<ScheduledMatch>, keep: spec_fn(ScheduledMatch) -> bool) -> Seq<
    usize,
>
    decreases matches.len(),
{
    if matches.len() == 0 {
        Seq::empty()
    } else {
        let rest = positions_where(matches.drop_last(), keep);
        if keep(matches.last()) {
            rest.push((matches.len() - 1) as usize)
        } else {
            rest
        }
    }
}

/// Round first, then field: the order of an itinerary.
pub open spec fn round_field_key(m: ScheduledMatch) -> u64 {
    (m.round as u64 * 256 + m.field as u64) as u64
}

fn ids_include(ids: &Vec<PlayerId>, id: PlayerId) -> (r: bool)
    ensures
        r == ids@.contains(id),
{
    let mut k: usize = 0;
    while k < ids.len()
        invariant
            k <= ids.len(),
            forall|j: int| 0 <= j < k ==> ids@[j] != id,
        decreases ids.len() - k,
    {
        if ids[k] == id {
            proof {
                assert(ids@[k as int] == id);
            }
            return true;
        }
        k = k + 1;
    }
    false
}

/// The positions of `pairs`, in their order.
fn positions_of(pairs: &Vec<(u64, usize)>) -> (r: Vec<usize>)
    ensures
        r@ == pairs@.map_values(|p: (u64, usize)| p.1),
{
    let mut r: Vec<usize> = Vec::new();
    let mut k: usize = 0;
    while k < pairs.len()
        invariant
            k <= pairs@.len(),
            r@ == pairs@.take(k as int).map_values(|p: (u64, usize)| p.1),
        decreases pairs@.len() - k,
    {
        r.push(pairs[k].1);
        proof {
            assert(pairs@.take(k as int + 1).map_values(|p: (u64, usize)| p.1) =~= pairs@.take(
                k as int,
            ).map_values(|p: (u64, usize)| p.1).push(pairs@[k as int].1));
        }
        k = k + 1;
    }
    proof {
        assert(pairs@.take(pairs@.len() as int) == pairs@);
    }
    r
}

/// An element of a sorted copy is an element of the original.
proof fn lemma_sorted_member(sorted: Seq<(u64, usize)>, built: Seq<(u64, usize)>, a: int)
    requires
        sorted.to_multiset() == built.to_multiset(),
        0 <= a < sorted.len(),
    ensures
        built.contains(sorted[a]),
{
    vstd::seq_lib::to_multiset_contains(sorted, sorted[a]);
    vstd::seq_lib::to_multiset_contains(built, sorted[a]);
    assert(sorted.contains(sorted[a]));
}

/// The player's itinerary: their matches of this round and the next (not
/// voided), by round and then by field.
pub fn player_itinerary(matches: &[ScheduledMatch], round: RoundNumber, player: PlayerId) -> (r: Vec<
    usize,
>)
    requires
        round < u32::MAX,
    ensures
        r@.to_multiset() == positions_where(
            matches@,
            |m: ScheduledMatch| in_itinerary(m, round, player),
        ).to_multiset(),
        forall|a: int, b: int|
            0 <= a < b < r@.len() ==> round_field_key(matches@[#[trigger] r@[a] as int])
                <= round_field_key(matches@[#[trigger] r@[b] as int]),
{
    let ghost keep = |m: ScheduledMatch| in_itinerary(m, round, player);
    let mut pairs: Vec<(u64, usize)> = Vec::new();
    let mut i: usize = 0;
    while i < matches.len()
        invariant
            i <= matches@.len(),
            round < u32::MAX,
            keep == (|m: ScheduledMatch| in_itinerary(m, round, player)),
            pairs@.map_values(|p: (u64, usize)| p.1) == positions_where(matches@.take(i as int), keep),
            forall|k: int|
                0 <= k < pairs@.len() ==> (#[trigger] pairs@[k]).1 < matches@.len() && pairs@[k].0
                    == round_field_key(matches@[pairs@[k].1 as int]),
        decreases matches@.len() - i,
    {
        let m = &matches[i];
        proof {
            assert(matches@.take(i as int + 1).drop_last() == matches@.take(i as int));
            assert(matches@.take(i as int + 1).last() == matches@[i as int]);
        }
        let shown = (m.round == round || m.round == round + 1) && m.status != MatchStatus::Voided
            && (ids_include(&m.team_a, player) || ids_include(&m.team_b, player));
        if shown {
            let key: u64 = m.round as u64 * 256 + m.field as u64;
            let ghost old_pairs = pairs@;
            pairs.push((key, i));
            proof {
                assert(pairs@.map_values(|p: (u64, usize)| p.1) =~= old_pairs.map_values(
                    |p: (u64, usize)| p.1,
                ).push(i));
            }
        }
        i = i + 1;
    }
    proof {
        assert(matches@.take(matches@.len() as int) == matches@);
    }
    let ghost built = pairs@;
    let sorted = sort_by_key(pairs);
    let r = positions_of(&sorted);
    proof {
        crate::text::lemma_map_values_same_multiset(sorted@, built, |p: (u64, usize)| p.1);
        assert forall|a: int, b: int| 0 <= a < b < r@.len() implies round_field_key(
            matches@[#[trigger] r@[a] as int],
        ) <= round_field_key(matches@[#[trigger] r@[b] as int]) by {
            lemma_sorted_member(sorted@, built, a);
            lemma_sorted_member(sorted@, built, b);
            assert(sorted@[a].0 <= sorted@[b].0);
        }
    }
    r
}

/// The positions `positions_where` lists are exactly those of the matches
/// that `keep` accepts.
pub proof fn lemma_positions_where_contains(
    matches: Seq<ScheduledMatch>,
    keep: spec_fn(ScheduledMatch) -> bool,
    i: usize,
)
    requires
        matches.len() <= usize::MAX,
    ensures
        positions_where(matches, keep).contains(i) <==> (i < matches.len() && keep(matches[i as int])),
        forall|k: int|
            0 <= k < positions_where(matches, keep).len() ==> #[trigger] positions_where(matches, keep)[k]
                < matches.len(),
    decreases matches.len(),
{
    if matches.len() > 0 {
        let init = matches.drop_last();
        lemma_positions_where_contains(init, keep, i);
        let rest = positions_where(init, keep);
        let last = (matches.len() - 1) as usize;
        assert(init.len() == last);
        if keep(matches.last()) {
            let all = rest.push(last);
            assert(positions_where(matches, keep) == all);
            if all.contains(i) && i != last {
                let k = choose|k: int| 0 <= k < all.len() && all[k] == i;
                assert(k < rest.len());
                assert(rest.contains(i));
            }
            if rest.contains(i) {
                let k = choose|k: int| 0 <= k < rest.len() && rest[k] == i;
                assert(all[k] == i);
            }
            if i == last {
                assert(all[rest.len() as int] == i);
            }
            assert forall|k: int| 0 <= k < all.len() implies #[trigger] all[k] < matches.len() by {
                if k < rest.len() {
                    assert(all[k] == rest[k]);
                }
            }
        } else {
            if i == last {
                if rest.contains(i) {
                    let k = choose|k: int| 0 <= k < rest.len() && rest[k] == i;
                    assert(rest[k] < init.len());
                }
            }
        }
        if i < init.len() {
            assert(init[i as int] == matches[i as int]);
        }
    }
}

/// A match is in the view of a round exactly when it belongs to that round
/// and is not voided: the round's scheduled, in-progress and completed
/// matches are all listed, its voided ones and other rounds' never.
pub proof fn lemma_round_view_lists_unvoided_matches(matches: Seq<ScheduledMatch>, round: RoundNumber, i: usize)
    requires
        matches.len() <= usize::MAX,
    ensures
        positions_where(matches, |m: ScheduledMatch| in_round(m, round)).contains(i) <==> (i
            < matches.len() && matches[i as int].round == round && matches[i as int].status
            != MatchStatus::Voided),
{
    lemma_positions_where_contains(matches, |m: ScheduledMatch| in_round(m, round), i);
}

/// The matches of the round being scored (not voided), by field.
pub fn round_match_positions(matches: &[ScheduledMatch], round: RoundNumber) -> (r: Vec<usize>)
    ensures
        r@.to_multiset() == positions_where(matches@, |m: ScheduledMatch| in_round(m, round)).to_multiset(),
        forall|a: int, b: int|
            0 <= a < b < r@.len() ==> matches@[#[trigger] r@[a] as int].field <= matches@[#[trigger] r@[b] as int].field,
        forall|i: usize|
            #[trigger] r@.contains(i) <==> (i < matches@.len() && matches@[i as int].round == round
                && matches@[i as int].status != MatchStatus::Voided),
{
    let ghost keep = |m: ScheduledMatch| in_round(m, round);
    let mut pairs: Vec<(u64, usize)> = Vec::new();
    let mut i: usize = 0;
    while i < matches.len()
        invariant
            i <= matches@.len(),
            keep == (|m: ScheduledMatch| in_round(m, round)),
            pairs@.map_values(|p: (u64, usize)| p.1) == positions_where(matches@.take(i as int), keep),
            forall|k: int|
                0 <= k < pairs@.len() ==> (#[trigger] pairs@[k]).1 < matches@.len() && pairs@[k].0
                    == matches@[pairs@[k].1 as int].field,
        decreases matches@.len() - i,
    {
        proof {
            assert(matches@.take(i as int + 1).drop_last() == matches@.take(i as int));
            assert(matches@.take(i as int + 1).last() == matches@[i as int]);
        }
        if matches[i].round == round && matches[i].status != MatchStatus::Voided {
            let ghost old_pairs = pairs@;
            pairs.push((matches[i].field as u64, i));
            proof {
                assert(pairs@.map_values(|p: (u64, usize)| p.1) =~= old_pairs.map_values(
                    |p: (u64, usize)| p.1,
                ).push(i));
            }
        }
        i = i + 1;
    }
    proof {
        assert(matches@.take(matches@.len() as int) == matches@);
    }
    let ghost built = pairs@;
    let sorted = sort_by_key(pairs);
    let r = positions_of(&sorted);
    proof {
        crate::text::lemma_map_values_same_multiset(sorted@, built, |p: (u64, usize)| p.1);
        assert forall|a: int, b: int| 0 <= a < b < r@.len() implies matches@[#[trigger] r@[a] as int].field
            <= matches@[#[trigger] r@[b] as int].field by {
            lemma_sorted_member(sorted@, built, a);
            lemma_sorted_member(sorted@, built, b);
            assert(sorted@[a].0 <= sorted@[b].0);
        }
        assert(r@.to_multiset() == positions_where(matches@, keep).to_multiset());
        assert forall|i: usize| #[trigger] r@.contains(i) <==> (i < matches@.len() && matches@[i as int].round
            == round && matches@[i as int].status != MatchStatus::Voided) by {
            r@.to_multiset_ensures();
            positions_where(matches@, keep).to_multiset_ensures();
            assert(r@.to_multiset().count(i) == positions_where(matches@, keep).to_multiset().count(i));
            lemma_round_view_lists_unvoided_matches(matches@, round, i);
        }
    }
    r
}

} // verus!

//! Changing the players of a round's open matches: a draft of the round's
//! rosters in which the coach picks a slot and puts a player there, moving
//! the player out of the slot they held before.
use vstd::prelude::*;

use std::collections::{HashMap, HashSet};

use crate::models::{MatchId, MatchStatus, Player, PlayerId, PlayerStatus, RoundNumber, ScheduledMatch};
use crate::share::{by_field_below, on_field, sorted_by_field};
use crate::text::{
    ascii_lower, char_views, chars_of, decimal, join, join_chars, lemma_filter_push, lex_le,
    lower_chars, push_all, push_decimal, sort_by_keys, string_from_chars, views,
};

verus! {

broadcast use vstd::std_specs::hash::group_hash_axioms;

// ── Types ───────────────────────────────────────────────────────────────────

/// Which team of a match a slot belongs to.
#[derive(Debug, Clone, Copy, PartialEq, Eq, Structural)]
pub enum EditableTeamSide {
    TeamA,
    TeamB,
}

/// One player slot: a match, a team and the position on that team.
#[derive(Debug, Clone, Copy, PartialEq, Eq, Structural)]
pub struct EditablePlayerSlot {
    pub match_id: MatchId,
    pub team_side: EditableTeamSide,
    pub slot_index: usize,
}

/// A match of the round being edited; an empty slot holds `None`.
#[derive(Debug)]
pub struct EditableRoundMatchDraft {
    pub match_id: MatchId,
    pub round: RoundNumber,
    pub field: u8,
    pub status: MatchStatus,
    pub team_a: Vec<Option<PlayerId>>,
    pub team_b: Vec<Option<PlayerId>>,
}

/// The rosters of a match draft as values.
pub struct MatchDraftView {
    pub match_id: MatchId,
    pub round: RoundNumber,
    pub field: u8,
    pub status: MatchStatus,
    pub team_a: Seq<Option<PlayerId>>,
    pub team_b: Seq<Option<PlayerId>>,
}

impl View for EditableRoundMatchDraft {
    type V = MatchDraftView;

    open spec fn view(&self) -> MatchDraftView {
        MatchDraftView {
            match_id: self.match_id,
            round: self.round,
            field: self.field,
            status: self.status,
            team_a: self.team_a@,
            team_b: self.team_b@,
        }
    }
}

/// The whole edit of a round: the rosters as they were, as they are now,
/// the match the edit started from and the selected slot.
#[derive(Debug)]
pub struct RoundPlayerChangeDraft {
    pub round: RoundNumber,
    pub focused_match_id: MatchId,
    pub original_editable_matches: Vec<EditableRoundMatchDraft>,
    pub current_editable_matches: Vec<EditableRoundMatchDraft>,
    pub selected_slot: Option<EditablePlayerSlot>,
}

/// The views of several match drafts.
pub open spec fn draft_views(ms: Seq<EditableRoundMatchDraft>) -> Seq<MatchDraftView> {
    ms.map_values(|m: EditableRoundMatchDraft| m@)
}

/// Where a player sits in a completed match of the round; such a player
/// cannot be moved.
#[derive(Debug, Clone, Copy, PartialEq, Eq, Structural)]
pub struct LockedRoundAssignment {
    pub field: u8,
    pub status: MatchStatus,
}

// ── Slots ───────────────────────────────────────────────────────────────────

/// The slots of one team of a match draft.
pub open spec fn side_slots(m: MatchDraftView, side: EditableTeamSide) -> Seq<Option<PlayerId>> {
    match side {
        EditableTeamSide::TeamA => m.team_a,
        EditableTeamSide::TeamB => m.team_b,
    }
}

/// The player in a slot of a match draft; `None` for an empty slot or a
/// position past the end of the team.
pub open spec fn slot_value(m: MatchDraftView, side: EditableTeamSide, index: int) -> Option<PlayerId> {
    let slots = side_slots(m, side);
    if 0 <= index < slots.len() {
        slots[index]
    } else {
        None
    }
}

/// The first position of `x` in `s`.
pub open spec fn position_of(s: Seq<Option<PlayerId>>, x: Option<PlayerId>) -> Option<int>
    decreases s.len(),
{
    if s.len() == 0 {
        None
    } else if s[0] == x {
        Some(0)
    } else {
        match position_of(s.drop_first(), x) {
            Some(i) => Some(i + 1),
            None => None,
        }
    }
}

/// The first slot holding `x`: matches in order, team A before team B,
/// lower positions first.
pub open spec fn find_slot(ms: Seq<MatchDraftView>, x: Option<PlayerId>) -> Option<EditablePlayerSlot>
    decreases ms.len(),
{
    if ms.len() == 0 {
        None
    } else {
        match position_of(ms[0].team_a, x) {
            Some(i) => Some(
                EditablePlayerSlot {
                    match_id: ms[0].match_id,
                    team_side: EditableTeamSide::TeamA,
                    slot_index: i as usize,
                },
            ),
            None => match position_of(ms[0].team_b, x) {
                Some(i) => Some(
                    EditablePlayerSlot {
                        match_id: ms[0].match_id,
                        team_side: EditableTeamSide::TeamB,
                        slot_index: i as usize,
                    },
                ),
                None => find_slot(ms.drop_first(), x),
            },
        }
    }
}

/// The number of empty slots in `s`.
pub open spec fn count_empty(s: Seq<Option<PlayerId>>) -> nat
    decreases s.len(),
{
    if s.len() == 0 {
        0
    } else {
        count_empty(s.drop_last()) + if s.last() is None { 1nat } else { 0nat }
    }
}

/// The number of empty slots over all match drafts.
pub open spec fn open_slot_count(ms: Seq<MatchDraftView>) -> nat
    decreases ms.len(),
{
    if ms.len() == 0 {
        0
    } else {
        open_slot_count(ms.drop_last()) + count_empty(ms.last().team_a) + count_empty(
            ms.last().team_b,
        )
    }
}

/// The player in a slot of a match draft.
pub fn slot_player_id(
    editable_match: &EditableRoundMatchDraft,
    team_side: EditableTeamSide,
    slot_index: usize,
) -> (r: Option<PlayerId>)
    ensures
        r == slot_value(editable_match@, team_side, slot_index as int),
{
    let slots = match team_side {
        EditableTeamSide::TeamA => &editable_match.team_a,
        EditableTeamSide::TeamB => &editable_match.team_b,
    };
    if slot_index < slots.len() {
        slots[slot_index]
    } else {
        None
    }
}

fn position_in(s: &Vec<Option<PlayerId>>, x: Option<PlayerId>) -> (r: Option<usize>)
    ensures
        match r {
            Some(i) => position_of(s@, x) == Some(i as int),
            None => position_of(s@, x) is None,
        },
{
    let mut i: usize = 0;
    proof {
        assert(s@.skip(0) == s@);
    }
    while i < s.len()
        invariant
            i <= s.len(),
            forall|k: int| 0 <= k < i ==> s@[k] != x,
            position_of(s@, x) == match position_of(s@.skip(i as int), x) {
                Some(j) => Some(j + i),
                None => None::<int>,
            },
        decreases s.len() - i,
    {
        if s[i] == x {
            return Some(i);
        }
        proof {
            assert(s@.skip(i as int).drop_first() == s@.skip(i as int + 1));
        }
        i = i + 1;
    }
    None
}

fn find_slot_exec(ms: &Vec<EditableRoundMatchDraft>, x: Option<PlayerId>) -> (r: Option<
    EditablePlayerSlot,
>)
    ensures
        r == find_slot(draft_views(ms@), x),
{
    let ghost all = draft_views(ms@);
    let mut k: usize = 0;
    proof {
        assert(all.skip(0) == all);
    }
    while k < ms.len()
        invariant
            k <= ms.len(),
            all == draft_views(ms@),
            find_slot(all, x) == find_slot(all.skip(k as int), x),
        decreases ms.len() - k,
    {
        let m = &ms[k];
        proof {
            assert(all.skip(k as int)[0] == m@);
            assert(all.skip(k as int).drop_first() == all.skip(k as int + 1));
        }
        match position_in(&m.team_a, x) {
            Some(i) => {
                return Some(
                    EditablePlayerSlot {
                        match_id: m.match_id,
                        team_side: EditableTeamSide::TeamA,
                        slot_index: i,
                    },
                );
            },
            None => {},
        }
        match position_in(&m.team_b, x) {
            Some(i) => {
                return Some(
                    EditablePlayerSlot {
                        match_id: m.match_id,
                        team_side: EditableTeamSide::TeamB,
                        slot_index: i,
                    },
                );
            },
            None => {},
        }
        k = k + 1;
    }
    None
}

/// The first slot that holds `player_id`, searching matches in order, team
/// A before team B.
pub fn find_slot_for_player(
    editable_matches: &Vec<EditableRoundMatchDraft>,
    player_id: PlayerId,
) -> (r: Option<EditablePlayerSlot>)
    ensures
        r == find_slot(draft_views(editable_matches@), Some(player_id)),
{
    find_slot_exec(editable_matches, Some(player_id))
}

/// The first empty slot of the draft, searching matches in order, team A
/// before team B.
pub fn first_open_slot(draft: &RoundPlayerChangeDraft) -> (r: Option<EditablePlayerSlot>)
    ensures
        r == find_slot(draft_views(draft.current_editable_matches@), None),
{
    find_slot_exec(&draft.current_editable_matches, None)
}

fn count_empty_exec(s: &Vec<Option<PlayerId>>) -> (r: usize)
    ensures
        r == count_empty(s@),
{
    let mut n: usize = 0;
    let mut i: usize = 0;
    while i < s.len()
        invariant
            i <= s.len(),
            n == count_empty(s@.take(i as int)),
            n <= i,
        decreases s.len() - i,
    {
        proof {
            assert(s@.take(i as int + 1).drop_last() == s@.take(i as int));
        }
        if s[i].is_none() {
            n = n + 1;
        }
        i = i + 1;
    }
    proof {
        assert(s@.take(s.len() as int) == s@);
    }
    n
}

proof fn lemma_count_empty_bound(s: Seq<Option<PlayerId>>)
    ensures
        count_empty(s) <= s.len(),
    decreases s.len(),
{
    if s.len() > 0 {
        lemma_count_empty_bound(s.drop_last());
    }
}

/// The number of empty slots in the draft's current rosters.
pub fn count_open_slots(draft: &RoundPlayerChangeDraft) -> (r: usize)
    requires
        open_slot_count(draft_views(draft.current_editable_matches@)) <= usize::MAX,
    ensures
        r == open_slot_count(draft_views(draft.current_editable_matches@)),
{
    let ms = &draft.current_editable_matches;
    let ghost all = draft_views(ms@);
    let mut n: usize = 0;
    let mut k: usize = 0;
    while k < ms.len()
        invariant
            k <= ms.len(),
            all == draft_views(ms@),
            open_slot_count(all) <= usize::MAX,
            n == open_slot_count(all.take(k as int)),
        decreases ms.len() - k,
    {
        proof {
            assert(all.take(k as int + 1).drop_last() == all.take(k as int));
            assert(all.take(k as int + 1).last() == ms@[k as int]@);
            lemma_open_count_prefix(all, k as int + 1);
        }
        let a = count_empty_exec(&ms[k].team_a);
        let b = count_empty_exec(&ms[k].team_b);
        n = n + a + b;
        k = k + 1;
    }
    proof {
        assert(all.take(ms.len() as int) == all);
    }
    n
}

proof fn lemma_open_count_prefix(ms: Seq<MatchDraftView>, k: int)
    requires
        0 <= k <= ms.len(),
    ensures
        open_slot_count(ms.take(k)) <= open_slot_count(ms),
    decreases ms.len(),
{
    if k < ms.len() {
        assert(ms.drop_last().take(k) == ms.take(k));
        lemma_open_count_prefix(ms.drop_last(), k);
    } else {
        assert(ms.take(k) == ms);
    }
}

// ── Assigning a player ──────────────────────────────────────────────────────

/// The index of the first match draft with id `id`.
pub open spec fn match_index(ms: Seq<MatchDraftView>, id: MatchId) -> Option<int>
    decreases ms.len(),
{
    if ms.len() == 0 {
        None
    } else if ms[0].match_id == id {
        Some(0)
    } else {
        match match_index(ms.drop_first(), id) {
            Some(k) => Some(k + 1),
            None => None,
        }
    }
}

/// What `match_index` finds.
pub proof fn lemma_match_index(ms: Seq<MatchDraftView>, id: MatchId)
    ensures
        match match_index(ms, id) {
            Some(k) => {
                &&& 0 <= k < ms.len()
                &&& ms[k].match_id == id
                &&& forall|j: int| 0 <= j < k ==> ms[j].match_id != id
            },
            None => forall|j: int| 0 <= j < ms.len() ==> ms[j].match_id != id,
        },
    decreases ms.len(),
{
    if ms.len() > 0 && ms[0].match_id != id {
        lemma_match_index(ms.drop_first(), id);
        assert forall|j: int| 1 <= j < ms.len() implies ms[j] == ms.drop_first()[j - 1] by {}
    }
}

/// Match draft `m` with one slot of team `side` set to `v`.
pub open spec fn with_slot(
    m: MatchDraftView,
    side: EditableTeamSide,
    index: int,
    v: Option<PlayerId>,
) -> MatchDraftView {
    match side {
        EditableTeamSide::TeamA => MatchDraftView {
            match_id: m.match_id,
            round: m.round,
            field: m.field,
            status: m.status,
            team_a: m.team_a.update(index, v),
            team_b: m.team_b,
        },
        EditableTeamSide::TeamB => MatchDraftView {
            match_id: m.match_id,
            round: m.round,
            field: m.field,
            status: m.status,
            team_a: m.team_a,
            team_b: m.team_b.update(index, v),
        },
    }
}

/// The slot exists: its match is in the drafts and its position is within
/// the team.
pub open spec fn slot_exists(ms: Seq<MatchDraftView>, slot: EditablePlayerSlot) -> bool {
    match match_index(ms, slot.match_id) {
        Some(k) => slot.slot_index < side_slots(ms[k], slot.team_side).len(),
        None => false,
    }
}

/// The drafts with `slot` set to `v` (in the first match with the slot's
/// match id); unchanged when the slot does not exist.
pub open spec fn set_slot(
    ms: Seq<MatchDraftView>,
    slot: EditablePlayerSlot,
    v: Option<PlayerId>,
) -> Seq<MatchDraftView> {
    if slot_exists(ms, slot) {
        let k = match_index(ms, slot.match_id)->0;
        ms.update(k, with_slot(ms[k], slot.team_side, slot.slot_index as int, v))
    } else {
        ms
    }
}

/// The rosters after putting `player_id` into `slot`: the player takes the
/// slot, and the slot where the player sat before (the first one holding
/// them) is emptied unless it is the same slot.
pub open spec fn assign_slots(
    ms: Seq<MatchDraftView>,
    slot: EditablePlayerSlot,
    player_id: PlayerId,
) -> Seq<MatchDraftView> {
    let placed = set_slot(ms, slot, Some(player_id));
    match find_slot(ms, Some(player_id)) {
        Some(previous) => if previous != slot {
            set_slot(placed, previous, None)
        } else {
            placed
        },
        None => placed,
    }
}

/// Player `p` sits in position `i` of team `side` of match draft `k`.
pub open spec fn holds_at(
    ms: Seq<MatchDraftView>,
    k: int,
    side: EditableTeamSide,
    i: int,
    p: PlayerId,
) -> bool {
    0 <= k < ms.len() && slot_value(ms[k], side, i) == Some(p)
}

/// Every player sits in at most one slot of the drafts.
pub open spec fn each_player_once(ms: Seq<MatchDraftView>) -> bool {
    forall|p: PlayerId, k1: int, s1: EditableTeamSide, i1: int, k2: int, s2: EditableTeamSide, i2: int|
        #![trigger holds_at(ms, k1, s1, i1, p), holds_at(ms, k2, s2, i2, p)]
        holds_at(ms, k1, s1, i1, p) && holds_at(ms, k2, s2, i2, p) ==> k1 == k2 && s1 == s2 && i1
            == i2
}

/// Every team of the drafts has at most `usize::MAX` slots (true of drafts
/// held in vectors).
pub open spec fn teams_fit(ms: Seq<MatchDraftView>) -> bool {
    forall|k: int|
        0 <= k < ms.len() ==> (#[trigger] ms[k]).team_a.len() <= usize::MAX && ms[k].team_b.len()
            <= usize::MAX
}

/// No two match drafts share a match id.
pub open spec fn distinct_draft_ids(ms: Seq<MatchDraftView>) -> bool {
    forall|i: int, j: int| 0 <= i < j < ms.len() ==> ms[i].match_id != ms[j].match_id
}

proof fn lemma_position_of(s: Seq<Option<PlayerId>>, x: Option<PlayerId>)
    ensures
        match position_of(s, x) {
            Some(i) => 0 <= i < s.len() && s[i] == x,
            None => forall|j: int| 0 <= j < s.len() ==> s[j] != x,
        },
    decreases s.len(),
{
    if s.len() > 0 && s[0] != x {
        lemma_position_of(s.drop_first(), x);
        assert forall|j: int| 1 <= j < s.len() implies s[j] == s.drop_first()[j - 1] by {}
    }
}

proof fn lemma_find_slot(ms: Seq<MatchDraftView>, x: Option<PlayerId>)
    requires
        distinct_draft_ids(ms),
        teams_fit(ms),
    ensures
        match find_slot(ms, x) {
            Some(e) => {
                &&& slot_exists(ms, e)
                &&& slot_value(ms[match_index(ms, e.match_id)->0], e.team_side, e.slot_index as int)
                    == x
            },
            None => forall|k: int, side: EditableTeamSide, i: int|
                0 <= k < ms.len() && 0 <= i < side_slots(ms[k], side).len() ==> #[trigger] slot_value(
                    ms[k],
                    side,
                    i,
                ) != x,
        },
    decreases ms.len(),
{
    if ms.len() > 0 {
        lemma_position_of(ms[0].team_a, x);
        lemma_position_of(ms[0].team_b, x);
        let rest = ms.drop_first();
        assert(distinct_draft_ids(rest)) by {
            assert forall|i: int, j: int| 0 <= i < j < rest.len() implies rest[i].match_id
                != rest[j].match_id by {
                assert(rest[i] == ms[i + 1] && rest[j] == ms[j + 1]);
            }
        }
        assert(teams_fit(rest)) by {
            assert forall|k: int| 0 <= k < rest.len() implies (#[trigger] rest[k]).team_a.len()
                <= usize::MAX && rest[k].team_b.len() <= usize::MAX by {
                assert(rest[k] == ms[k + 1]);
            }
        }
        lemma_find_slot(rest, x);
        assert(ms[0] == ms[0]);
        match position_of(ms[0].team_a, x) {
            Some(i) => {},
            None => match position_of(ms[0].team_b, x) {
                Some(i) => {},
                None => {
                    match find_slot(rest, x) {
                        Some(e) => {
                            lemma_match_index(rest, e.match_id);
                            let k = match_index(rest, e.match_id)->0;
                            assert(ms[k + 1] == rest[k]);
                            assert(ms[0].match_id != e.match_id);
                        },
                        None => {
                            assert forall|k: int, side: EditableTeamSide, i: int|
                                0 <= k < ms.len() && 0 <= i < side_slots(ms[k], side).len()
                                    implies #[trigger] slot_value(ms[k], side, i) != x by {
                                if k > 0 {
                                    assert(ms[k] == rest[k - 1]);
                                }
                            }
                        },
                    }
                },
            },
        }
    }
}

/// The value of any slot after `set_slot`: the written slot holds `v`,
/// every other slot is unchanged, and the match ids stay as they were.
proof fn lemma_set_slot(ms: Seq<MatchDraftView>, slot: EditablePlayerSlot, v: Option<PlayerId>)
    ensures
        set_slot(ms, slot, v).len() == ms.len(),
        forall|k: int|
            0 <= k < ms.len() ==> (#[trigger] set_slot(ms, slot, v)[k]).match_id == ms[k].match_id
                && side_slots(set_slot(ms, slot, v)[k], EditableTeamSide::TeamA).len()
                == side_slots(ms[k], EditableTeamSide::TeamA).len() && side_slots(
                set_slot(ms, slot, v)[k],
                EditableTeamSide::TeamB,
            ).len() == side_slots(ms[k], EditableTeamSide::TeamB).len(),
        forall|k: int, side: EditableTeamSide, i: int|
            0 <= k < ms.len() ==> #[trigger] slot_value(set_slot(ms, slot, v)[k], side, i) == if slot_exists(
                ms,
                slot,
            ) && k == match_index(ms, slot.match_id)->0 && side == slot.team_side && i
                == slot.slot_index as int {
                v
            } else {
                slot_value(ms[k], side, i)
            },
{
    lemma_match_index(ms, slot.match_id);
}

proof fn lemma_match_index_same_ids(a: Seq<MatchDraftView>, b: Seq<MatchDraftView>, id: MatchId)
    requires
        a.len() == b.len(),
        forall|k: int| 0 <= k < a.len() ==> a[k].match_id == b[k].match_id,
    ensures
        match_index(a, id) == match_index(b, id),
    decreases a.len(),
{
    if a.len() > 0 {
        assert forall|k: int| 0 <= k < a.drop_first().len() implies a.drop_first()[k].match_id
            == b.drop_first()[k].match_id by {
            assert(a.drop_first()[k] == a[k + 1]);
            assert(b.drop_first()[k] == b[k + 1]);
        }
        lemma_match_index_same_ids(a.drop_first(), b.drop_first(), id);
    }
}

/// Moving a player keeps every player in at most one slot: if each player
/// sat in at most one slot of the round's open matches (and no two matches
/// share an id), the same holds after `assign_slots`, the player sits in the
/// chosen slot when it exists, and nowhere else.
pub proof fn lemma_assign_keeps_players_unique(
    ms: Seq<MatchDraftView>,
    slot: EditablePlayerSlot,
    player_id: PlayerId,
)
    requires
        each_player_once(ms),
        distinct_draft_ids(ms),
        teams_fit(ms),
    ensures
        each_player_once(assign_slots(ms, slot, player_id)),
        distinct_draft_ids(assign_slots(ms, slot, player_id)),
        slot_exists(ms, slot) ==> holds_at(
            assign_slots(ms, slot, player_id),
            match_index(ms, slot.match_id)->0,
            slot.team_side,
            slot.slot_index as int,
            player_id,
        ),
        forall|k: int, side: EditableTeamSide, i: int|
            #[trigger] holds_at(assign_slots(ms, slot, player_id), k, side, i, player_id) ==> {
                &&& slot_exists(ms, slot)
                &&& k == match_index(ms, slot.match_id)->0
                &&& side == slot.team_side
                &&& i == slot.slot_index as int
            },
{
    let placed = set_slot(ms, slot, Some(player_id));
    let result = assign_slots(ms, slot, player_id);
    lemma_set_slot(ms, slot, Some(player_id));
    lemma_match_index(ms, slot.match_id);
    lemma_find_slot(ms, Some(player_id));
    let found = find_slot(ms, Some(player_id));
    // Every slot of the result holds either what it held before, the player
    // (only in the chosen slot), or nothing.
    if found is Some && found->0 != slot {
        let e = found->0;
        lemma_set_slot(placed, e, None);
        lemma_match_index_same_ids(ms, placed, e.match_id);
        lemma_match_index(ms, e.match_id);
    }
    assert(result.len() == ms.len());
    assert forall|k: int| 0 <= k < result.len() implies (#[trigger] result[k]).match_id
        == ms[k].match_id by {}
    assert(distinct_draft_ids(result));
    let ek = if found is Some { match_index(ms, found->0.match_id)->0 } else { -1 };
    assert forall|k: int, side: EditableTeamSide, i: int|
        0 <= k < ms.len() implies #[trigger] slot_value(result[k], side, i) == if slot_exists(ms, slot)
            && k == match_index(ms, slot.match_id)->0 && side == slot.team_side && i
            == slot.slot_index as int {
            Some(player_id)
        } else if found is Some && found->0 != slot && k == ek && side == found->0.team_side && i
            == found->0.slot_index as int {
            None
        } else {
            slot_value(ms[k], side, i)
        } by {
        if found is Some && found->0 != slot {
            let e = found->0;
            assert(slot_exists(placed, e) == slot_exists(ms, e));
            if slot_exists(ms, slot) && k == match_index(ms, slot.match_id)->0 && side
                == slot.team_side && i == slot.slot_index as int && k == ek && side == e.team_side
                && i == e.slot_index as int {
                assert(ms[k].match_id == slot.match_id);
                assert(ms[k].match_id == e.match_id);
                assert(e == slot);
            }
        }
    }
    assert forall|p: PlayerId, k1: int, s1: EditableTeamSide, i1: int, k2: int, s2: EditableTeamSide, i2: int|
        #![trigger holds_at(result, k1, s1, i1, p), holds_at(result, k2, s2, i2, p)]
        holds_at(result, k1, s1, i1, p) && holds_at(result, k2, s2, i2, p) implies k1 == k2 && s1
            == s2 && i1 == i2 by {
        if p == player_id {
            if !(slot_exists(ms, slot) && k1 == match_index(ms, slot.match_id)->0 && s1
                == slot.team_side && i1 == slot.slot_index as int) {
                assert(holds_at(ms, k1, s1, i1, p));
                assert(found is Some);
                assert(holds_at(ms, ek, found->0.team_side, found->0.slot_index as int, p));
            }
            if !(slot_exists(ms, slot) && k2 == match_index(ms, slot.match_id)->0 && s2
                == slot.team_side && i2 == slot.slot_index as int) {
                assert(holds_at(ms, k2, s2, i2, p));
                assert(found is Some);
                assert(holds_at(ms, ek, found->0.team_side, found->0.slot_index as int, p));
            }
        } else {
            assert(holds_at(ms, k1, s1, i1, p));
            assert(holds_at(ms, k2, s2, i2, p));
        }
    }
    assert forall|k: int, side: EditableTeamSide, i: int|
        #[trigger] holds_at(result, k, side, i, player_id) implies {
            &&& slot_exists(ms, slot)
            &&& k == match_index(ms, slot.match_id)->0
            &&& side == slot.team_side
            &&& i == slot.slot_index as int
        } by {
        if !(slot_exists(ms, slot) && k == match_index(ms, slot.match_id)->0 && side
            == slot.team_side && i == slot.slot_index as int) {
            assert(holds_at(ms, k, side, i, player_id));
            assert(found is Some);
            assert(holds_at(ms, ek, found->0.team_side, found->0.slot_index as int, player_id));
        }
    }
}

/// The name shown for a player in the editor: the session's name for them,
/// or `#<id>`.
pub open spec fn display_name(names: Map<PlayerId, String>, id: PlayerId) -> Seq<char> {
    if names.contains_key(id) {
        names[id]@
    } else {
        "#"@ + decimal(id as nat)
    }
}

/// The message shown when a player sits in a completed match.
pub open spec fn locked_message(name: Seq<char>, field: u8) -> Seq<char> {
    name + " is locked on Field "@ + decimal(field as nat) + " because that match is already complete."@
}

fn match_index_exec(ms: &Vec<EditableRoundMatchDraft>, id: MatchId) -> (r: Option<usize>)
    ensures
        match r {
            Some(k) => match_index(draft_views(ms@), id) == Some(k as int),
            None => match_index(draft_views(ms@), id) is None,
        },
{
    let ghost all = draft_views(ms@);
    let mut k: usize = 0;
    proof {
        assert(all.skip(0) == all);
    }
    while k < ms.len()
        invariant
            k <= ms.len(),
            all == draft_views(ms@),
            match_index(all, id) == match match_index(all.skip(k as int), id) {
                Some(j) => Some(j + k),
                None => None::<int>,
            },
        decreases ms.len() - k,
    {
        proof {
            assert(all.skip(k as int)[0] == ms@[k as int]@);
            assert(all.skip(k as int).drop_first() == all.skip(k as int + 1));
        }
        if ms[k].match_id == id {
            return Some(k);
        }
        k = k + 1;
    }
    None
}

fn copy_slots(s: &Vec<Option<PlayerId>>) -> (r: Vec<Option<PlayerId>>)
    ensures
        r@ == s@,
{
    let mut r: Vec<Option<PlayerId>> = Vec::new();
    let mut i: usize = 0;
    while i < s.len()
        invariant
            i <= s.len(),
            r@ == s@.take(i as int),
        decreases s.len() - i,
    {
        r.push(s[i]);
        proof {
            assert(s@.take(i as int + 1) == s@.take(i as int).push(s@[i as int]));
        }
        i = i + 1;
    }
    proof {
        assert(s@.take(s.len() as int) == s@);
    }
    r
}

/// A copy of a match draft.
pub fn copy_match_draft(m: &EditableRoundMatchDraft) -> (r: EditableRoundMatchDraft)
    ensures
        r@ == m@,
{
    EditableRoundMatchDraft {
        match_id: m.match_id,
        round: m.round,
        field: m.field,
        status: m.status,
        team_a: copy_slots(&m.team_a),
        team_b: copy_slots(&m.team_b),
    }
}

/// A copy of several match drafts.
pub fn copy_match_drafts(ms: &Vec<EditableRoundMatchDraft>) -> (r: Vec<EditableRoundMatchDraft>)
    ensures
        draft_views(r@) == draft_views(ms@),
{
    let mut r: Vec<EditableRoundMatchDraft> = Vec::new();
    let mut i: usize = 0;
    while i < ms.len()
        invariant
            i <= ms.len(),
            draft_views(r@) == draft_views(ms@).take(i as int),
        decreases ms.len() - i,
    {
        let ghost prev = r@;
        r.push(copy_match_draft(&ms[i]));
        proof {
            assert(r@.drop_last() == prev);
            assert(draft_views(r@) == draft_views(prev).push(r@.last()@));
            assert(draft_views(ms@).take(i as int + 1) == draft_views(ms@).take(i as int).push(
                ms@[i as int]@,
            ));
        }
        i = i + 1;
    }
    proof {
        assert(draft_views(ms@).take(ms.len() as int) == draft_views(ms@));
    }
    r
}

fn set_slot_exec(
    ms: &mut Vec<EditableRoundMatchDraft>,
    slot: EditablePlayerSlot,
    v: Option<PlayerId>,
)
    ensures
        draft_views(final(ms)@) == set_slot(draft_views(old(ms)@), slot, v),
{
    let ghost before = draft_views(ms@);
    proof {
        lemma_match_index(before, slot.match_id);
    }
    match match_index_exec(ms, slot.match_id) {
        Some(k) => {
            proof {
                assert(before[k as int] == ms@[k as int]@);
            }
            let mut m = copy_match_draft(&ms[k]);
            let valid = match slot.team_side {
                EditableTeamSide::TeamA => slot.slot_index < m.team_a.len(),
                EditableTeamSide::TeamB => slot.slot_index < m.team_b.len(),
            };
            if valid {
                match slot.team_side {
                    EditableTeamSide::TeamA => {
                        m.team_a.set(slot.slot_index, v);
                    },
                    EditableTeamSide::TeamB => {
                        m.team_b.set(slot.slot_index, v);
                    },
                }
                proof {
                    assert(m@ == with_slot(before[k as int], slot.team_side, slot.slot_index as int, v));
                }
                ms.set(k, m);
                proof {
                    assert(draft_views(ms@) =~= before.update(k as int, m@));
                }
            }
        },
        None => {},
    }
}

/// Puts `player_id` into `selected_slot`. A player who sits in a completed
/// match of the round cannot be moved; otherwise the slot the player held
/// before is emptied.
pub fn assign_player_to_slot(
    draft: &mut RoundPlayerChangeDraft,
    selected_slot: EditablePlayerSlot,
    player_id: PlayerId,
    locked_assignments: &HashMap<PlayerId, LockedRoundAssignment>,
    player_names: &HashMap<PlayerId, String>,
) -> (r: Result<(), String>)
    ensures
        final(draft).round == old(draft).round,
        final(draft).focused_match_id == old(draft).focused_match_id,
        final(draft).selected_slot == old(draft).selected_slot,
        draft_views(final(draft).original_editable_matches@) == draft_views(
            old(draft).original_editable_matches@,
        ),
        match r {
            Err(message) => {
                &&& locked_assignments@.contains_key(player_id)
                &&& message@ == locked_message(
                    display_name(player_names@, player_id),
                    locked_assignments@[player_id].field,
                )
                &&& draft_views(final(draft).current_editable_matches@) == draft_views(
                    old(draft).current_editable_matches@,
                )
            },
            Ok(()) => {
                &&& !locked_assignments@.contains_key(player_id)
                &&& draft_views(final(draft).current_editable_matches@) == assign_slots(
                    draft_views(old(draft).current_editable_matches@),
                    selected_slot,
                    player_id,
                )
            },
        },
{
    match locked_assignments.get(&player_id) {
        Some(locked) => {
            let mut message = match player_names.get(&player_id) {
                Some(name) => chars_of(name.as_str()),
                None => {
                    let mut fallback = chars_of("#");
                    push_decimal(&mut fallback, player_id as u64);
                    fallback
                },
            };
            push_all(&mut message, chars_of(" is locked on Field ").as_slice());
            push_decimal(&mut message, locked.field as u64);
            push_all(
                &mut message,
                chars_of(" because that match is already complete.").as_slice(),
            );
            return Err(string_from_chars(message.as_slice()));
        },
        None => {},
    }
    let existing_slot_for_player = find_slot_exec(&draft.current_editable_matches, Some(player_id));
    set_slot_exec(&mut draft.current_editable_matches, selected_slot, Some(player_id));
    match existing_slot_for_player {
        Some(existing_slot) => {
            if existing_slot != selected_slot {
                set_slot_exec(&mut draft.current_editable_matches, existing_slot, None);
            }
        },
        None => {},
    }
    Ok(())
}

// ── Building the draft ──────────────────────────────────────────────────────

/// A scheduled match as a draft: every slot filled with its player.
pub open spec fn scheduled_as_draft(m: ScheduledMatch) -> MatchDraftView {
    MatchDraftView {
        match_id: m.id,
        round: m.round,
        field: m.field,
        status: m.status,
        team_a: m.team_a@.map_values(|p: PlayerId| Some(p)),
        team_b: m.team_b@.map_values(|p: PlayerId| Some(p)),
    }
}

/// A match whose players can still change: neither completed nor voided.
pub open spec fn is_open_status(status: MatchStatus) -> bool {
    status != MatchStatus::Completed && status != MatchStatus::Voided
}

/// The open matches of round `round`.
pub open spec fn open_in_round(matches: Seq<ScheduledMatch>, round: RoundNumber) -> Seq<ScheduledMatch> {
    matches.filter(|m: ScheduledMatch| m.round == round && is_open_status(m.status))
}

/// The matches on fields below `bound` are exactly those of `matches` on
/// such a field.
proof fn lemma_by_field_below_contains(matches: Seq<ScheduledMatch>, bound: int, m: ScheduledMatch)
    ensures
        by_field_below(matches, bound).contains(m) <==> (matches.contains(m) && (m.field as int) < bound),
    decreases bound,
{
    if bound > 0 {
        lemma_by_field_below_contains(matches, bound - 1, m);
        let below = by_field_below(matches, bound - 1);
        let on = on_field(matches, bound - 1);
        crate::text::lemma_filter_contains_iff(matches, |x: ScheduledMatch| x.field as int == bound - 1, m);
        if (below + on).contains(m) {
            let k = choose|k: int| 0 <= k < (below + on).len() && (below + on)[k] == m;
            if k < below.len() {
                assert(below[k] == m);
            } else {
                assert(on[k - below.len()] == m);
            }
        }
        if below.contains(m) {
            let k = choose|k: int| 0 <= k < below.len() && below[k] == m;
            assert((below + on)[k] == m);
        }
        if on.contains(m) {
            let k = choose|k: int| 0 <= k < on.len() && on[k] == m;
            assert((below + on)[below.len() + k] == m);
        }
    }
}

/// A match can have its players changed exactly while it is scheduled or in
/// progress.
pub proof fn lemma_open_statuses(status: MatchStatus)
    ensures
        is_open_status(status) <==> (status == MatchStatus::Scheduled || status == MatchStatus::InProgress),
{
}

/// The editable matches of a round are exactly the round's matches that are
/// scheduled or in progress, whatever their field.
pub proof fn lemma_round_draft_holds_open_matches(matches: Seq<ScheduledMatch>, round: RoundNumber, m: ScheduledMatch)
    ensures
        sorted_by_field(open_in_round(matches, round)).contains(m) <==> (matches.contains(m) && m.round
            == round && (m.status == MatchStatus::Scheduled || m.status == MatchStatus::InProgress)),
{
    lemma_by_field_below_contains(open_in_round(matches, round), 256, m);
    crate::text::lemma_filter_contains_iff(
        matches,
        |x: ScheduledMatch| x.round == round && is_open_status(x.status),
        m,
    );
    lemma_open_statuses(m.status);
}

/// The index of the first match with id `id`.
pub open spec fn scheduled_index(matches: Seq<ScheduledMatch>, id: MatchId) -> Option<int>
    decreases matches.len(),
{
    if matches.len() == 0 {
        None
    } else if matches[0].id == id {
        Some(0)
    } else {
        match scheduled_index(matches.drop_first(), id) {
            Some(k) => Some(k + 1),
            None => None,
        }
    }
}

fn ids_as_slots(ids: &Vec<PlayerId>) -> (r: Vec<Option<PlayerId>>)
    ensures
        r@ == ids@.map_values(|p: PlayerId| Some(p)),
{
    let mut r: Vec<Option<PlayerId>> = Vec::new();
    let mut i: usize = 0;
    while i < ids.len()
        invariant
            i <= ids.len(),
            r@ == ids@.take(i as int).map_values(|p: PlayerId| Some(p)),
        decreases ids.len() - i,
    {
        r.push(Some(ids[i]));
        proof {
            assert(ids@.take(i as int + 1).map_values(|p: PlayerId| Some(p)) =~= ids@.take(
                i as int,
            ).map_values(|p: PlayerId| Some(p)).push(Some(ids@[i as int])));
        }
        i = i + 1;
    }
    proof {
        assert(ids@.take(ids.len() as int) == ids@);
    }
    r
}

/// A scheduled match as an editable draft with every slot filled.
pub fn build_editable_match_draft(scheduled_match: &ScheduledMatch) -> (r: EditableRoundMatchDraft)
    ensures
        r@ == scheduled_as_draft(*scheduled_match),
{
    EditableRoundMatchDraft {
        match_id: scheduled_match.id,
        round: scheduled_match.round,
        field: scheduled_match.field,
        status: scheduled_match.status,
        team_a: ids_as_slots(&scheduled_match.team_a),
        team_b: ids_as_slots(&scheduled_match.team_b),
    }
}

fn scheduled_index_exec(matches: &[ScheduledMatch], id: MatchId) -> (r: Option<usize>)
    ensures
        match r {
            Some(k) => scheduled_index(matches@, id) == Some(k as int) && k < matches.len(),
            None => scheduled_index(matches@, id) is None,
        },
{
    let mut k: usize = 0;
    proof {
        assert(matches@.skip(0) == matches@);
    }
    while k < matches.len()
        invariant
            k <= matches.len(),
            scheduled_index(matches@, id) == match scheduled_index(matches@.skip(k as int), id) {
                Some(j) => Some(j + k),
                None => None::<int>,
            },
        decreases matches.len() - k,
    {
        proof {
            assert(matches@.skip(k as int).drop_first() == matches@.skip(k as int + 1));
        }
        if matches[k].id == id {
            return Some(k);
        }
        k = k + 1;
    }
    None
}

/// The open matches of `round` as drafts, in field order (stable within a
/// field).
pub fn build_open_round_drafts(matches: &[ScheduledMatch], round: RoundNumber) -> (r: Vec<
    EditableRoundMatchDraft,
>)
    ensures
        draft_views(r@) == sorted_by_field(open_in_round(matches@, round)).map_values(
            |m: ScheduledMatch| scheduled_as_draft(m),
        ),
{
    let ghost ms = matches@;
    let ghost open = open_in_round(ms, round);
    let ghost pred = |m: ScheduledMatch| m.round == round && is_open_status(m.status);
    let mut r: Vec<EditableRoundMatchDraft> = Vec::new();
    let ghost mut placed: Seq<ScheduledMatch> = Seq::empty();
    let mut field: u16 = 0;
    while field < 256
        invariant
            field <= 256,
            ms == matches@,
            open == open_in_round(ms, round),
            pred == (|m: ScheduledMatch| m.round == round && is_open_status(m.status)),
            placed == by_field_below(open, field as int),
            draft_views(r@) == placed.map_values(|m: ScheduledMatch| scheduled_as_draft(m)),
        decreases 256 - field,
    {
        let ghost base = placed;
        let mut j: usize = 0;
        while j < matches.len()
            invariant
                field < 256,
                j <= matches.len(),
                ms == matches@,
                open == open_in_round(ms, round),
                pred == (|m: ScheduledMatch| m.round == round && is_open_status(m.status)),
                base == by_field_below(open, field as int),
                placed == base + on_field(ms.take(j as int).filter(pred), field as int),
                draft_views(r@) == placed.map_values(|m: ScheduledMatch| scheduled_as_draft(m)),
            decreases matches.len() - j,
        {
            let m = &matches[j];
            proof {
                assert(ms.take(j as int + 1) == ms.take(j as int).push(ms[j as int]));
                lemma_filter_push(ms.take(j as int), pred, ms[j as int]);
                lemma_filter_push(
                    ms.take(j as int).filter(pred),
                    |x: ScheduledMatch| x.field as int == field as int,
                    ms[j as int],
                );
            }
            if m.field as u16 == field && m.round == round && m.status != MatchStatus::Completed
                && m.status != MatchStatus::Voided {
                let ghost prev = r@;
                let d = build_editable_match_draft(m);
                r.push(d);
                proof {
                    let old_placed = placed;
                    placed = placed.push(ms[j as int]);
                    assert(r@.drop_last() == prev);
                    assert(draft_views(r@) =~= draft_views(prev).push(r@.last()@));
                    assert(r@.last()@ == scheduled_as_draft(ms[j as int]));
                    assert(placed.map_values(|m: ScheduledMatch| scheduled_as_draft(m)) =~= old_placed.map_values(
                        |m: ScheduledMatch| scheduled_as_draft(m),
                    ).push(scheduled_as_draft(ms[j as int])));
                    assert(draft_views(r@) =~= placed.map_values(
                        |m: ScheduledMatch| scheduled_as_draft(m),
                    ));
                }
            }
            j = j + 1;
        }
        proof {
            assert(ms.take(matches.len() as int) == ms);
        }
        field = field + 1;
    }
    r
}

/// Starts editing the round of `focused_match_id`: no draft when the match
/// is unknown, completed or voided; otherwise the open matches of its round
/// in field order, as they are now, with no slot selected.
pub fn build_round_player_change_draft(
    matches: &[ScheduledMatch],
    focused_match_id: MatchId,
) -> (r: Option<RoundPlayerChangeDraft>)
    ensures
        r is Some <==> (scheduled_index(matches@, focused_match_id) is Some && is_open_status(
            matches@[scheduled_index(matches@, focused_match_id)->0].status,
        )),
        r is Some ==> ({
            let d = r->0;
            let focused = matches@[scheduled_index(matches@, focused_match_id)->0];
            let expected = sorted_by_field(open_in_round(matches@, focused.round)).map_values(
                |m: ScheduledMatch| scheduled_as_draft(m),
            );
            &&& d.round == focused.round
            &&& d.focused_match_id == focused_match_id
            &&& draft_views(d.original_editable_matches@) == expected
            &&& draft_views(d.current_editable_matches@) == expected
            &&& d.selected_slot is None
        }),
        r is Some <==> (scheduled_index(matches@, focused_match_id) is Some && ({
            let status = matches@[scheduled_index(matches@, focused_match_id)->0].status;
            status == MatchStatus::Scheduled || status == MatchStatus::InProgress
        })),
        r matches Some(d) ==> forall|j: int|
            0 <= j < matches@.len() && (#[trigger] matches@[j]).round == d.round && (matches@[j].status
                == MatchStatus::Scheduled || matches@[j].status == MatchStatus::InProgress) ==> exists|k: int|
                0 <= k < d.current_editable_matches@.len() && (#[trigger] d.current_editable_matches@[k])@
                    == scheduled_as_draft(matches@[j]),
        r matches Some(d) ==> forall|a: int, b: int|
            0 <= a < b < d.current_editable_matches@.len() ==> (#[trigger] d.current_editable_matches@[a])@.field
                <= (#[trigger] d.current_editable_matches@[b])@.field,
        r matches Some(d) ==> forall|k: int|
            0 <= k < d.current_editable_matches@.len() ==> (#[trigger] d.current_editable_matches@[k])@.round
                == d.round && (d.current_editable_matches@[k]@.status == MatchStatus::Scheduled
                || d.current_editable_matches@[k]@.status == MatchStatus::InProgress),
{
    let k = match scheduled_index_exec(matches, focused_match_id) {
        Some(k) => k,
        None => return None,
    };
    let focused = &matches[k];
    if focused.status == MatchStatus::Completed || focused.status == MatchStatus::Voided {
        return None;
    }
    let editable = build_open_round_drafts(matches, focused.round);
    proof {
        lemma_open_statuses(focused.status);
        let sorted = sorted_by_field(open_in_round(matches@, focused.round));
        assert forall|j: int|
            0 <= j < matches@.len() && (#[trigger] matches@[j]).round == focused.round && (matches@[j].status
                == MatchStatus::Scheduled || matches@[j].status == MatchStatus::InProgress) implies exists|k: int|
                0 <= k < editable@.len() && (#[trigger] editable@[k])@ == scheduled_as_draft(matches@[j]) by {
            assert(matches@.contains(matches@[j]));
            lemma_round_draft_holds_open_matches(matches@, focused.round, matches@[j]);
            let t = choose|t: int| 0 <= t < sorted.len() && sorted[t] == matches@[j];
            assert(draft_views(editable@).len() == editable@.len());
            assert(sorted.map_values(|m: ScheduledMatch| scheduled_as_draft(m))[t] == scheduled_as_draft(sorted[t]));
            assert(draft_views(editable@)[t] == editable@[t]@);
            assert(editable@[t]@ == scheduled_as_draft(matches@[j]));
        }
        assert forall|k: int| 0 <= k < editable@.len() implies (#[trigger] editable@[k])@.round == focused.round
            && (editable@[k]@.status == MatchStatus::Scheduled || editable@[k]@.status == MatchStatus::InProgress) by {
            assert(draft_views(editable@).len() == editable@.len());
            assert(draft_views(editable@)[k] == editable@[k]@);
            assert(sorted.map_values(|m: ScheduledMatch| scheduled_as_draft(m))[k] == scheduled_as_draft(sorted[k]));
            assert(sorted.contains(sorted[k]));
            lemma_round_draft_holds_open_matches(matches@, focused.round, sorted[k]);
        }
        crate::share::lemma_sorted_by_field_ascending(open_in_round(matches@, focused.round));
        assert forall|a: int, b: int| 0 <= a < b < editable@.len() implies (#[trigger] editable@[a])@.field
            <= (#[trigger] editable@[b])@.field by {
            assert(draft_views(editable@).len() == editable@.len());
            assert(draft_views(editable@)[a] == editable@[a]@);
            assert(draft_views(editable@)[b] == editable@[b]@);
            assert(sorted.map_values(|m: ScheduledMatch| scheduled_as_draft(m))[a] == scheduled_as_draft(sorted[a]));
            assert(sorted.map_values(|m: ScheduledMatch| scheduled_as_draft(m))[b] == scheduled_as_draft(sorted[b]));
        }
    }
    let original = copy_match_drafts(&editable);
    Some(
        RoundPlayerChangeDraft {
            round: focused.round,
            focused_match_id,
            original_editable_matches: original,
            current_editable_matches: editable,
            selected_slot: None,
        },
    )
}

/// The draft as scheduled matches: `None` while any slot is empty.
pub open spec fn all_slots_filled(ms: Seq<MatchDraftView>) -> bool {
    forall|k: int, side: EditableTeamSide, i: int|
        0 <= k < ms.len() && 0 <= i < side_slots(ms[k], side).len() ==> (#[trigger] slot_value(
            ms[k],
            side,
            i,
        )) is Some
}

/// The players of a filled team, in slot order.
pub open spec fn filled_ids(slots: Seq<Option<PlayerId>>) -> Seq<PlayerId> {
    slots.map_values(|s: Option<PlayerId>| s->0)
}

fn filled_team(slots: &Vec<Option<PlayerId>>) -> (r: Option<Vec<PlayerId>>)
    ensures
        match r {
            Some(ids) => (forall|i: int| 0 <= i < slots@.len() ==> (#[trigger] slots@[i]) is Some)
                && ids@ == filled_ids(slots@),
            None => exists|i: int| 0 <= i < slots@.len() && (#[trigger] slots@[i]) is None,
        },
{
    let mut ids: Vec<PlayerId> = Vec::new();
    let mut i: usize = 0;
    while i < slots.len()
        invariant
            i <= slots.len(),
            forall|j: int| 0 <= j < i ==> (#[trigger] slots@[j]) is Some,
            ids@ == filled_ids(slots@.take(i as int)),
        decreases slots.len() - i,
    {
        match slots[i] {
            Some(p) => {
                ids.push(p);
                proof {
                    assert(filled_ids(slots@.take(i as int + 1)) =~= filled_ids(
                        slots@.take(i as int),
                    ).push(p));
                }
            },
            None => {
                return None;
            },
        }
        i = i + 1;
    }
    proof {
        assert(slots@.take(slots.len() as int) == slots@);
    }
    Some(ids)
}

/// A draft match with filled teams, back as a scheduled match.
pub open spec fn scheduled_from_draft(m: MatchDraftView, s: ScheduledMatch) -> bool {
    &&& s.id == m.match_id
    &&& s.round == m.round
    &&& s.field == m.field
    &&& s.status == m.status
    &&& s.team_a@ == filled_ids(m.team_a)
    &&& s.team_b@ == filled_ids(m.team_b)
}

/// The edited rosters as scheduled matches, or `None` while some slot is
/// still empty.
pub fn build_updated_matches_from_draft(draft: &RoundPlayerChangeDraft) -> (r: Option<
    Vec<ScheduledMatch>,
>)
    ensures
        r is Some <==> all_slots_filled(draft_views(draft.current_editable_matches@)),
        r is Some ==> r->0@.len() == draft.current_editable_matches@.len() && forall|k: int|
            0 <= k < r->0@.len() ==> scheduled_from_draft(
                draft.current_editable_matches@[k]@,
                #[trigger] r->0@[k],
            ),
{
    let ms = &draft.current_editable_matches;
    let ghost all = draft_views(ms@);
    let mut updated: Vec<ScheduledMatch> = Vec::new();
    let mut k: usize = 0;
    while k < ms.len()
        invariant
            k <= ms.len(),
            ms == &draft.current_editable_matches,
            all == draft_views(ms@),
            updated@.len() == k,
            forall|j: int| 0 <= j < k ==> scheduled_from_draft(ms@[j]@, #[trigger] updated@[j]),
            forall|j: int, side: EditableTeamSide, i: int|
                0 <= j < k && 0 <= i < side_slots(all[j], side).len() ==> (#[trigger] slot_value(
                    all[j],
                    side,
                    i,
                )) is Some,
        decreases ms.len() - k,
    {
        let m = &ms[k];
        proof {
            assert(all[k as int] == m@);
        }
        let team_a = match filled_team(&m.team_a) {
            Some(ids) => ids,
            None => {
                proof {
                    let i = choose|i: int| 0 <= i < m.team_a@.len() && (#[trigger] m.team_a@[i]) is None;
                    assert(slot_value(all[k as int], EditableTeamSide::TeamA, i) is None);
                }
                return None;
            },
        };
        let team_b = match filled_team(&m.team_b) {
            Some(ids) => ids,
            None => {
                proof {
                    let i = choose|i: int| 0 <= i < m.team_b@.len() && (#[trigger] m.team_b@[i]) is None;
                    assert(slot_value(all[k as int], EditableTeamSide::TeamB, i) is None);
                }
                return None;
            },
        };
        let ghost prev = updated@;
        updated.push(
            ScheduledMatch {
                id: m.match_id,
                round: m.round,
                field: m.field,
                team_a,
                team_b,
                status: m.status,
            },
        );
        proof {
            assert forall|j: int| 0 <= j < k + 1 implies scheduled_from_draft(
                ms@[j]@,
                #[trigger] updated@[j],
            ) by {
                if j < k {
                    assert(updated@[j] == prev[j]);
                }
            }
            assert forall|j: int, side: EditableTeamSide, i: int|
                0 <= j < k + 1 && 0 <= i < side_slots(all[j], side).len() implies (#[trigger] slot_value(
                all[j],
                side,
                i,
            )) is Some by {
                if j == k {
                    match side {
                        EditableTeamSide::TeamA => assert(m.team_a@[i] is Some),
                        EditableTeamSide::TeamB => assert(m.team_b@[i] is Some),
                    }
                }
            }
        }
        k = k + 1;
    }
    Some(updated)
}

/// The player in the draft's selected slot, if there is a draft, a
/// selected slot, a match with its id and a player in it.
pub fn current_player_in_selected_slot(draft: Option<RoundPlayerChangeDraft>) -> (r: Option<PlayerId>)
    ensures
        r == match draft {
            None => None,
            Some(d) => match d.selected_slot {
                None => None,
                Some(slot) => match match_index(draft_views(d.current_editable_matches@), slot.match_id) {
                    None => None,
                    Some(k) => slot_value(
                        draft_views(d.current_editable_matches@)[k],
                        slot.team_side,
                        slot.slot_index as int,
                    ),
                },
            },
        },
{
    let draft = match draft {
        Some(d) => d,
        None => return None,
    };
    let selected_slot = match draft.selected_slot {
        Some(slot) => slot,
        None => return None,
    };
    proof {
        lemma_match_index(draft_views(draft.current_editable_matches@), selected_slot.match_id);
    }
    match match_index_exec(&draft.current_editable_matches, selected_slot.match_id) {
        Some(k) => {
            proof {
                assert(draft_views(draft.current_editable_matches@)[k as int]
                    == draft.current_editable_matches@[k as int]@);
            }
            slot_player_id(
                &draft.current_editable_matches[k],
                selected_slot.team_side,
                selected_slot.slot_index,
            )
        },
        None => None,
    }
}

/// The round of the draft, if there is one.
pub fn draft_round(draft: Option<RoundPlayerChangeDraft>) -> (r: Option<RoundNumber>)
    ensures
        r == match draft {
            Some(d) => Some(d.round),
            None => None,
        },
{
    match draft {
        Some(d) => Some(d.round),
        None => None,
    }
}

/// The style classes of a slot button by whether it is selected and empty.
pub fn slot_button_class(is_selected: bool, is_empty: bool) -> (r: &'static str)
    ensures
        r@ == (if is_selected && is_empty {
            "min-h-[44px] w-full rounded-xl border border-amber-300 bg-amber-500/20 px-3 py-2 text-left text-sm font-medium text-amber-100 transition-colors"@
        } else if is_selected {
            "min-h-[44px] w-full rounded-xl border border-blue-300 bg-blue-500/20 px-3 py-2 text-left text-sm font-medium text-blue-50 transition-colors"@
        } else if is_empty {
            "min-h-[44px] w-full rounded-xl border border-dashed border-amber-500/60 bg-amber-950/30 px-3 py-2 text-left text-sm font-medium text-amber-200 transition-colors hover:bg-amber-900/40"@
        } else {
            "min-h-[44px] w-full rounded-xl border border-white/10 bg-slate-900 px-3 py-2 text-left text-sm font-medium text-white transition-colors hover:bg-slate-800"@
        }),
{
    if is_selected && is_empty {
        "min-h-[44px] w-full rounded-xl border border-amber-300 bg-amber-500/20 px-3 py-2 text-left text-sm font-medium text-amber-100 transition-colors"
    } else if is_selected {
        "min-h-[44px] w-full rounded-xl border border-blue-300 bg-blue-500/20 px-3 py-2 text-left text-sm font-medium text-blue-50 transition-colors"
    } else if is_empty {
        "min-h-[44px] w-full rounded-xl border border-dashed border-amber-500/60 bg-amber-950/30 px-3 py-2 text-left text-sm font-medium text-amber-200 transition-colors hover:bg-amber-900/40"
    } else {
        "min-h-[44px] w-full rounded-xl border border-white/10 bg-slate-900 px-3 py-2 text-left text-sm font-medium text-white transition-colors hover:bg-slate-800"
    }
}

// ── Views of the draft ──────────────────────────────────────────────────────

/// A slot button of the editor.
#[derive(Debug)]
pub struct SlotButtonViewModel {
    pub slot: EditablePlayerSlot,
    pub label: String,
    pub is_selected: bool,
    pub is_empty: bool,
}

/// A match card of the editor with the slot buttons of both teams.
#[derive(Debug)]
pub struct VisibleMatchCardViewModel {
    pub field: u8,
    pub status: MatchStatus,
    pub team_a_slots: Vec<SlotButtonViewModel>,
    pub team_b_slots: Vec<SlotButtonViewModel>,
}

/// The label of a slot: the player's name, or `fallback` for an empty slot
/// or a player without a name.
pub open spec fn slot_label_or(
    names: Map<PlayerId, String>,
    v: Option<PlayerId>,
    fallback: Seq<char>,
) -> Seq<char> {
    match v {
        Some(p) => if names.contains_key(p) {
            names[p]@
        } else {
            fallback
        },
        None => fallback,
    }
}

/// The label of a slot button.
pub open spec fn slot_label(names: Map<PlayerId, String>, v: Option<PlayerId>) -> Seq<char> {
    slot_label_or(names, v, "Open slot"@)
}

/// `model` is the button of position `i` of team `side` of match `m`.
pub open spec fn slot_model_shows(
    model: SlotButtonViewModel,
    selected: Option<EditablePlayerSlot>,
    m: MatchDraftView,
    side: EditableTeamSide,
    i: int,
    names: Map<PlayerId, String>,
) -> bool {
    &&& model.slot == EditablePlayerSlot { match_id: m.match_id, team_side: side, slot_index: i as usize }
    &&& model.label@ == slot_label(names, side_slots(m, side)[i])
    &&& model.is_selected == (selected == Some(model.slot))
    &&& model.is_empty == (side_slots(m, side)[i] is None)
}

/// `models` are the buttons of team `side` of match `m`, in slot order.
pub open spec fn slot_models_show(
    models: Seq<SlotButtonViewModel>,
    selected: Option<EditablePlayerSlot>,
    m: MatchDraftView,
    side: EditableTeamSide,
    names: Map<PlayerId, String>,
) -> bool {
    &&& models.len() == side_slots(m, side).len()
    &&& forall|i: int|
        0 <= i < models.len() ==> slot_model_shows(#[trigger] models[i], selected, m, side, i, names)
}

fn name_or(names: &HashMap<PlayerId, String>, v: Option<PlayerId>, fallback: &str) -> (r: String)
    ensures
        r@ == slot_label_or(names@, v, fallback@),
{
    match v {
        Some(p) => match names.get(&p) {
            Some(name) => name.clone(),
            None => string_from_chars(chars_of(fallback).as_slice()),
        },
        None => string_from_chars(chars_of(fallback).as_slice()),
    }
}

/// The slot buttons of one team of a match draft.
pub fn build_slot_view_models(
    draft: &RoundPlayerChangeDraft,
    editable_match: &EditableRoundMatchDraft,
    team_side: EditableTeamSide,
    player_names: &HashMap<PlayerId, String>,
) -> (r: Vec<SlotButtonViewModel>)
    ensures
        slot_models_show(r@, draft.selected_slot, editable_match@, team_side, player_names@),
{
    let slots = match team_side {
        EditableTeamSide::TeamA => &editable_match.team_a,
        EditableTeamSide::TeamB => &editable_match.team_b,
    };
    let mut r: Vec<SlotButtonViewModel> = Vec::new();
    let mut i: usize = 0;
    while i < slots.len()
        invariant
            i <= slots.len(),
            slots@ == side_slots(editable_match@, team_side),
            r.len() == i,
            forall|k: int|
                0 <= k < i ==> slot_model_shows(
                    #[trigger] r@[k],
                    draft.selected_slot,
                    editable_match@,
                    team_side,
                    k,
                    player_names@,
                ),
        decreases slots.len() - i,
    {
        let slot = EditablePlayerSlot {
            match_id: editable_match.match_id,
            team_side,
            slot_index: i,
        };
        let label = name_or(player_names, slots[i], "Open slot");
        let is_selected = match draft.selected_slot {
            Some(selected) => selected == slot,
            None => false,
        };
        let ghost prev = r@;
        r.push(SlotButtonViewModel { slot, label, is_selected, is_empty: slots[i].is_none() });
        proof {
            assert forall|k: int| 0 <= k < i + 1 implies slot_model_shows(
                #[trigger] r@[k],
                draft.selected_slot,
                editable_match@,
                team_side,
                k,
                player_names@,
            ) by {
                if k < i {
                    assert(r@[k] == prev[k]);
                }
            }
        }
        i = i + 1;
    }
    r
}

/// The draft of the match with id `id` as it was when editing started.
pub open spec fn original_of(orig: Seq<MatchDraftView>, id: MatchId) -> Option<MatchDraftView> {
    match match_index(orig, id) {
        Some(k) => Some(orig[k]),
        None => None,
    }
}

/// The rosters of `m` differ from those it started with (a match without a
/// starting draft counts as unchanged).
pub open spec fn roster_changed(orig: Seq<MatchDraftView>, m: MatchDraftView) -> bool {
    match original_of(orig, m.match_id) {
        Some(o) => o.team_a != m.team_a || o.team_b != m.team_b,
        None => false,
    }
}

/// `m` has an empty slot.
pub open spec fn has_open_slot(m: MatchDraftView) -> bool {
    m.team_a.contains(None) || m.team_b.contains(None)
}

/// The matches the editor shows: the focused one, and every match whose
/// rosters changed or that has an empty slot.
pub open spec fn visible_ids(
    focused: MatchId,
    orig: Seq<MatchDraftView>,
    cur: Seq<MatchDraftView>,
) -> Set<MatchId> {
    Set::new(
        |id: MatchId|
            id == focused || exists|k: int|
                0 <= k < cur.len() && (#[trigger] cur[k]).match_id == id && (roster_changed(
                    orig,
                    cur[k],
                ) || has_open_slot(cur[k])),
    )
}

fn slots_equal(a: &Vec<Option<PlayerId>>, b: &Vec<Option<PlayerId>>) -> (r: bool)
    ensures
        r == (a@ == b@),
{
    if a.len() != b.len() {
        return false;
    }
    let mut i: usize = 0;
    while i < a.len()
        invariant
            a.len() == b.len(),
            i <= a.len(),
            forall|k: int| 0 <= k < i ==> a@[k] == b@[k],
        decreases a.len() - i,
    {
        if a[i] != b[i] {
            return false;
        }
        i = i + 1;
    }
    proof {
        assert(a@ =~= b@);
    }
    true
}

fn roster_changed_exec(
    orig: &Vec<EditableRoundMatchDraft>,
    m: &EditableRoundMatchDraft,
) -> (r: bool)
    ensures
        r == roster_changed(draft_views(orig@), m@),
{
    proof {
        lemma_match_index(draft_views(orig@), m.match_id);
    }
    match match_index_exec(orig, m.match_id) {
        Some(k) => {
            proof {
                assert(draft_views(orig@)[k as int] == orig@[k as int]@);
            }
            !slots_equal(&orig[k].team_a, &m.team_a) || !slots_equal(&orig[k].team_b, &m.team_b)
        },
        None => false,
    }
}

fn has_open_slot_exec(m: &EditableRoundMatchDraft) -> (r: bool)
    ensures
        r == has_open_slot(m@),
{
    let a = position_in(&m.team_a, None);
    let b = position_in(&m.team_b, None);
    proof {
        lemma_position_of(m.team_a@, None);
        lemma_position_of(m.team_b@, None);
    }
    a.is_some() || b.is_some()
}

/// The ids of the matches the editor shows.
pub fn visible_match_ids(draft: &RoundPlayerChangeDraft) -> (r: HashSet<MatchId>)
    ensures
        r@ == visible_ids(
            draft.focused_match_id,
            draft_views(draft.original_editable_matches@),
            draft_views(draft.current_editable_matches@),
        ),
{
    let ghost orig = draft_views(draft.original_editable_matches@);
    let ghost cur = draft_views(draft.current_editable_matches@);
    let mut ids: HashSet<MatchId> = HashSet::new();
    ids.insert(draft.focused_match_id);
    let ms = &draft.current_editable_matches;
    let mut k: usize = 0;
    while k < ms.len()
        invariant
            k <= ms.len(),
            ms == &draft.current_editable_matches,
            orig == draft_views(draft.original_editable_matches@),
            cur == draft_views(ms@),
            ids@ == Set::new(
                |id: MatchId|
                    id == draft.focused_match_id || exists|j: int|
                        0 <= j < k && (#[trigger] cur[j]).match_id == id && (roster_changed(
                            orig,
                            cur[j],
                        ) || has_open_slot(cur[j])),
            ),
        decreases ms.len() - k,
    {
        let m = &ms[k];
        proof {
            assert(cur[k as int] == m@);
        }
        let changed = roster_changed_exec(&draft.original_editable_matches, m);
        let open = has_open_slot_exec(m);
        let ghost before = ids@;
        if changed || open {
            ids.insert(m.match_id);
        }
        proof {
            assert(ids@ =~= Set::new(
                |id: MatchId|
                    id == draft.focused_match_id || exists|j: int|
                        0 <= j < k + 1 && (#[trigger] cur[j]).match_id == id && (roster_changed(
                            orig,
                            cur[j],
                        ) || has_open_slot(cur[j])),
            ));
        }
        k = k + 1;
    }
    ids
}

/// The drafts on field `field`, in their given order.
pub open spec fn drafts_on_field(ms: Seq<MatchDraftView>, field: int) -> Seq<MatchDraftView> {
    ms.filter(|m: MatchDraftView| m.field as int == field)
}

/// The drafts on fields below `bound`, field by field, keeping the given
/// order within a field.
pub open spec fn drafts_by_field_below(ms: Seq<MatchDraftView>, bound: int) -> Seq<MatchDraftView>
    decreases bound,
{
    if bound <= 0 {
        Seq::empty()
    } else {
        drafts_by_field_below(ms, bound - 1) + drafts_on_field(ms, bound - 1)
    }
}

/// The drafts in field order, stable within a field.
pub open spec fn drafts_sorted_by_field(ms: Seq<MatchDraftView>) -> Seq<MatchDraftView> {
    drafts_by_field_below(ms, 256)
}

/// The drafts of the matches the editor shows, in field order.
pub open spec fn visible_drafts(d: RoundPlayerChangeDraft) -> Seq<MatchDraftView> {
    let ids = visible_ids(
        d.focused_match_id,
        draft_views(d.original_editable_matches@),
        draft_views(d.current_editable_matches@),
    );
    drafts_sorted_by_field(
        draft_views(d.current_editable_matches@).filter(|m: MatchDraftView| ids.contains(m.match_id)),
    )
}

/// `card` shows match draft `m`.
pub open spec fn card_shows_draft(
    card: VisibleMatchCardViewModel,
    selected: Option<EditablePlayerSlot>,
    m: MatchDraftView,
    names: Map<PlayerId, String>,
) -> bool {
    &&& card.field == m.field
    &&& card.status == m.status
    &&& slot_models_show(card.team_a_slots@, selected, m, EditableTeamSide::TeamA, names)
    &&& slot_models_show(card.team_b_slots@, selected, m, EditableTeamSide::TeamB, names)
}

/// The match cards of the editor: the visible matches in field order with
/// the slot buttons of both teams.
pub fn build_visible_match_cards(
    draft: &RoundPlayerChangeDraft,
    player_names: &HashMap<PlayerId, String>,
) -> (r: Vec<VisibleMatchCardViewModel>)
    ensures
        r@.len() == visible_drafts(*draft).len(),
        forall|i: int|
            0 <= i < r@.len() ==> card_shows_draft(
                #[trigger] r@[i],
                draft.selected_slot,
                visible_drafts(*draft)[i],
                player_names@,
            ),
{
    let ids = visible_match_ids(draft);
    let ms = &draft.current_editable_matches;
    let ghost cur = draft_views(ms@);
    let ghost pred = |m: MatchDraftView| ids@.contains(m.match_id);
    let ghost vis = cur.filter(pred);
    let mut cards: Vec<VisibleMatchCardViewModel> = Vec::new();
    let ghost mut placed: Seq<MatchDraftView> = Seq::empty();
    let mut field: u16 = 0;
    while field < 256
        invariant
            field <= 256,
            ms == &draft.current_editable_matches,
            cur == draft_views(ms@),
            pred == (|m: MatchDraftView| ids@.contains(m.match_id)),
            vis == cur.filter(pred),
            placed == drafts_by_field_below(vis, field as int),
            cards@.len() == placed.len(),
            forall|k: int|
                0 <= k < cards@.len() ==> card_shows_draft(
                    #[trigger] cards@[k],
                    draft.selected_slot,
                    placed[k],
                    player_names@,
                ),
        decreases 256 - field,
    {
        let ghost base = placed;
        let mut j: usize = 0;
        while j < ms.len()
            invariant
                field < 256,
                j <= ms.len(),
                ms == &draft.current_editable_matches,
                cur == draft_views(ms@),
                pred == (|m: MatchDraftView| ids@.contains(m.match_id)),
                vis == cur.filter(pred),
                base == drafts_by_field_below(vis, field as int),
                placed == base + drafts_on_field(cur.take(j as int).filter(pred), field as int),
                cards@.len() == placed.len(),
                forall|k: int|
                    0 <= k < cards@.len() ==> card_shows_draft(
                        #[trigger] cards@[k],
                        draft.selected_slot,
                        placed[k],
                        player_names@,
                    ),
            decreases ms.len() - j,
        {
            let m = &ms[j];
            proof {
                assert(cur[j as int] == m@);
                assert(cur.take(j as int + 1) == cur.take(j as int).push(cur[j as int]));
                lemma_filter_push(cur.take(j as int), pred, cur[j as int]);
                lemma_filter_push(
                    cur.take(j as int).filter(pred),
                    |x: MatchDraftView| x.field as int == field as int,
                    cur[j as int],
                );
            }
            if m.field as u16 == field && ids.contains(&m.match_id) {
                let team_a_slots = build_slot_view_models(draft, m, EditableTeamSide::TeamA, player_names);
                let team_b_slots = build_slot_view_models(draft, m, EditableTeamSide::TeamB, player_names);
                let ghost prev = cards@;
                cards.push(
                    VisibleMatchCardViewModel {
                        field: m.field,
                        status: m.status,
                        team_a_slots,
                        team_b_slots,
                    },
                );
                proof {
                    placed = placed.push(m@);
                    assert forall|k: int| 0 <= k < cards@.len() implies card_shows_draft(
                        #[trigger] cards@[k],
                        draft.selected_slot,
                        placed[k],
                        player_names@,
                    ) by {
                        if k < prev.len() {
                            assert(cards@[k] == prev[k]);
                        }
                    }
                }
            }
            j = j + 1;
        }
        proof {
            assert(cur.take(ms.len() as int) == cur);
        }
        field = field + 1;
    }
    proof {
        assert(vis == cur.filter(|m: MatchDraftView| visible_ids(
            draft.focused_match_id,
            draft_views(draft.original_editable_matches@),
            draft_views(draft.current_editable_matches@),
        ).contains(m.match_id)));
    }
    cards
}

/// The hint above the player picker: which field's slot is selected and
/// who sits in it; a prompt to select a slot when none is selected or its
/// match is gone.
pub open spec fn selected_slot_label(d: RoundPlayerChangeDraft, names: Map<PlayerId, String>) -> Seq<
    char,
> {
    let prompt = "Select the player slot you want to edit."@;
    match d.selected_slot {
        None => prompt,
        Some(slot) => match match_index(draft_views(d.current_editable_matches@), slot.match_id) {
            None => prompt,
            Some(k) => {
                let m = draft_views(d.current_editable_matches@)[k];
                "Field "@ + decimal(m.field as nat) + " is selected. The current slot contains "@
                    + slot_label_or(
                    names,
                    slot_value(m, slot.team_side, slot.slot_index as int),
                    "open slot"@,
                ) + "."@
            },
        },
    }
}

/// The hint above the player picker.
pub fn build_selected_slot_label(
    draft: &RoundPlayerChangeDraft,
    player_names: &HashMap<PlayerId, String>,
) -> (r: String)
    ensures
        r@ == selected_slot_label(*draft, player_names@),
{
    let selected_slot = match draft.selected_slot {
        Some(slot) => slot,
        None => return string_from_chars(
            chars_of("Select the player slot you want to edit.").as_slice(),
        ),
    };
    proof {
        lemma_match_index(draft_views(draft.current_editable_matches@), selected_slot.match_id);
    }
    let k = match match_index_exec(&draft.current_editable_matches, selected_slot.match_id) {
        Some(k) => k,
        None => return string_from_chars(
            chars_of("Select the player slot you want to edit.").as_slice(),
        ),
    };
    let selected_match = &draft.current_editable_matches[k];
    proof {
        assert(draft_views(draft.current_editable_matches@)[k as int] == selected_match@);
    }
    let player = slot_player_id(selected_match, selected_slot.team_side, selected_slot.slot_index);
    let name = name_or(player_names, player, "open slot");
    let mut text = chars_of("Field ");
    push_decimal(&mut text, selected_match.field as u64);
    push_all(&mut text, chars_of(" is selected. The current slot contains ").as_slice());
    push_all(&mut text, chars_of(name.as_str()).as_slice());
    push_all(&mut text, chars_of(".").as_slice());
    string_from_chars(text.as_slice())
}

/// All slots of a match draft, team A first.
pub open spec fn all_slots(m: MatchDraftView) -> Seq<Option<PlayerId>> {
    m.team_a + m.team_b
}

/// The summary of a changed match: its new line-up when every slot is
/// filled, otherwise how many players it still needs.
pub open spec fn affected_summary(m: MatchDraftView, names: Map<PlayerId, String>) -> Seq<char> {
    let open = count_empty(all_slots(m));
    if open == 0 {
        "Field "@ + decimal(m.field as nat) + " will become "@ + join(
            all_slots(m).map_values(|v: Option<PlayerId>| slot_label(names, v)),
            ", "@,
        ) + "."@
    } else {
        "Field "@ + decimal(m.field as nat) + " now needs "@ + decimal(open) + " more player"@ + (
        if open == 1 {
            ""@
        } else {
            "s"@
        }) + "."@
    }
}

/// The summaries of the matches whose rosters changed, in draft order.
pub open spec fn affected_summaries(d: RoundPlayerChangeDraft, names: Map<PlayerId, String>) -> Seq<
    Seq<char>,
> {
    let orig = draft_views(d.original_editable_matches@);
    draft_views(d.current_editable_matches@).filter(
        |m: MatchDraftView| roster_changed(orig, m),
    ).map_values(|m: MatchDraftView| affected_summary(m, names))
}

fn concat_slots(a: &Vec<Option<PlayerId>>, b: &Vec<Option<PlayerId>>) -> (r: Vec<Option<PlayerId>>)
    ensures
        r@ == a@ + b@,
{
    let mut r = copy_slots(a);
    let mut i: usize = 0;
    while i < b.len()
        invariant
            i <= b.len(),
            r@ == a@ + b@.take(i as int),
        decreases b.len() - i,
    {
        r.push(b[i]);
        proof {
            assert(a@ + b@.take(i as int + 1) == (a@ + b@.take(i as int)).push(b@[i as int]));
        }
        i = i + 1;
    }
    proof {
        assert(b@.take(b.len() as int) == b@);
    }
    r
}

fn affected_summary_exec(m: &EditableRoundMatchDraft, names: &HashMap<PlayerId, String>) -> (r: String)
    ensures
        r@ == affected_summary(m@, names@),
{
    let slots = concat_slots(&m.team_a, &m.team_b);
    let open = count_empty_exec(&slots);
    let mut text = chars_of("Field ");
    push_decimal(&mut text, m.field as u64);
    if open == 0 {
        let mut labels: Vec<Vec<char>> = Vec::new();
        let mut i: usize = 0;
        while i < slots.len()
            invariant
                i <= slots.len(),
                char_views(labels@) == slots@.take(i as int).map_values(
                    |v: Option<PlayerId>| slot_label(names@, v),
                ),
            decreases slots.len() - i,
        {
            let label = name_or(names, slots[i], "Open slot");
            let ghost prev = labels@;
            labels.push(chars_of(label.as_str()));
            proof {
                assert(labels@.drop_last() == prev);
                assert(char_views(labels@) =~= char_views(prev).push(label@));
                assert(slots@.take(i as int + 1).map_values(|v: Option<PlayerId>| slot_label(names@, v))
                    =~= slots@.take(i as int).map_values(
                    |v: Option<PlayerId>| slot_label(names@, v),
                ).push(slot_label(names@, slots@[i as int])));
            }
            i = i + 1;
        }
        proof {
            assert(slots@.take(slots.len() as int) == slots@);
        }
        push_all(&mut text, chars_of(" will become ").as_slice());
        let joined = join_chars(&labels, chars_of(", ").as_slice());
        push_all(&mut text, joined.as_slice());
        push_all(&mut text, chars_of(".").as_slice());
    } else {
        push_all(&mut text, chars_of(" now needs ").as_slice());
        push_decimal(&mut text, open as u64);
        push_all(&mut text, chars_of(" more player").as_slice());
        if open == 1 {
            push_all(&mut text, chars_of("").as_slice());
        } else {
            push_all(&mut text, chars_of("s").as_slice());
        }
        push_all(&mut text, chars_of(".").as_slice());
    }
    string_from_chars(text.as_slice())
}

/// One sentence for each match whose rosters changed: its new line-up, or
/// how many players it still needs.
pub fn build_affected_match_summaries(
    draft: &RoundPlayerChangeDraft,
    player_names: &HashMap<PlayerId, String>,
) -> (r: Vec<String>)
    ensures
        views(r@) == affected_summaries(*draft, player_names@),
{
    let ms = &draft.current_editable_matches;
    let ghost orig = draft_views(draft.original_editable_matches@);
    let ghost cur = draft_views(ms@);
    let ghost pred = |m: MatchDraftView| roster_changed(orig, m);
    let mut r: Vec<String> = Vec::new();
    let mut k: usize = 0;
    while k < ms.len()
        invariant
            k <= ms.len(),
            ms == &draft.current_editable_matches,
            orig == draft_views(draft.original_editable_matches@),
            cur == draft_views(ms@),
            pred == (|m: MatchDraftView| roster_changed(orig, m)),
            views(r@) == cur.take(k as int).filter(pred).map_values(
                |m: MatchDraftView| affected_summary(m, player_names@),
            ),
        decreases ms.len() - k,
    {
        let m = &ms[k];
        proof {
            assert(cur[k as int] == m@);
            assert(cur.take(k as int + 1) == cur.take(k as int).push(cur[k as int]));
            lemma_filter_push(cur.take(k as int), pred, cur[k as int]);
        }
        if roster_changed_exec(&draft.original_editable_matches, m) {
            let summary = affected_summary_exec(m, player_names);
            let ghost prev = r@;
            r.push(summary);
            proof {
                assert(r@.drop_last() == prev);
                assert(views(r@) =~= views(prev).push(summary@));
                assert(cur.take(k as int + 1).filter(pred).map_values(
                    |m: MatchDraftView| affected_summary(m, player_names@),
                ) =~= cur.take(k as int).filter(pred).map_values(
                    |m: MatchDraftView| affected_summary(m, player_names@),
                ).push(affected_summary(m@, player_names@)));
            }
        }
        k = k + 1;
    }
    proof {
        assert(cur.take(ms.len() as int) == cur);
    }
    r
}

// ── Who sits where ──────────────────────────────────────────────────────────

/// `m` with each of `ids` mapped to `v`, later ids last.
pub open spec fn insert_ids<V>(m: Map<PlayerId, V>, ids: Seq<PlayerId>, v: V) -> Map<PlayerId, V>
    decreases ids.len(),
{
    if ids.len() == 0 {
        m
    } else {
        insert_ids(m, ids.drop_last(), v).insert(ids.last(), v)
    }
}

/// A match that locks its players: completed, and in `round` when a round
/// is given.
pub open spec fn locks_players(m: ScheduledMatch, round: Option<RoundNumber>) -> bool {
    &&& m.status == MatchStatus::Completed
    &&& match round {
        Some(r) => m.round == r,
        None => true,
    }
}

/// For each player of a locking match, the field and status of the last
/// such match (in the given order) that they play in.
pub open spec fn locked_assignments(
    ms: Seq<ScheduledMatch>,
    round: Option<RoundNumber>,
) -> Map<PlayerId, LockedRoundAssignment>
    decreases ms.len(),
{
    if ms.len() == 0 {
        Map::empty()
    } else {
        let base = locked_assignments(ms.drop_last(), round);
        let m = ms.last();
        if locks_players(m, round) {
            let v = LockedRoundAssignment { field: m.field, status: m.status };
            insert_ids(insert_ids(base, m.team_a@, v), m.team_b@, v)
        } else {
            base
        }
    }
}

fn insert_ids_exec(
    map: &mut HashMap<PlayerId, LockedRoundAssignment>,
    ids: &Vec<PlayerId>,
    v: LockedRoundAssignment,
)
    ensures
        final(map)@ == insert_ids(old(map)@, ids@, v),
{
    let ghost start = map@;
    let mut i: usize = 0;
    while i < ids.len()
        invariant
            i <= ids.len(),
            map@ == insert_ids(start, ids@.take(i as int), v),
        decreases ids.len() - i,
    {
        map.insert(ids[i], v);
        proof {
            assert(ids@.take(i as int + 1).drop_last() == ids@.take(i as int));
            assert(ids@.take(i as int + 1).last() == ids@[i as int]);
        }
        i = i + 1;
    }
    proof {
        assert(ids@.take(ids.len() as int) == ids@);
    }
}

/// The players who sit in completed matches (of `round`, when given), with
/// the field and status of that match.
pub fn collect_locked_assignments_by_player(
    matches_by_id: &[ScheduledMatch],
    round: Option<RoundNumber>,
) -> (r: HashMap<PlayerId, LockedRoundAssignment>)
    ensures
        r@ == locked_assignments(matches_by_id@, round),
{
    let mut assignments: HashMap<PlayerId, LockedRoundAssignment> = HashMap::new();
    let mut k: usize = 0;
    while k < matches_by_id.len()
        invariant
            k <= matches_by_id.len(),
            assignments@ == locked_assignments(matches_by_id@.take(k as int), round),
        decreases matches_by_id.len() - k,
    {
        let m = &matches_by_id[k];
        proof {
            assert(matches_by_id@.take(k as int + 1).drop_last() == matches_by_id@.take(k as int));
            assert(matches_by_id@.take(k as int + 1).last() == matches_by_id@[k as int]);
        }
        let in_round = match round {
            Some(r) => m.round == r,
            None => true,
        };
        if m.status == MatchStatus::Completed && in_round {
            let v = LockedRoundAssignment { field: m.field, status: m.status };
            insert_ids_exec(&mut assignments, &m.team_a, v);
            insert_ids_exec(&mut assignments, &m.team_b, v);
        }
        k = k + 1;
    }
    proof {
        assert(matches_by_id@.take(matches_by_id.len() as int) == matches_by_id@);
    }
    assignments
}

/// `m` with each player in `slots` mapped to `v`, later slots last.
pub open spec fn insert_slot_players<V>(
    m: Map<PlayerId, V>,
    slots: Seq<Option<PlayerId>>,
    v: V,
) -> Map<PlayerId, V>
    decreases slots.len(),
{
    if slots.len() == 0 {
        m
    } else {
        let base = insert_slot_players(m, slots.drop_last(), v);
        match slots.last() {
            Some(p) => base.insert(p, v),
            None => base,
        }
    }
}

/// For each player in the drafts, the last match draft (in order) that
/// holds them.
pub open spec fn editable_assignments(ms: Seq<MatchDraftView>) -> Map<PlayerId, MatchDraftView>
    decreases ms.len(),
{
    if ms.len() == 0 {
        Map::empty()
    } else {
        let m = ms.last();
        insert_slot_players(
            insert_slot_players(editable_assignments(ms.drop_last()), m.team_a, m),
            m.team_b,
            m,
        )
    }
}

/// The map's values as draft views.
pub open spec fn assignment_views(
    m: Map<PlayerId, EditableRoundMatchDraft>,
) -> Map<PlayerId, MatchDraftView> {
    m.map_values(|d: EditableRoundMatchDraft| d@)
}

fn insert_slot_players_exec(
    map: &mut HashMap<PlayerId, EditableRoundMatchDraft>,
    slots: &Vec<Option<PlayerId>>,
    m: &EditableRoundMatchDraft,
)
    ensures
        assignment_views(final(map)@) == insert_slot_players(assignment_views(old(map)@), slots@, m@),
{
    let ghost start = assignment_views(map@);
    let mut i: usize = 0;
    while i < slots.len()
        invariant
            i <= slots.len(),
            assignment_views(map@) == insert_slot_players(start, slots@.take(i as int), m@),
        decreases slots.len() - i,
    {
        proof {
            assert(slots@.take(i as int + 1).drop_last() == slots@.take(i as int));
            assert(slots@.take(i as int + 1).last() == slots@[i as int]);
        }
        match slots[i] {
            Some(p) => {
                let ghost before = map@;
                map.insert(p, copy_match_draft(m));
                proof {
                    assert(assignment_views(map@) =~= assignment_views(before).insert(p, m@));
                }
            },
            None => {},
        }
        i = i + 1;
    }
    proof {
        assert(slots@.take(slots.len() as int) == slots@);
    }
}

/// For each player in the draft's current rosters, the match draft that
/// holds them (the last one, should a player sit twice).
pub fn collect_editable_assignments_by_player(draft: &RoundPlayerChangeDraft) -> (r: HashMap<
    PlayerId,
    EditableRoundMatchDraft,
>)
    ensures
        assignment_views(r@) == editable_assignments(draft_views(draft.current_editable_matches@)),
{
    let ms = &draft.current_editable_matches;
    let ghost cur = draft_views(ms@);
    let mut assignments: HashMap<PlayerId, EditableRoundMatchDraft> = HashMap::new();
    proof {
        assert(assignment_views(assignments@) =~= Map::<PlayerId, MatchDraftView>::empty());
    }
    let mut k: usize = 0;
    while k < ms.len()
        invariant
            k <= ms.len(),
            ms == &draft.current_editable_matches,
            cur == draft_views(ms@),
            assignment_views(assignments@) == editable_assignments(cur.take(k as int)),
        decreases ms.len() - k,
    {
        let m = &ms[k];
        proof {
            assert(cur.take(k as int + 1).drop_last() == cur.take(k as int));
            assert(cur.take(k as int + 1).last() == m@);
        }
        insert_slot_players_exec(&mut assignments, &m.team_a, m);
        insert_slot_players_exec(&mut assignments, &m.team_b, m);
        k = k + 1;
    }
    proof {
        assert(cur.take(ms.len() as int) == cur);
    }
    assignments
}

// ── Player picker ───────────────────────────────────────────────────────────

/// One entry of the player picker.
#[derive(Debug)]
pub struct PlayerPickerOption {
    pub player_id: PlayerId,
    pub label: String,
    pub disabled: bool,
}

/// An option as values: player, label and whether it is disabled.
pub open spec fn option_view(o: PlayerPickerOption) -> (PlayerId, Seq<char>, bool) {
    (o.player_id, o.label@, o.disabled)
}

/// Some option of `options` shows entry `e`.
pub open spec fn lists_entry(options: Seq<PlayerPickerOption>, e: (PlayerId, Seq<char>, bool)) -> bool {
    exists|i: int| 0 <= i < options.len() && option_view(options[i]) == e
}

/// The parenthesised word for a match status.
pub open spec fn status_word(status: MatchStatus) -> Seq<char> {
    match status {
        MatchStatus::Completed => "(done)"@,
        MatchStatus::InProgress => "(in progress)"@,
        MatchStatus::Scheduled => "(scheduled)"@,
        MatchStatus::Voided => "(voided)"@,
    }
}

/// Where the picker says a player is: locked in a completed match, on a
/// field of the draft, or on the bench.
pub open spec fn assignment_label(
    locks: Map<PlayerId, LockedRoundAssignment>,
    current: Map<PlayerId, MatchDraftView>,
    p: PlayerId,
) -> Seq<char> {
    if locks.contains_key(p) {
        "Field "@ + decimal(locks[p].field as nat) + " "@ + status_word(locks[p].status)
    } else if current.contains_key(p) {
        "Field "@ + decimal(current[p].field as nat)
    } else {
        "bench"@
    }
}

/// The picker entry of player `p`: `<name> (<where>)`, disabled when the
/// player is locked.
pub open spec fn picker_entry(
    names: Map<PlayerId, String>,
    locks: Map<PlayerId, LockedRoundAssignment>,
    current: Map<PlayerId, MatchDraftView>,
    p: PlayerId,
) -> (PlayerId, Seq<char>, bool) {
    (
        p,
        display_name(names, p) + " ("@ + assignment_label(locks, current, p) + ")"@,
        locks.contains_key(p),
    )
}

/// The picker entries of the active players, in roster order.
pub open spec fn picker_entries(
    players: Seq<Player>,
    matches: Seq<ScheduledMatch>,
    d: RoundPlayerChangeDraft,
    names: Map<PlayerId, String>,
) -> Seq<(PlayerId, Seq<char>, bool)> {
    let locks = locked_assignments(matches, Some(d.round));
    let current = editable_assignments(draft_views(d.current_editable_matches@));
    players.filter(|p: Player| p.status == PlayerStatus::Active).map_values(
        |p: Player| picker_entry(names, locks, current, p.id),
    )
}

fn status_word_exec(status: MatchStatus) -> (r: Vec<char>)
    ensures
        r@ == status_word(status),
{
    match status {
        MatchStatus::Completed => chars_of("(done)"),
        MatchStatus::InProgress => chars_of("(in progress)"),
        MatchStatus::Scheduled => chars_of("(scheduled)"),
        MatchStatus::Voided => chars_of("(voided)"),
    }
}

fn display_name_exec(names: &HashMap<PlayerId, String>, p: PlayerId) -> (r: Vec<char>)
    ensures
        r@ == display_name(names@, p),
{
    match names.get(&p) {
        Some(name) => chars_of(name.as_str()),
        None => {
            let mut fallback = chars_of("#");
            push_decimal(&mut fallback, p as u64);
            fallback
        },
    }
}

/// The player picker: one entry per active player, labelled with the
/// player's name and where they sit (a completed match, which disables the
/// entry; a field of the draft; or the bench), ordered by label ignoring
/// ASCII case.
pub fn build_player_picker_options(
    players: &[Player],
    matches: &[ScheduledMatch],
    draft: &RoundPlayerChangeDraft,
    player_names: &HashMap<PlayerId, String>,
) -> (r: Vec<PlayerPickerOption>)
    ensures
        r@.len() == picker_entries(players@, matches@, *draft, player_names@).len(),
        forall|i: int|
            0 <= i < r@.len() ==> picker_entries(players@, matches@, *draft, player_names@).contains(
                option_view(#[trigger] r@[i]),
            ),
        forall|j: int|
            0 <= j < r@.len() ==> lists_entry(
                r@,
                #[trigger] picker_entries(players@, matches@, *draft, player_names@)[j],
            ),
        forall|i: int, j: int|
            0 <= i < j < r@.len() ==> lex_le(
                ascii_lower((#[trigger] r@[i]).label@),
                ascii_lower((#[trigger] r@[j]).label@),
            ),
{
    let current_assignments = collect_editable_assignments_by_player(draft);
    let locked_assignments = collect_locked_assignments_by_player(matches, Some(draft.round));
    let ghost expected = picker_entries(players@, matches@, *draft, player_names@);
    let ghost pred = |p: Player| p.status == PlayerStatus::Active;
    let ghost entry = |p: Player|
        picker_entry(
            player_names@,
            locked_assignments@,
            assignment_views(current_assignments@),
            p.id,
        );
    let mut options: Vec<PlayerPickerOption> = Vec::new();
    let mut keys: Vec<Vec<char>> = Vec::new();
    let mut i: usize = 0;
    while i < players.len()
        invariant
            i <= players.len(),
            pred == (|p: Player| p.status == PlayerStatus::Active),
            entry == (|p: Player|
                picker_entry(
                    player_names@,
                    locked_assignments@,
                    assignment_views(current_assignments@),
                    p.id,
                )),
            options.len() == keys.len(),
            options@.map_values(|o: PlayerPickerOption| option_view(o)) == players@.take(
                i as int,
            ).filter(pred).map_values(entry),
            forall|k: int| 0 <= k < keys.len() ==> (#[trigger] keys@[k])@ == ascii_lower(options@[k].label@),
        decreases players.len() - i,
    {
        let player = &players[i];
        proof {
            assert(players@.take(i as int + 1) == players@.take(i as int).push(players@[i as int]));
            lemma_filter_push(players@.take(i as int), pred, players@[i as int]);
        }
        if player.status == PlayerStatus::Active {
            let mut label = display_name_exec(player_names, player.id);
            push_all(&mut label, chars_of(" (").as_slice());
            let locked = locked_assignments.get(&player.id);
            match locked {
                Some(lock) => {
                    push_all(&mut label, chars_of("Field ").as_slice());
                    push_decimal(&mut label, lock.field as u64);
                    push_all(&mut label, chars_of(" ").as_slice());
                    push_all(&mut label, status_word_exec(lock.status).as_slice());
                },
                None => match current_assignments.get(&player.id) {
                    Some(m) => {
                        push_all(&mut label, chars_of("Field ").as_slice());
                        push_decimal(&mut label, m.field as u64);
                    },
                    None => {
                        push_all(&mut label, chars_of("bench").as_slice());
                    },
                },
            }
            push_all(&mut label, chars_of(")").as_slice());
            let key = lower_chars(label.as_slice());
            let option = PlayerPickerOption {
                player_id: player.id,
                label: string_from_chars(label.as_slice()),
                disabled: locked.is_some(),
            };
            let ghost prev = options@;
            options.push(option);
            keys.push(key);
            proof {
                assert(options@.drop_last() == prev);
                assert(option_view(options@.last()) == entry(players@[i as int]));
                assert(options@.map_values(|o: PlayerPickerOption| option_view(o)) =~= prev.map_values(
                    |o: PlayerPickerOption| option_view(o),
                ).push(option_view(options@.last())));
            }
        }
        i = i + 1;
    }
    proof {
        assert(players@.take(players.len() as int) == players@);
        assert(expected == players@.filter(pred).map_values(entry));
    }
    let ghost built = options@;
    let ghost key_of = |o: PlayerPickerOption| ascii_lower(o.label@);
    let r = sort_by_keys(options, keys, Ghost(key_of));
    proof {
        broadcast use vstd::seq_lib::group_to_multiset_ensures;

        assert(r@.len() == built.len()) by {
            vstd::seq_lib::to_multiset_len(r@);
            vstd::seq_lib::to_multiset_len(built);
        }
        assert forall|i: int| 0 <= i < r@.len() implies expected.contains(
            option_view(#[trigger] r@[i]),
        ) by {
            assert(r@.contains(r@[i]));
            assert(r@.to_multiset().count(r@[i]) > 0);
            assert(built.contains(r@[i]));
            let j = choose|j: int| 0 <= j < built.len() && built[j] == r@[i];
            assert(built.map_values(|o: PlayerPickerOption| option_view(o))[j] == option_view(built[j]));
            assert(expected[j] == option_view(r@[i]));
        }
        assert forall|j: int| 0 <= j < r@.len() implies lists_entry(r@, #[trigger] expected[j]) by {
            assert(built.contains(built[j]));
            assert(built.to_multiset().count(built[j]) > 0);
            assert(r@.contains(built[j]));
            let i = choose|i: int| 0 <= i < r@.len() && r@[i] == built[j];
            assert(built.map_values(|o: PlayerPickerOption| option_view(o))[j] == option_view(built[j]));
            assert(option_view(r@[i]) == expected[j]);
        }
        assert forall|a: int, b: int| 0 <= a < b < r@.len() implies lex_le(
            ascii_lower((#[trigger] r@[a]).label@),
            ascii_lower((#[trigger] r@[b]).label@),
        ) by {
            assert(key_of(r@[a]) == ascii_lower(r@[a].label@));
            assert(key_of(r@[b]) == ascii_lower(r@[b].label@));
        }
    }
    r
}

} // verus!

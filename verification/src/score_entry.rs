//! Numbers typed or stored as text on the score entry and player screens:
//! points fields, and the player a follower picked for a share link.
use vstd::prelude::*;

use crate::models::{ParticipationStatus, PlayerId};
use crate::text::{chars_of, decimal, digit_char, push_all, push_decimal, string_from_chars, trim,
    trim_chars};

verus! {

/// An ASCII decimal digit.
pub open spec fn is_digit(c: char) -> bool {
    '0' <= c <= '9'
}

/// Every character is a decimal digit.
pub open spec fn all_digits(s: Seq<char>) -> bool {
    forall|i: int| 0 <= i < s.len() ==> is_digit(#[trigger] s[i])
}

/// The number a string of decimal digits spells.
pub open spec fn digits_value(s: Seq<char>) -> nat
    decreases s.len(),
{
    if s.len() == 0 {
        0
    } else {
        digits_value(s.drop_last()) * 10 + (s.last() as nat - '0' as nat) as nat
    }
}

/// What std's unsigned integer parsing (`str::parse`) gives for `s` with
/// largest value `max`: an optional `+`, then one or more decimal digits
/// whose value is at most `max`; anything else is an error (`None`).
pub open spec fn parsed_unsigned(s: Seq<char>, max: nat) -> Option<nat> {
    let digits = if s.len() > 0 && s[0] == '+' {
        s.drop_first()
    } else {
        s
    };
    if digits.len() > 0 && all_digits(digits) && digits_value(digits) <= max {
        Some(digits_value(digits))
    } else {
        None
    }
}

proof fn lemma_digits_value_monotone(s: Seq<char>, i: int)
    requires
        all_digits(s),
        0 <= i <= s.len(),
    ensures
        digits_value(s.take(i)) <= digits_value(s),
    decreases s.len() - i,
{
    if i < s.len() {
        lemma_digits_value_monotone(s, i + 1);
        assert(s.take(i + 1).drop_last() == s.take(i));
        assert(is_digit(s[i]));
    } else {
        assert(s.take(i) == s);
    }
}

/// Parses `s` as an unsigned number no larger than `max`.
pub(crate) fn parse_unsigned(s: &[char], max: u64) -> (r: Option<u64>)
    requires
        max >= 9,
    ensures
        match parsed_unsigned(s@, max as nat) {
            Some(n) => r == Some(n as u64),
            None => r is None,
        },
{
    let start: usize = if s.len() > 0 && s[0] == '+' { 1 } else { 0 };
    let ghost digits = if s@.len() > 0 && s@[0] == '+' { s@.drop_first() } else { s@ };
    proof {
        assert(digits == s@.skip(start as int));
    }
    if start >= s.len() {
        return None;
    }
    let mut value: u64 = 0;
    let mut i: usize = start;
    while i < s.len()
        invariant
            start <= i <= s.len(),
            start <= 1,
            max >= 9,
            digits == if s@.len() > 0 && s@[0] == '+' {
                s@.drop_first()
            } else {
                s@
            },
            digits == s@.skip(start as int),
            digits.len() > 0,
            digits.take(i - start) == s@.subrange(start as int, i as int),
            all_digits(digits.take(i - start)),
            value == digits_value(digits.take(i - start)),
            value <= max,
        decreases s.len() - i,
    {
        let c = s[i];
        proof {
            assert(digits[i - start] == c);
        }
        if !('0' <= c && c <= '9') {
            return None;
        }
        let d = (c as u32 - '0' as u32) as u64;
        proof {
            assert(digits.take(i - start + 1).drop_last() == digits.take(i - start));
            assert(digits.take(i - start + 1).last() == c);
            assert(digits_value(digits.take(i - start + 1)) == value * 10 + d);
            assert(all_digits(digits.take(i - start + 1)));
        }
        if value > (max - d) / 10 {
            proof {
                assert(value * 10 + d > max) by (nonlinear_arith)
                    requires
                        value > (max - d) / 10,
                        d <= 9,
                        d <= max,
                ;
                if all_digits(digits) {
                    lemma_digits_value_monotone(digits, i - start + 1);
                }
            }
            return None;
        }
        proof {
            assert(value * 10 + d <= max) by (nonlinear_arith)
                requires
                    value <= (max - d) / 10,
                    d <= 9,
                    d <= max,
            ;
        }
        value = value * 10 + d;
        i = i + 1;
        proof {
            assert(digits.take(i - start) == s@.subrange(start as int, i as int));
        }
    }
    proof {
        assert(digits.take(i - start) == digits);
    }
    Some(value)
}

/// A points field's value: the trimmed text parsed as a `u16`, 0 when it is
/// not one.
pub fn parse_non_negative_u16(raw: &str) -> (r: u16)
    ensures
        r == match parsed_unsigned(trim(raw@), u16::MAX as nat) {
            Some(n) => n,
            None => 0,
        },
{
    let trimmed = trim_chars(chars_of(raw).as_slice());
    match parse_unsigned(trimmed.as_slice(), 65535) {
        Some(n) => n as u16,
        None => 0,
    }
}

// ── The player a follower picked ────────────────────────────────────────────

/// The local-storage key of the player picked for a share link.
pub fn player_selection_key(token: &str) -> (r: String)
    ensures
        r@ == "pcpp_player_"@ + token@,
{
    let mut out = chars_of("pcpp_player_");
    push_all(&mut out, chars_of(token).as_slice());
    string_from_chars(out.as_slice())
}

/// The stored form of a picked player: its id in decimal.
pub fn player_selection_value(id: PlayerId) -> (r: String)
    ensures
        r@ == decimal(id as nat),
{
    let mut out: Vec<char> = Vec::new();
    push_decimal(&mut out, id as u64);
    proof {
        assert(Seq::<char>::empty() + decimal(id as nat) == decimal(id as nat));
    }
    string_from_chars(out.as_slice())
}

/// The picked player a stored value names: the value parsed as a `u32`.
pub fn parse_player_selection(raw: &str) -> (r: Option<PlayerId>)
    ensures
        r == match parsed_unsigned(raw@, u32::MAX as nat) {
            Some(n) => Some(n as u32),
            None => None,
        },
{
    match parse_unsigned(chars_of(raw).as_slice(), 4294967295) {
        Some(n) => Some(n as u32),
        None => None,
    }
}

proof fn lemma_digit_char_value(d: nat)
    requires
        d < 10,
    ensures
        is_digit(digit_char(d)),
        digit_char(d) as nat - '0' as nat == d,
{
}

proof fn lemma_decimal_digits(n: nat)
    ensures
        decimal(n).len() > 0,
        all_digits(decimal(n)),
        decimal(n)[0] != '+',
        digits_value(decimal(n)) == n,
    decreases n,
{
    lemma_digit_char_value(n % 10);
    if n >= 10 {
        lemma_decimal_digits(n / 10);
        let d = decimal(n / 10);
        assert(decimal(n) == d.push(digit_char(n % 10)));
        assert(decimal(n).drop_last() == d);
        assert(decimal(n)[0] == d[0]);
        assert(decimal(n).last() == digit_char(n % 10));
        assert(digits_value(decimal(n)) == digits_value(d) * 10 + (n % 10));
        assert((n / 10) * 10 + n % 10 == n);
    } else {
        assert(decimal(n) == seq![digit_char(n)]);
        assert(decimal(n).drop_last() =~= Seq::<char>::empty());
        assert(decimal(n).last() == digit_char(n));
        assert(digits_value(Seq::<char>::empty()) == 0);
        assert(digits_value(decimal(n)) == digits_value(decimal(n).drop_last()) * 10 + (
        digit_char(n) as nat - '0' as nat) as nat);
    }
}

/// A picked player reads back as the player that was stored.
pub proof fn lemma_player_selection_round_trip(id: PlayerId)
    ensures
        parsed_unsigned(decimal(id as nat), u32::MAX as nat) == Some(id as nat),
{
    lemma_decimal_digits(id as nat);
}

// ── Who played ──────────────────────────────────────────────────────────────

/// Whether a player is marked as having played, while a result is edited.
#[derive(Debug, Clone, Copy, PartialEq, Eq, Structural)]
pub enum PlayerAvailabilityDraft {
    Played,
    DidNotPlay,
}

impl PlayerAvailabilityDraft {
    /// The mark for a player from the saved result: played only when the
    /// result says so; no result means not played.
    pub fn from_result(status: Option<ParticipationStatus>) -> (r: Self)
        ensures
            r == if status == Some(ParticipationStatus::Played) {
                PlayerAvailabilityDraft::Played
            } else {
                PlayerAvailabilityDraft::DidNotPlay
            },
    {
        match status {
            Some(ParticipationStatus::Played) => PlayerAvailabilityDraft::Played,
            _ => PlayerAvailabilityDraft::DidNotPlay,
        }
    }

    /// The participation status saved for the mark.
    pub fn as_participation_status(self) -> (r: ParticipationStatus)
        ensures
            r == match self {
                PlayerAvailabilityDraft::Played => ParticipationStatus::Played,
                PlayerAvailabilityDraft::DidNotPlay => ParticipationStatus::DidNotPlay,
            },
    {
        match self {
            PlayerAvailabilityDraft::Played => ParticipationStatus::Played,
            PlayerAvailabilityDraft::DidNotPlay => ParticipationStatus::DidNotPlay,
        }
    }

    /// Whether the mark is "played".
    pub fn played(self) -> (r: bool)
        ensures
            r == (self == PlayerAvailabilityDraft::Played),
    {
        match self {
            PlayerAvailabilityDraft::Played => true,
            PlayerAvailabilityDraft::DidNotPlay => false,
        }
    }
}

// ── The result built from the card ─────────────────────────────────────────

/// The mark drafted for `id`: its first entry; not played when it has none.
pub open spec fn drafted_availability(
    drafts: Seq<(PlayerId, PlayerAvailabilityDraft)>,
    id: PlayerId,
) -> PlayerAvailabilityDraft
    decreases drafts.len(),
{
    if drafts.len() == 0 {
        PlayerAvailabilityDraft::DidNotPlay
    } else if drafts[0].0 == id {
        drafts[0].1
    } else {
        drafted_availability(drafts.drop_first(), id)
    }
}

/// The points drafted for `id`: its first entry; 0 when it has none.
pub open spec fn drafted_points(points: Seq<(PlayerId, u16)>, id: PlayerId) -> u16
    decreases points.len(),
{
    if points.len() == 0 {
        0
    } else if points[0].0 == id {
        points[0].1
    } else {
        drafted_points(points.drop_first(), id)
    }
}

/// The participation status saved for a mark.
pub open spec fn status_of(mark: PlayerAvailabilityDraft) -> ParticipationStatus {
    match mark {
        PlayerAvailabilityDraft::Played => ParticipationStatus::Played,
        PlayerAvailabilityDraft::DidNotPlay => ParticipationStatus::DidNotPlay,
    }
}

/// Every player of the match with the status of their mark.
pub open spec fn participation_entries(
    ids: Seq<PlayerId>,
    drafts: Seq<(PlayerId, PlayerAvailabilityDraft)>,
) -> Seq<(PlayerId, ParticipationStatus)> {
    ids.map_values(|id: PlayerId| (id, status_of(drafted_availability(drafts, id))))
}

/// The players marked as played, with their drafted points.
pub open spec fn played_points_entries(
    ids: Seq<PlayerId>,
    drafts: Seq<(PlayerId, PlayerAvailabilityDraft)>,
    points: Seq<(PlayerId, u16)>,
) -> Seq<(PlayerId, u16)> {
    ids.filter(|id: PlayerId| drafted_availability(drafts, id) == PlayerAvailabilityDraft::Played).map_values(
        |id: PlayerId| (id, drafted_points(points, id)),
    )
}

fn find_availability(drafts: &[(PlayerId, PlayerAvailabilityDraft)], id: PlayerId) -> (r:
    PlayerAvailabilityDraft)
    ensures
        r == drafted_availability(drafts@, id),
{
    let mut i: usize = 0;
    proof {
        assert(drafts@.skip(0) == drafts@);
    }
    while i < drafts.len()
        invariant
            i <= drafts.len(),
            drafted_availability(drafts@, id) == drafted_availability(drafts@.skip(i as int), id),
        decreases drafts.len() - i,
    {
        proof {
            assert(drafts@.skip(i as int).drop_first() == drafts@.skip(i as int + 1));
            assert(drafts@.skip(i as int)[0] == drafts@[i as int]);
        }
        if drafts[i].0 == id {
            return drafts[i].1;
        }
        i = i + 1;
    }
    PlayerAvailabilityDraft::DidNotPlay
}

fn find_points(points: &[(PlayerId, u16)], id: PlayerId) -> (r: u16)
    ensures
        r == drafted_points(points@, id),
{
    let mut i: usize = 0;
    proof {
        assert(points@.skip(0) == points@);
    }
    while i < points.len()
        invariant
            i <= points.len(),
            drafted_points(points@, id) == drafted_points(points@.skip(i as int), id),
        decreases points.len() - i,
    {
        proof {
            assert(points@.skip(i as int).drop_first() == points@.skip(i as int + 1));
            assert(points@.skip(i as int)[0] == points@[i as int]);
        }
        if points[i].0 == id {
            return points[i].1;
        }
        i = i + 1;
    }
    0
}

/// The participation saved with a result: every player of the match (team A
/// then team B, as `all_ids` lists them) with the status of their mark, and
/// a player without a mark as not played.
pub fn participation_by_player(
    all_ids: &[PlayerId],
    drafts: &[(PlayerId, PlayerAvailabilityDraft)],
) -> (r: Vec<(PlayerId, ParticipationStatus)>)
    ensures
        r@ == participation_entries(all_ids@, drafts@),
{
    let mut r: Vec<(PlayerId, ParticipationStatus)> = Vec::new();
    let mut i: usize = 0;
    while i < all_ids.len()
        invariant
            i <= all_ids.len(),
            r@ == participation_entries(all_ids@.take(i as int), drafts@),
        decreases all_ids.len() - i,
    {
        let id = all_ids[i];
        let mark = find_availability(drafts, id);
        r.push((id, mark.as_participation_status()));
        proof {
            assert(all_ids@.take(i as int + 1) == all_ids@.take(i as int).push(id));
            assert(participation_entries(all_ids@.take(i as int + 1), drafts@) =~= participation_entries(
                all_ids@.take(i as int),
                drafts@,
            ).push((id, status_of(drafted_availability(drafts@, id)))));
        }
        i = i + 1;
    }
    proof {
        assert(all_ids@.take(all_ids.len() as int) == all_ids@);
    }
    r
}

/// The points saved with a points-per-player result: only the players
/// marked as played, each with their drafted points (0 when none were
/// typed), in the order of `all_ids`.
pub fn played_player_points(
    all_ids: &[PlayerId],
    drafts: &[(PlayerId, PlayerAvailabilityDraft)],
    points: &[(PlayerId, u16)],
) -> (r: Vec<(PlayerId, u16)>)
    ensures
        r@ == played_points_entries(all_ids@, drafts@, points@),
{
    let ghost pred = |id: PlayerId| drafted_availability(drafts@, id) == PlayerAvailabilityDraft::Played;
    let mut r: Vec<(PlayerId, u16)> = Vec::new();
    let mut i: usize = 0;
    while i < all_ids.len()
        invariant
            i <= all_ids.len(),
            pred == (|id: PlayerId| drafted_availability(drafts@, id) == PlayerAvailabilityDraft::Played),
            r@ == played_points_entries(all_ids@.take(i as int), drafts@, points@),
        decreases all_ids.len() - i,
    {
        let id = all_ids[i];
        let mark = find_availability(drafts, id);
        proof {
            assert(all_ids@.take(i as int + 1) == all_ids@.take(i as int).push(id));
            crate::text::lemma_filter_push(all_ids@.take(i as int), pred, id);
        }
        if mark.played() {
            let p = find_points(points, id);
            r.push((id, p));
            proof {
                assert(played_points_entries(all_ids@.take(i as int + 1), drafts@, points@)
                    =~= played_points_entries(all_ids@.take(i as int), drafts@, points@).push(
                    (id, drafted_points(points@, id)),
                ));
            }
        } else {
            proof {
                assert(played_points_entries(all_ids@.take(i as int + 1), drafts@, points@)
                    =~= played_points_entries(all_ids@.take(i as int), drafts@, points@));
            }
        }
        i = i + 1;
    }
    proof {
        assert(all_ids@.take(all_ids.len() as int) == all_ids@);
    }
    r
}

} // verus!

//! The new-session form: how many players a team size needs, the player
//! count stepper, the list of player names that follows the count, names
//! loaded from a CSV, and the numbers typed into the form.
use vstd::prelude::*;

use crate::score_entry::{parse_unsigned, parsed_unsigned};
use crate::text::{chars_of, decimal, push_all, push_decimal, string_from_chars, views};

verus! {

/// The stepper never goes above this many players.
pub const MAX_PLAYERS: u32 = 44;

/// A session needs two full matches: four teams of `team_size`.
pub fn minimum_players(team_size: u8) -> (r: u32)
    ensures
        r == team_size * 4,
{
    team_size as u32 * 4
}

/// The player count after "−": one less, but not below the minimum.
pub fn decrement_player_count(current: u32, team_size: u8) -> (r: u32)
    ensures
        r == if current > team_size * 4 {
            current - 1
        } else {
            current as int
        },
{
    if current > minimum_players(team_size) {
        current - 1
    } else {
        current
    }
}

/// The player count after "+": one more, up to [`MAX_PLAYERS`].
pub fn increment_player_count(current: u32) -> (r: u32)
    ensures
        r == if current < MAX_PLAYERS {
            current + 1
        } else {
            current as int
        },
{
    if current < MAX_PLAYERS {
        current + 1
    } else {
        current
    }
}

/// The player count after picking a team size: raised to the minimum when
/// below it.
pub fn player_count_for_team_size(current: u32, team_size: u8) -> (r: u32)
    ensures
        r == if current < team_size * 4 {
            team_size * 4
        } else {
            current as int
        },
{
    let min = minimum_players(team_size);
    if current < min {
        min
    } else {
        current
    }
}

/// How many players sit out when all play in full matches.
pub fn players_benched(player_count: u32, team_size: u8) -> (r: u32)
    requires
        team_size >= 1,
    ensures
        r as int == (player_count as int) % (2 * team_size as int),
{
    player_count % (2 * team_size as u32)
}

/// The line under the stepper: fields in use and players on the bench.
pub open spec fn fields_summary_text(fields: nat, benched: nat) -> Seq<char> {
    let plural = if fields == 1 {
        ""@
    } else {
        "s"@
    };
    if benched == 0 {
        decimal(fields) + " field"@ + plural + " · no bench"@
    } else {
        decimal(fields) + " field"@ + plural + " · "@ + decimal(benched) + " on bench"@
    }
}

/// The line under the stepper.
pub fn fields_summary(fields: usize, benched: u32) -> (r: String)
    ensures
        r@ == fields_summary_text(fields as nat, benched as nat),
{
    let mut out: Vec<char> = Vec::new();
    push_decimal(&mut out, fields as u64);
    push_all(&mut out, chars_of(" field").as_slice());
    if fields != 1 {
        push_all(&mut out, chars_of("s").as_slice());
    } else {
        proof {
            reveal_strlit("");
            assert(out@ + ""@ == out@);
        }
    }
    if benched == 0 {
        push_all(&mut out, chars_of(" · no bench").as_slice());
    } else {
        push_all(&mut out, chars_of(" · ").as_slice());
        push_decimal(&mut out, benched as u64);
        push_all(&mut out, chars_of(" on bench").as_slice());
    }
    proof {
        assert(out@ =~= fields_summary_text(fields as nat, benched as nat));
    }
    string_from_chars(out.as_slice())
}

/// The label of a team size button (`2v2`).
pub fn team_size_label(team_size: u8) -> (r: String)
    ensures
        r@ == decimal(team_size as nat) + "v"@ + decimal(team_size as nat),
{
    let mut out: Vec<char> = Vec::new();
    push_decimal(&mut out, team_size as u64);
    push_all(&mut out, chars_of("v").as_slice());
    push_decimal(&mut out, team_size as u64);
    proof {
        assert(out@ =~= decimal(team_size as nat) + "v"@ + decimal(team_size as nat));
    }
    string_from_chars(out.as_slice())
}

/// The default name of the player in position `i` (from 0): `Player i+1`.
pub open spec fn default_player_name(i: int) -> Seq<char> {
    "Player "@ + decimal((i + 1) as nat)
}

/// The names after the count changes to `count`: the first `count` names
/// kept, new positions named `Player <n>` by their number.
pub open spec fn resized_names(names: Seq<Seq<char>>, count: nat) -> Seq<Seq<char>> {
    Seq::new(count, |i: int| if i < names.len() { names[i] } else { default_player_name(i) })
}

/// Makes the list of names follow the player count.
pub fn resize_player_names(names: &mut Vec<String>, count: usize)
    requires
        count < usize::MAX,
    ensures
        views(final(names)@) == resized_names(views(old(names)@), count as nat),
{
    let ghost before = views(names@);
    if names.len() > count {
        names.truncate(count);
        proof {
            assert(views(names@) =~= resized_names(before, count as nat));
        }
        return;
    }
    while names.len() < count
        invariant
            before.len() <= names@.len() <= count,
            count < usize::MAX,
            views(names@) == resized_names(before, count as nat).take(names@.len() as int),
        decreases count - names.len(),
    {
        let n = names.len();
        let mut name = chars_of("Player ");
        push_decimal(&mut name, (n + 1) as u64);
        names.push(string_from_chars(name.as_slice()));
        proof {
            assert(views(names@) =~= resized_names(before, count as nat).take(names@.len() as int));
        }
    }
    proof {
        assert(resized_names(before, count as nat).take(count as int) =~= resized_names(
            before,
            count as nat,
        ));
    }
}

/// The names after loading `imported` from a CSV: the list grows to the
/// imported names (at least `min` long, blank past the old names), and the
/// imported names fill its first positions.
pub open spec fn names_after_import(current: Seq<Seq<char>>, imported: Seq<Seq<char>>, min: nat) -> Seq<
    Seq<char>,
> {
    let count = if imported.len() > min {
        imported.len()
    } else {
        min
    };
    Seq::new(
        count,
        |i: int|
            if i < imported.len() {
                imported[i]
            } else if i < current.len() {
                current[i]
            } else {
                Seq::empty()
            },
    )
}

/// Loads names imported from a CSV into the list; returns the new count.
pub fn apply_imported_names(names: &mut Vec<String>, imported: &Vec<String>, min: usize) -> (count:
    usize)
    ensures
        count as int == if imported@.len() > min {
            imported@.len() as int
        } else {
            min as int
        },
        views(final(names)@) == names_after_import(views(old(names)@), views(imported@), min as nat),
{
    let count = if imported.len() > min {
        imported.len()
    } else {
        min
    };
    let ghost target = names_after_import(views(names@), views(imported@), min as nat);
    let mut out: Vec<String> = Vec::new();
    let mut i: usize = 0;
    while i < count
        invariant
            i <= count,
            count == target.len(),
            target == names_after_import(views(old(names)@), views(imported@), min as nat),
            *names == *old(names),
            views(out@) == target.take(i as int),
        decreases count - i,
    {
        let name = if i < imported.len() {
            string_from_chars(chars_of(imported[i].as_str()).as_slice())
        } else if i < names.len() {
            string_from_chars(chars_of(names[i].as_str()).as_slice())
        } else {
            String::new()
        };
        proof {
            assert(name@ == target[i as int]);
        }
        let ghost before = out@;
        out.push(name);
        proof {
            assert(views(out@) =~= views(before).push(target[i as int]));
            assert(target.take(i as int + 1) =~= target.take(i as int).push(target[i as int]));
        }
        i = i + 1;
    }
    proof {
        assert(target.take(count as int) =~= target);
    }
    *names = out;
    count
}

/// The session needs enough players for two full matches.
pub fn check_player_count(player_count: u32, team_size: u8) -> (r: Result<(), String>)
    ensures
        match r {
            Ok(()) => player_count >= team_size * 4,
            Err(message) => player_count < team_size * 4 && message@ == "Need at least "@
                + decimal((team_size * 4) as nat) + " players for "@ + decimal(team_size as nat)
                + "v"@ + decimal(team_size as nat) + " (two full teams)."@,
        },
{
    let min = minimum_players(team_size);
    if player_count >= min {
        return Ok(());
    }
    let mut out = chars_of("Need at least ");
    push_decimal(&mut out, min as u64);
    push_all(&mut out, chars_of(" players for ").as_slice());
    push_all(&mut out, chars_of(team_size_label(team_size).as_str()).as_slice());
    push_all(&mut out, chars_of(" (two full teams).").as_slice());
    Err(string_from_chars(out.as_slice()))
}

/// The match duration typed in minutes: none when left empty (untimed) or
/// not a `u16`.
pub fn parse_match_duration(raw: &str) -> (r: Option<u16>)
    ensures
        r == if raw@.len() == 0 {
            None
        } else {
            match parsed_unsigned(raw@, u16::MAX as nat) {
                Some(n) => Some(n as u16),
                None => None,
            }
        },
{
    if raw.is_empty() {
        return None;
    }
    match parse_unsigned(chars_of(raw).as_slice(), 65535) {
        Some(n) => Some(n as u16),
        None => None,
    }
}

/// The rounds between new matchups typed in the form, when it is a `u8`
/// (otherwise the setting is left as it was).
pub fn parse_schedule_frequency(raw: &str) -> (r: Option<u8>)
    ensures
        r == match parsed_unsigned(raw@, u8::MAX as nat) {
            Some(n) => Some(n as u8),
            None => None,
        },
{
    match parse_unsigned(chars_of(raw).as_slice(), 255) {
        Some(n) => Some(n as u8),
        None => None,
    }
}

} // verus!

//! The coach's online tab: PIN fields, their checks and status lines, and
//! the line reporting a pull of assistant-entered scores.
use vstd::prelude::*;

use crate::api::{is_ascii_digit, is_pin};
use vstd::utf8::encode_utf8;
use crate::text::{chars_of, decimal, push_all, push_decimal, string_from_chars};

verus! {

/// The ASCII digits of `s`, in order.
pub open spec fn digits_of(s: Seq<char>) -> Seq<char> {
    s.filter(|c: char| is_ascii_digit(c))
}

/// What a PIN field keeps of what was typed: its digits, at most eight.
pub open spec fn sanitized_pin(raw: Seq<char>) -> Seq<char> {
    let d = digits_of(raw);
    if d.len() > 8 {
        d.take(8)
    } else {
        d
    }
}

/// Keeps the digits of the typed text, at most eight.
pub fn sanitize_pin_input(raw: &str) -> (r: String)
    ensures
        r@ == sanitized_pin(raw@),
{
    let cs = chars_of(raw);
    let mut out: Vec<char> = Vec::new();
    let mut i: usize = 0;
    while i < cs.len()
        invariant
            i <= cs.len(),
            cs@ == raw@,
            out@ == sanitized_pin(cs@.take(i as int)),
        decreases cs.len() - i,
    {
        let c = cs[i];
        proof {
            assert(cs@.take(i as int + 1) == cs@.take(i as int).push(c));
            crate::text::lemma_filter_push(cs@.take(i as int), |c: char| is_ascii_digit(c), c);
        }
        if '0' <= c && c <= '9' && out.len() < 8 {
            out.push(c);
        }
        proof {
            let before = digits_of(cs@.take(i as int));
            let after = digits_of(cs@.take(i as int + 1));
            if is_ascii_digit(c) {
                assert(after == before.push(c));
                if before.len() >= 8 {
                    assert(after.take(8) =~= before.take(8));
                }
            }
        }
        i = i + 1;
    }
    proof {
        assert(cs@.take(cs.len() as int) == cs@);
    }
    string_from_chars(out.as_slice())
}

/// A PIN kept by the field passes the worker's check as soon as it has four
/// digits.
pub proof fn lemma_sanitized_pin_is_accepted(raw: Seq<char>)
    requires
        sanitized_pin(raw).len() >= 4,
    ensures
        is_pin(sanitized_pin(raw)),
{
    let d = digits_of(raw);
    assert forall|i: int| 0 <= i < sanitized_pin(raw).len() implies is_ascii_digit(
        #[trigger] sanitized_pin(raw)[i],
    ) by {
        raw.lemma_filter_pred(|c: char| is_ascii_digit(c), i);
    }
}

/// The problem with a recovery PIN before it is sent: fewer than four
/// bytes (the field only keeps digits, so fewer than four digits).
pub fn recovery_pin_problem(pin: &str) -> (r: Option<&'static str>)
    ensures
        match r {
            Some(m) => encode_utf8(pin@).len() < 4 && m@ == "PIN must be at least 4 digits."@,
            None => encode_utf8(pin@).len() >= 4,
        },
{
    if pin.as_bytes().len() < 4 {
        Some("PIN must be at least 4 digits.")
    } else {
        None
    }
}

/// The problem with a share link PIN before it is sent: not blank and fewer
/// than four bytes (the field only keeps digits).
pub fn token_pin_problem(pin: &str) -> (r: Option<&'static str>)
    ensures
        match r {
            Some(m) => pin@.len() > 0 && encode_utf8(pin@).len() < 4 && m@
                == "PIN must be 4–8 digits, or leave blank to remove."@,
            None => pin@.len() == 0 || encode_utf8(pin@).len() >= 4,
        },
{
    let n = pin.as_bytes().len();
    if !pin.is_empty() && n < 4 {
        Some("PIN must be 4–8 digits, or leave blank to remove.")
    } else {
        None
    }
}

/// The status while a share link PIN is sent, and once it is stored.
pub fn token_pin_status(pin: &str, done: bool) -> (r: &'static str)
    ensures
        r@ == if done {
            if pin@.len() == 0 {
                "PIN removed."@
            } else {
                "PIN set."@
            }
        } else if pin@.len() == 0 {
            "Clearing…"@
        } else {
            "Setting…"@
        },
{
    let blank = pin.is_empty();
    if done {
        if blank {
            "PIN removed."
        } else {
            "PIN set."
        }
    } else if blank {
        "Clearing…"
    } else {
        "Setting…"
    }
}

/// The line after pulling assistants' scores.
pub open spec fn pull_status_text(imported: nat, new_server_events_seen: nat) -> Seq<char> {
    if imported == 0 {
        if new_server_events_seen == 0 {
            "No new server updates."@
        } else {
            "No new assistant-entered scores found."@
        }
    } else if imported == 1 {
        "Pulled 1 assistant-entered score."@
    } else {
        "Pulled "@ + decimal(imported) + " assistant-entered scores."@
    }
}

/// The line after pulling assistants' scores.
pub fn assistant_pull_status(imported: usize, new_server_events_seen: usize) -> (r: String)
    ensures
        r@ == pull_status_text(imported as nat, new_server_events_seen as nat),
{
    let text = if imported == 0 {
        if new_server_events_seen == 0 {
            chars_of("No new server updates.")
        } else {
            chars_of("No new assistant-entered scores found.")
        }
    } else if imported == 1 {
        chars_of("Pulled 1 assistant-entered score.")
    } else {
        let mut out = chars_of("Pulled ");
        push_decimal(&mut out, imported as u64);
        push_all(&mut out, chars_of(" assistant-entered scores.").as_slice());
        out
    };
    string_from_chars(text.as_slice())
}

} // verus!

//! Browser storage bookkeeping: the keys and file names sessions are stored
//! under, the session index kept beside them, which of two stored copies of
//! a session is fresher, the dark-mode preference and the device id.
//!
//! Reading and writing the storage itself happens outside; these functions
//! decide what is read and what is written.
use vstd::prelude::*;

use crate::text::{chars_equal, chars_of, hex_padded, lemma_filter_push, push_all,
    push_hex_padded, string_from_chars, views};

verus! {

// ── Keys and file names ─────────────────────────────────────────────────────

/// The local-storage key of the session index.
pub const SESSION_LIST_KEY: &'static str = "pcpp_sessions";

/// The local-storage key of the dark-mode preference.
pub const DARK_MODE_KEY: &'static str = "pcpp_dark_mode";

/// The local-storage key of this browser's device id.
pub const DEVICE_ID_KEY: &'static str = "pcpp_device_id";

/// The OPFS file holding the session index.
pub const INDEX_FILENAME: &'static str = "pcpp_index.json";

fn concat3(a: &str, b: &str, c: &str) -> (r: String)
    ensures
        r@ == a@ + b@ + c@,
{
    let mut out = chars_of(a);
    push_all(&mut out, chars_of(b).as_slice());
    push_all(&mut out, chars_of(c).as_slice());
    string_from_chars(out.as_slice())
}

/// The local-storage key of a session's cached summary.
pub fn summary_key(id: &str) -> (r: String)
    ensures
        r@ == "pcpp_summary_"@ + id@,
{
    let r = concat3("pcpp_summary_", id, "");
    proof {
        assert("pcpp_summary_"@ + id@ + ""@ =~= "pcpp_summary_"@ + id@) by {
            reveal_strlit("");
        }
    }
    r
}

/// The OPFS file holding a session's events.
pub fn events_filename(session_id: &str) -> (r: String)
    ensures
        r@ == "pcpp_events_"@ + session_id@ + ".json"@,
{
    concat3("pcpp_events_", session_id, ".json")
}

// ── The session index ───────────────────────────────────────────────────────

/// The index after recording `id`: unchanged when it is already listed,
/// otherwise with `id` appended.
pub open spec fn index_with(ids: Seq<Seq<char>>, id: Seq<char>) -> Seq<Seq<char>> {
    if ids.contains(id) {
        ids
    } else {
        ids.push(id)
    }
}

/// Whether an entry is other than `id`.
pub open spec fn other_than(id: Seq<char>) -> spec_fn(Seq<char>) -> bool {
    |x: Seq<char>| x != id
}

/// The index after forgetting `id`: every other entry, in order.
pub open spec fn index_without(ids: Seq<Seq<char>>, id: Seq<char>) -> Seq<Seq<char>> {
    ids.filter(other_than(id))
}

/// No id is listed twice.
pub open spec fn no_duplicates(ids: Seq<Seq<char>>) -> bool {
    forall|i: int, j: int| 0 <= i < j < ids.len() ==> ids[i] != ids[j]
}

fn index_contains(ids: &Vec<String>, id: &str) -> (r: bool)
    ensures
        r == views(ids@).contains(id@),
{
    let target = chars_of(id);
    let mut i: usize = 0;
    while i < ids.len()
        invariant
            i <= ids.len(),
            target@ == id@,
            forall|k: int| 0 <= k < i ==> views(ids@)[k] != id@,
        decreases ids.len() - i,
    {
        if chars_equal(chars_of(ids[i].as_str()).as_slice(), target.as_slice()) {
            proof {
                assert(views(ids@)[i as int] == id@);
            }
            return true;
        }
        i = i + 1;
    }
    false
}

/// Records `id` in the index; says whether it was added (and the index must
/// be written back).
pub fn add_to_session_index(ids: &mut Vec<String>, id: &str) -> (added: bool)
    ensures
        added == !views(old(ids)@).contains(id@),
        views(final(ids)@) == index_with(views(old(ids)@), id@),
{
    if index_contains(ids, id) {
        return false;
    }
    ids.push(string_from_chars(chars_of(id).as_slice()));
    proof {
        assert(views(ids@) =~= views(old(ids)@).push(id@));
    }
    true
}

/// Forgets `id` in the index.
pub fn remove_from_session_index(ids: &mut Vec<String>, id: &str)
    ensures
        views(final(ids)@) == index_without(views(old(ids)@), id@),
{
    let target = chars_of(id);
    let mut kept: Vec<String> = Vec::new();
    let mut i: usize = 0;
    while i < ids.len()
        invariant
            i <= ids.len(),
            target@ == id@,
            views(kept@) == index_without(views(ids@).take(i as int), id@),
        decreases ids.len() - i,
    {
        let entry = chars_of(ids[i].as_str());
        proof {
            assert(views(ids@).take(i as int + 1) == views(ids@).take(i as int).push(
                ids@[i as int]@,
            ));
            lemma_filter_push(views(ids@).take(i as int), other_than(id@), ids@[i as int]@);
        }
        if !chars_equal(entry.as_slice(), target.as_slice()) {
            kept.push(string_from_chars(entry.as_slice()));
            proof {
                assert(views(kept@) =~= views(kept@.drop_last()).push(kept@.last()@));
            }
        }
        i = i + 1;
    }
    proof {
        assert(views(ids@).take(ids.len() as int) == views(ids@));
    }
    *ids = kept;
}

/// The ids, of those found in a durable store, whose metadata must be
/// rebuilt: those the local index lacks, and those whose summary is not
/// cached (`summary_cached[i]` tells for `stored[i]`).
pub fn ids_needing_metadata(stored: &Vec<String>, local: &Vec<String>, summary_cached: &[bool]) -> (r:
    Vec<String>)
    requires
        summary_cached@.len() == stored@.len(),
    ensures
        views(r@) == needing(views(stored@), views(local@), summary_cached@),
{
    let mut r: Vec<String> = Vec::new();
    let mut i: usize = 0;
    while i < stored.len()
        invariant
            i <= stored.len(),
            summary_cached@.len() == stored@.len(),
            views(r@) == needing(
                views(stored@).take(i as int),
                views(local@),
                summary_cached@.take(i as int),
            ),
        decreases stored.len() - i,
    {
        let id = stored[i].as_str();
        proof {
            assert(views(stored@).take(i as int + 1).drop_last() == views(stored@).take(i as int));
            assert(summary_cached@.take(i as int + 1).drop_last() == summary_cached@.take(i as int));
        }
        if !index_contains(local, id) || !summary_cached[i] {
            r.push(string_from_chars(chars_of(id).as_slice()));
            proof {
                assert(views(r@) =~= views(r@.drop_last()).push(r@.last()@));
            }
        }
        i = i + 1;
    }
    proof {
        assert(views(stored@).take(stored.len() as int) == views(stored@));
        assert(summary_cached@.take(stored.len() as int) == summary_cached@);
    }
    r
}

/// The entries of `stored` that `local` lacks or whose summary is not cached,
/// in order.
pub open spec fn needing(stored: Seq<Seq<char>>, local: Seq<Seq<char>>, cached: Seq<bool>) -> Seq<
    Seq<char>,
>
    decreases stored.len(),
{
    if stored.len() == 0 || cached.len() != stored.len() {
        Seq::empty()
    } else {
        let rest = needing(stored.drop_last(), local, cached.drop_last());
        if !local.contains(stored.last()) || !cached.last() {
            rest.push(stored.last())
        } else {
            rest
        }
    }
}

/// Recording an id lists it.
pub proof fn lemma_index_with_lists(ids: Seq<Seq<char>>, id: Seq<char>)
    ensures
        index_with(ids, id).contains(id),
{
    if !ids.contains(id) {
        assert(ids.push(id)[ids.len() as int] == id);
    }
}

/// Recording an id never lists anything twice.
pub proof fn lemma_index_with_no_duplicates(ids: Seq<Seq<char>>, id: Seq<char>)
    requires
        no_duplicates(ids),
    ensures
        no_duplicates(index_with(ids, id)),
{
}

/// Forgetting an id leaves it unlisted.
pub proof fn lemma_index_without_unlists(ids: Seq<Seq<char>>, id: Seq<char>)
    ensures
        !index_without(ids, id).contains(id),
{
    if index_without(ids, id).contains(id) {
        let k = choose|k: int| 0 <= k < index_without(ids, id).len() && index_without(ids, id)[k] == id;
        ids.lemma_filter_pred(other_than(id), k);
    }
}

/// Forgetting an id that was just recorded, where it was not listed before,
/// gives back the index as it was.
pub proof fn lemma_index_add_then_remove(ids: Seq<Seq<char>>, id: Seq<char>)
    requires
        !ids.contains(id),
    ensures
        index_without(index_with(ids, id), id) == ids,
    decreases ids.len(),
{
    let p = other_than(id);
    assert(index_with(ids, id) == ids.push(id));
    lemma_filter_push(ids, p, id);
    lemma_filter_keeps_all(ids, id);
    assert(index_without(ids.push(id), id) == ids.push(id).filter(p));
}

proof fn lemma_filter_keeps_all(ids: Seq<Seq<char>>, id: Seq<char>)
    requires
        !ids.contains(id),
    ensures
        ids.filter(other_than(id)) == ids,
    decreases ids.len(),
{
    if ids.len() > 0 {
        let init = ids.drop_last();
        assert(!init.contains(id)) by {
            if init.contains(id) {
                let k = choose|k: int| 0 <= k < init.len() && init[k] == id;
                assert(ids[k] == id);
            }
        }
        lemma_filter_keeps_all(init, id);
        assert(init.push(ids.last()) == ids);
        assert(ids[ids.len() - 1] != id);
        lemma_filter_push(init, other_than(id), ids.last());
    } else {
        assert(ids.filter(other_than(id)) =~= ids) by {
            reveal(Seq::filter);
        }
    }
}

// ── Which stored copy to load ───────────────────────────────────────────────

/// The durable stores a session's events are kept in.
#[derive(Debug, Clone, Copy, PartialEq, Eq, Structural)]
pub enum StoredCopy {
    IndexedDb,
    Opfs,
}

/// The version a session's event log has reached: its last event's version,
/// 0 for an empty log.
pub fn latest_session_version(event_versions: &[u64]) -> (r: u64)
    ensures
        r == if event_versions@.len() == 0 {
            0
        } else {
            event_versions@.last()
        },
{
    if event_versions.len() == 0 {
        0
    } else {
        event_versions[event_versions.len() - 1]
    }
}

/// Which copy of a session to load, given the latest versions of the copies
/// that could be read: the one that has come further, the IndexedDB copy on
/// a tie; `None` when neither could be read.
pub fn choose_fresher_session(indexed_db_version: Option<u64>, opfs_version: Option<u64>) -> (r:
    Option<StoredCopy>)
    ensures
        r == match (indexed_db_version, opfs_version) {
            (Some(a), Some(b)) => if a >= b {
                Some(StoredCopy::IndexedDb)
            } else {
                Some(StoredCopy::Opfs)
            },
            (Some(_), None) => Some(StoredCopy::IndexedDb),
            (None, Some(_)) => Some(StoredCopy::Opfs),
            (None, None) => None,
        },
{
    match (indexed_db_version, opfs_version) {
        (Some(a), Some(b)) => if a >= b {
            Some(StoredCopy::IndexedDb)
        } else {
            Some(StoredCopy::Opfs)
        },
        (Some(_), None) => Some(StoredCopy::IndexedDb),
        (None, Some(_)) => Some(StoredCopy::Opfs),
        (None, None) => None,
    }
}

// ── Dark mode ───────────────────────────────────────────────────────────────

/// The dark-mode setting a stored preference gives: any stored value but
/// `light` means dark; `None` when nothing is stored (the system preference
/// then decides).
pub fn dark_mode_from_preference(stored: Option<&str>) -> (r: Option<bool>)
    ensures
        r == match stored {
            Some(v) => Some(v@ != "light"@),
            None => None,
        },
{
    match stored {
        Some(v) => Some(!chars_equal(chars_of(v).as_slice(), chars_of("light").as_slice())),
        None => None,
    }
}

/// The value stored for a dark-mode setting.
pub fn dark_mode_preference_value(dark: bool) -> (r: &'static str)
    ensures
        r@ == if dark {
            "dark"@
        } else {
            "light"@
        },
{
    if dark {
        "dark"
    } else {
        "light"
    }
}

/// The browser theme colour for a dark-mode setting.
pub fn theme_color(dark: bool) -> (r: &'static str)
    ensures
        r@ == if dark {
            "#000000"@
        } else {
            "#f8fafc"@
        },
{
    if dark {
        "#000000"
    } else {
        "#f8fafc"
    }
}

/// The iOS status-bar style for a dark-mode setting.
pub fn status_bar_style(dark: bool) -> (r: &'static str)
    ensures
        r@ == if dark {
            "black-translucent"@
        } else {
            "default"@
        },
{
    if dark {
        "black-translucent"
    } else {
        "default"
    }
}

/// A stored setting reads back as the setting that was stored.
pub proof fn lemma_dark_mode_round_trip(dark: bool)
    ensures
        (if dark {
            "dark"@
        } else {
            "light"@
        } != "light"@) == dark,
{
    reveal_strlit("dark");
    reveal_strlit("light");
    assert("dark"@.len() != "light"@.len());
}

// ── Device id ───────────────────────────────────────────────────────────────

/// The stored device id, when there is a non-empty one.
pub fn usable_device_id(stored: Option<&str>) -> (r: Option<String>)
    ensures
        r matches Some(id) ==> stored matches Some(s) && id@ == s@ && s@.len() > 0,
        r is None ==> (stored matches Some(s) ==> s@.len() == 0),
{
    match stored {
        Some(s) => if s.is_empty() {
            None
        } else {
            Some(string_from_chars(chars_of(s).as_slice()))
        },
        None => None,
    }
}

/// A new device id: the time in milliseconds as 16 hex digits, then a random
/// number as 8 hex digits.
pub fn new_device_id(timestamp_ms: u64, random: u64) -> (r: String)
    ensures
        r@ == hex_padded(timestamp_ms as nat, 16) + hex_padded(random as nat, 8),
{
    let mut out: Vec<char> = Vec::new();
    push_hex_padded(&mut out, timestamp_ms, 16);
    push_hex_padded(&mut out, random, 8);
    proof {
        assert(out@ =~= hex_padded(timestamp_ms as nat, 16) + hex_padded(random as nat, 8));
    }
    string_from_chars(out.as_slice())
}

} // verus!

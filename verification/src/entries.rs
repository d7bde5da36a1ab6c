//! Lists of named entries, kept in the order of their names with no name twice.

use vstd::prelude::*;
use vstd::string::*;

use crate::model::pair_views;
use crate::text::{
    lemma_text_less_irreflexive, lemma_text_less_total, lemma_text_less_transitive, less,
    same_text, text_less,
};

verus! {

/// Entries in ascending order of their names, no two with the same.
pub open spec fn entries_sorted<V>(entries: Seq<(Seq<char>, V)>) -> bool {
    forall|i: int, j: int|
        0 <= i < j < entries.len() ==> text_less(
            (#[trigger] entries[i]).0,
            (#[trigger] entries[j]).0,
        )
}

/// The first position, from `from` on, whose entry's name does not come before `name`.
pub open spec fn entry_position<V>(
    entries: Seq<(Seq<char>, V)>,
    name: Seq<char>,
    from: int,
) -> int
    decreases entries.len() - from,
{
    if from >= entries.len() || !text_less(entries[from].0, name) {
        from
    } else {
        entry_position(entries, name, from + 1)
    }
}

/// The entries with one more, which replaces an entry of the same name.
pub open spec fn with_entry<V>(
    entries: Seq<(Seq<char>, V)>,
    name: Seq<char>,
    value: V,
) -> Seq<(Seq<char>, V)> {
    let at = entry_position(entries, name, 0);
    if at < entries.len() && entries[at].0 == name {
        entries.update(at, (name, value))
    } else {
        entries.insert(at, (name, value))
    }
}

/// The value of an entry of this name.
pub open spec fn entry_value<V>(entries: Seq<(Seq<char>, V)>, name: Seq<char>) -> Option<V> {
    let at = entry_position(entries, name, 0);
    if at < entries.len() && entries[at].0 == name {
        Some(entries[at].1)
    } else {
        None
    }
}

/// `entry_position` stands behind exactly the leading entries that come before the name.
proof fn lemma_entry_position<V>(entries: Seq<(Seq<char>, V)>, name: Seq<char>, from: int)
    requires
        0 <= from <= entries.len(),
    ensures
        ({
            let at = entry_position(entries, name, from);
            &&& from <= at <= entries.len()
            &&& forall|i: int| from <= i < at ==> text_less((#[trigger] entries[i]).0, name)
            &&& at < entries.len() ==> !text_less(entries[at].0, name)
        }),
    decreases entries.len() - from,
{
    if from < entries.len() && text_less(entries[from].0, name) {
        lemma_entry_position(entries, name, from + 1);
    }
}

/// Adding an entry keeps the order.
pub proof fn entries_stay_sorted<V>(entries: Seq<(Seq<char>, V)>, name: Seq<char>, value: V)
    requires
        entries_sorted(entries),
    ensures
        entries_sorted(with_entry(entries, name, value)),
{
    lemma_entry_position(entries, name, 0);
    let at = entry_position(entries, name, 0);
    let added = with_entry(entries, name, value);
    if at < entries.len() && entries[at].0 == name {
        assert forall|i: int, j: int| 0 <= i < j < added.len() implies text_less(
            (#[trigger] added[i]).0,
            (#[trigger] added[j]).0,
        ) by {
            assert(added[i].0 == entries[i].0);
            assert(added[j].0 == entries[j].0);
        }
    } else {
        assert forall|i: int, j: int| 0 <= i < j < added.len() implies text_less(
            (#[trigger] added[i]).0,
            (#[trigger] added[j]).0,
        ) by {
            if j == at {
                assert(added[i] == entries[i]);
            } else if i == at {
                assert(added[j] == entries[j - 1]);
                lemma_text_less_total(name, entries[at].0);
                if at < j - 1 {
                    lemma_text_less_transitive(name, entries[at].0, entries[j - 1].0);
                }
            } else {
                let before = if i < at {
                    i
                } else {
                    i - 1
                };
                let behind = if j < at {
                    j
                } else {
                    j - 1
                };
                assert(added[i] == entries[before]);
                assert(added[j] == entries[behind]);
            }
        }
    }
}

/// A name's position in sorted entries is where it stands.
proof fn lemma_position_of<V>(entries: Seq<(Seq<char>, V)>, at: int)
    requires
        entries_sorted(entries),
        0 <= at < entries.len(),
    ensures
        entry_position(entries, entries[at].0, 0) == at,
{
    let name = entries[at].0;
    lemma_entry_position(entries, name, 0);
    let found = entry_position(entries, name, 0);
    lemma_text_less_irreflexive(name);
    if found < at {
        assert(text_less(entries[found].0, entries[at].0));
    }
    if at < found {
        assert(text_less(entries[at].0, name));
    }
}

/// Sorted entries are found under their names, and nothing is found under another name.
pub proof fn entries_are_found_by_name<V>(
    entries: Seq<(Seq<char>, V)>,
    name: Seq<char>,
    value: V,
)
    requires
        entries_sorted(entries),
    ensures
        entry_value(entries, name) == Some(value) <==> entries.contains((name, value)),
{
    let at = entry_position(entries, name, 0);
    lemma_entry_position(entries, name, 0);
    if entry_value(entries, name) == Some(value) {
        assert(entries[at] == (name, value));
    }
    if entries.contains((name, value)) {
        let k = choose|k: int| 0 <= k < entries.len() && entries[k] == (name, value);
        lemma_position_of(entries, k);
    }
}

/// An added entry is found under its name, and every other name is found as before.
pub proof fn added_entry_is_found<V>(
    entries: Seq<(Seq<char>, V)>,
    name: Seq<char>,
    value: V,
    other: Seq<char>,
)
    requires
        entries_sorted(entries),
    ensures
        entry_value(with_entry(entries, name, value), name) == Some(value),
        other != name ==> entry_value(with_entry(entries, name, value), other) == entry_value(
            entries,
            other,
        ),
{
    let at = entry_position(entries, name, 0);
    let added = with_entry(entries, name, value);
    let replaces = at < entries.len() && entries[at].0 == name;
    lemma_entry_position(entries, name, 0);
    entries_stay_sorted(entries, name, value);
    assert(added[at] == (name, value));
    lemma_position_of(added, at);
    if other != name {
        let p = entry_position(entries, other, 0);
        let q = entry_position(added, other, 0);
        lemma_entry_position(entries, other, 0);
        lemma_entry_position(added, other, 0);
        if p < entries.len() && entries[p].0 == other {
            let moved = if replaces || p < at {
                p
            } else {
                p + 1
            };
            assert(added[moved] == entries[p]);
            lemma_position_of(added, moved);
        } else if q < added.len() && added[q].0 == other {
            let moved = if replaces || q < at {
                q
            } else {
                q - 1
            };
            assert(added[q] == entries[moved]);
            lemma_position_of(entries, moved);
        }
    }
}

/// Adds an entry, in place of an entry of the same name.
pub fn put_entry<V: View>(entries: &mut Vec<(String, V)>, name: String, value: V)
    ensures
        pair_views(final(entries)@) == with_entry(pair_views(old(entries)@), name@, value@),
{
    let ghost said = pair_views(entries@);
    let ghost text = name@;
    let mut at: usize = 0;
    while at < entries.len() && less(entries[at].0.as_str(), name.as_str())
        invariant
            at <= entries.len(),
            said == pair_views(entries@),
            text == name@,
            entry_position(said, text, 0) == entry_position(said, text, at as int),
        decreases entries.len() - at,
    {
        assert(said[at as int].0 == entries@[at as int].0@);
        at = at + 1;
    }
    proof {
        if at < entries.len() {
            assert(said[at as int].0 == entries@[at as int].0@);
        }
    }
    if at < entries.len() && same_text(entries[at].0.as_str(), name.as_str()) {
        entries[at] = (name, value);
        assert(pair_views(entries@) =~= said.update(at as int, (text, value@)));
    } else {
        entries.insert(at, (name, value));
        assert(pair_views(entries@) =~= said.insert(at as int, (text, value@)));
    }
}

/// The position of the entry of this name.
pub fn find_entry<V: View>(entries: &Vec<(String, V)>, name: &str) -> (at: Option<usize>)
    ensures
        match at {
            Some(at) => at < entries@.len() && entry_value(pair_views(entries@), name@) == Some(
                entries@[at as int].1@,
            ),
            None => entry_value(pair_views(entries@), name@) is None,
        },
{
    let ghost said = pair_views(entries@);
    let mut at: usize = 0;
    while at < entries.len() && less(entries[at].0.as_str(), name)
        invariant
            at <= entries.len(),
            said == pair_views(entries@),
            entry_position(said, name@, 0) == entry_position(said, name@, at as int),
        decreases entries.len() - at,
    {
        assert(said[at as int].0 == entries@[at as int].0@);
        at = at + 1;
    }
    if at < entries.len() {
        assert(said[at as int] == (entries@[at as int].0@, entries@[at as int].1@));
        if same_text(entries[at].0.as_str(), name) {
            return Some(at);
        }
    }
    None
}

} // verus!

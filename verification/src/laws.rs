//! What holds of every listing: each entry is a direct child of the listed
//! parent, no child is listed twice, every record below the parent is
//! reached through a listed child, and the entries are in order.

use vstd::prelude::*;
use vstd::seq_lib::{to_multiset_contains, to_multiset_insert};
use crate::listing::{
    candidate, first_slot, gathered, insert_point, is_sorted, lemma_first_slot,
    lemma_insert_point, listing_entries, slot_entries, sort_before, sorted_from, survives,
    upsert, Slot,
};
use crate::model::{EntryModel, RawModel};
use crate::paths::{
    below, child_key, child_name, is_direct_child_of, last_segment, lemma_child_key_idempotent,
    lemma_child_key_is_direct_child, lemma_child_name_is_last_segment, normalized,
};
use crate::text::{lemma_lex_lt_irreflexive, lemma_lex_lt_transitive, lex_lt, lowercase_of};

verus! {

/// `e` is a well-formed child of `parent`: its path is exactly one segment
/// below the parent, is its own child key, and ends in its name.
pub open spec fn is_child_entry(e: EntryModel, parent: Seq<char>) -> bool {
    &&& below(e.inner_path, parent)
    &&& is_direct_child_of(e.inner_path, parent)
    &&& child_key(e.inner_path, parent) == e.inner_path
    &&& e.name == last_segment(e.inner_path)
}

/// The record `r` counts for the listing of `parent` and is reached through
/// the child with path `key`.
pub open spec fn reaches(r: RawModel, parent: Seq<char>, key: Seq<char>) -> bool {
    survives(normalized(r.path), parent) && child_key(normalized(r.path), parent) == key
}

/// Some record of `raw` is reached through the child with path `key`.
pub open spec fn key_occurs(raw: Seq<RawModel>, parent: Seq<char>, key: Seq<char>) -> bool {
    exists|j: int| 0 <= j < raw.len() && reaches(#[trigger] raw[j], parent, key)
}

/// Some entry of `s` has the path `key`.
pub open spec fn has_path(s: Seq<EntryModel>, key: Seq<char>) -> bool {
    exists|i: int| 0 <= i < s.len() && (#[trigger] s[i]).inner_path == key
}

/// No two entries of `s` have the same path.
pub open spec fn paths_distinct(s: Seq<EntryModel>) -> bool {
    forall|i: int, j: int| 0 <= i < j < s.len() ==> s[i].inner_path != s[j].inner_path
}

/// Nothing must stand before itself.
pub proof fn lemma_sort_before_irreflexive(a: EntryModel)
    ensures
        !sort_before(a, a),
{
    lemma_lex_lt_irreflexive(lowercase_of(a.name));
    lemma_lex_lt_irreflexive(a.name);
}

/// The listing order is transitive.
pub proof fn lemma_sort_before_transitive(a: EntryModel, b: EntryModel, c: EntryModel)
    requires
        sort_before(a, b),
        sort_before(b, c),
    ensures
        sort_before(a, c),
{
    let la = lowercase_of(a.name);
    let lb = lowercase_of(b.name);
    let lc = lowercase_of(c.name);
    if a.is_dir == b.is_dir && b.is_dir == c.is_dir {
        if lex_lt(la, lb) && lex_lt(lb, lc) {
            lemma_lex_lt_transitive(la, lb, lc);
        } else if la == lb && lb == lc {
            lemma_lex_lt_transitive(a.name, b.name, c.name);
        }
    }
}

/// Putting the entries in order leaves them in order.
pub proof fn lemma_sorted_from_is_sorted(s: Seq<EntryModel>)
    ensures
        is_sorted(sorted_from(s)),
        sorted_from(s).len() == s.len(),
    decreases s.len(),
{
    if s.len() > 0 {
        let t = sorted_from(s.drop_first());
        lemma_sorted_from_is_sorted(s.drop_first());
        let e = s[0];
        let p = insert_point(t, e);
        lemma_insert_point(t, e);
        let r = t.insert(p, e);
        assert(r == sorted_from(s));
        assert forall|i: int, j: int| 0 <= i < j < r.len() implies !sort_before(r[j], r[i]) by {
            if j < p {
                assert(r[i] == t[i] && r[j] == t[j]);
            } else if j == p {
                assert(r[i] == t[i] && r[j] == e);
            } else if i < p {
                assert(r[i] == t[i] && r[j] == t[j - 1]);
            } else if i == p {
                assert(r[i] == e && r[j] == t[j - 1]);
                if sort_before(t[j - 1], e) {
                    lemma_sort_before_transitive(t[j - 1], e, t[p]);
                    if j - 1 == p {
                        lemma_sort_before_irreflexive(t[p]);
                    }
                }
            } else {
                assert(r[i] == t[i - 1] && r[j] == t[j - 1]);
            }
        }
    }
}

/// Putting the entries in order neither adds nor loses one.
pub proof fn lemma_sorted_from_permutes(s: Seq<EntryModel>)
    ensures
        sorted_from(s).to_multiset() == s.to_multiset(),
    decreases s.len(),
{
    if s.len() > 0 {
        let rest = s.drop_first();
        let t = sorted_from(rest);
        lemma_sorted_from_permutes(rest);
        lemma_sorted_from_is_sorted(rest);
        lemma_insert_point(t, s[0]);
        assert(rest.insert(0, s[0]) =~= s);
        to_multiset_insert(t, insert_point(t, s[0]), s[0]);
        to_multiset_insert(rest, 0, s[0]);
    } else {
        assert(s =~= Seq::<EntryModel>::empty());
    }
}

/// An entry is in the ordered sequence exactly when it is in the source.
pub proof fn lemma_sorted_from_contains(s: Seq<EntryModel>, e: EntryModel)
    ensures
        sorted_from(s).contains(e) <==> s.contains(e),
{
    lemma_sorted_from_permutes(s);
    to_multiset_contains(s, e);
    to_multiset_contains(sorted_from(s), e);
}

/// Putting entries with distinct paths in order keeps the paths distinct.
pub proof fn lemma_sorted_from_distinct(s: Seq<EntryModel>)
    requires
        paths_distinct(s),
    ensures
        paths_distinct(sorted_from(s)),
    decreases s.len(),
{
    if s.len() > 0 {
        let rest = s.drop_first();
        assert forall|i: int, j: int| 0 <= i < j < rest.len() implies rest[i].inner_path
            != rest[j].inner_path by {
            assert(rest[i] == s[i + 1] && rest[j] == s[j + 1]);
        }
        lemma_sorted_from_distinct(rest);
        lemma_sorted_from_is_sorted(rest);
        let t = sorted_from(rest);
        let e = s[0];
        let p = insert_point(t, e);
        lemma_insert_point(t, e);
        let r = t.insert(p, e);
        assert forall|k: int| 0 <= k < t.len() implies (#[trigger] t[k]).inner_path
            != e.inner_path by {
            lemma_sorted_from_contains(rest, t[k]);
            assert(t.contains(t[k]));
            let m = choose|m: int| 0 <= m < rest.len() && rest[m] == t[k];
            assert(rest[m] == s[m + 1]);
        }
        assert forall|i: int, j: int| 0 <= i < j < r.len() implies r[i].inner_path
            != r[j].inner_path by {
            if j < p {
                assert(r[i] == t[i] && r[j] == t[j]);
            } else if j == p {
                assert(r[i] == t[i] && r[j] == e);
            } else if i < p {
                assert(r[i] == t[i] && r[j] == t[j - 1]);
            } else if i == p {
                assert(r[i] == e && r[j] == t[j - 1]);
            } else {
                assert(r[i] == t[i - 1] && r[j] == t[j - 1]);
            }
        }
    }
}

/// The child that a surviving record stands for is a well-formed child
/// whose path is the record's child key.
pub proof fn lemma_candidate(r: RawModel, parent: Seq<char>, label: Seq<char>)
    requires
        survives(normalized(r.path), parent),
    ensures
        is_child_entry(candidate(r, parent, label).entry, parent),
        candidate(r, parent, label).entry.inner_path == child_key(normalized(r.path), parent),
        candidate(r, parent, label).entry.name == child_name(normalized(r.path), parent),
{
    let n = normalized(r.path);
    lemma_child_key_idempotent(n, parent);
    lemma_child_key_is_direct_child(n, parent);
    lemma_child_name_is_last_segment(n, parent);
}

/// What holds of the children gathered from `raw`.
pub open spec fn gathered_ok(raw: Seq<RawModel>, parent: Seq<char>, acc: Seq<Slot>) -> bool {
    &&& forall|i: int| 0 <= i < acc.len() ==> is_child_entry((#[trigger] acc[i]).entry, parent)
    &&& forall|i: int|
        0 <= i < acc.len() ==> key_occurs(raw, parent, (#[trigger] acc[i]).entry.inner_path)
    &&& forall|i: int, j: int|
        0 <= i < j < acc.len() ==> acc[i].entry.inner_path != acc[j].entry.inner_path
    &&& forall|j: int|
        0 <= j < raw.len() && survives(normalized((#[trigger] raw[j]).path), parent)
            ==> first_slot(acc, child_key(normalized(raw[j].path), parent)) < acc.len()
}

/// A key that has a slot keeps one when a child is met.
proof fn lemma_upsert_keeps(acc: Seq<Slot>, c: Slot, key: Seq<char>)
    requires
        first_slot(acc, key) < acc.len() || key == c.entry.inner_path,
    ensures
        first_slot(upsert(acc, c), key) < upsert(acc, c).len(),
{
    let u = upsert(acc, c);
    let i = first_slot(acc, c.entry.inner_path);
    lemma_first_slot(acc, c.entry.inner_path);
    lemma_first_slot(acc, key);
    lemma_first_slot(u, key);
    if first_slot(acc, key) < acc.len() {
        let k = first_slot(acc, key);
        assert(u[k].entry.inner_path == key);
    } else {
        if i >= acc.len() {
            assert(u[acc.len() as int].entry.inner_path == key);
        } else {
            assert(u[i].entry.inner_path == key);
        }
    }
}

/// The gathered children are well-formed, stand for records, are distinct,
/// and leave no record out.
pub proof fn lemma_gathered(raw: Seq<RawModel>, parent: Seq<char>, label: Seq<char>)
    ensures
        gathered_ok(raw, parent, gathered(raw, parent, label)),
    decreases raw.len(),
{
    if raw.len() > 0 {
        let before = raw.drop_last();
        let acc = gathered(before, parent, label);
        lemma_gathered(before, parent, label);
        let r = raw.last();
        let g = gathered(raw, parent, label);
        assert forall|i: int| 0 <= i < acc.len() implies key_occurs(
            raw,
            parent,
            (#[trigger] acc[i]).entry.inner_path,
        ) by {
            let key = acc[i].entry.inner_path;
            let j = choose|j: int| 0 <= j < before.len() && reaches(#[trigger] before[j], parent, key);
            assert(raw[j] == before[j]);
        }
        if survives(normalized(r.path), parent) {
            let c = candidate(r, parent, label);
            lemma_candidate(r, parent, label);
            let i0 = first_slot(acc, c.entry.inner_path);
            lemma_first_slot(acc, c.entry.inner_path);
            assert(reaches(raw[raw.len() - 1], parent, c.entry.inner_path));
            assert forall|i: int| 0 <= i < g.len() implies is_child_entry(
                (#[trigger] g[i]).entry,
                parent,
            ) && key_occurs(raw, parent, g[i].entry.inner_path) by {
                if g[i] != c {
                    assert(g[i] == acc[i]);
                }
            }
            assert forall|i: int, j: int| 0 <= i < j < g.len() implies g[i].entry.inner_path
                != g[j].entry.inner_path by {
                if i0 >= acc.len() {
                    if j < acc.len() {
                        assert(g[i] == acc[i] && g[j] == acc[j]);
                    } else {
                        assert(g[i] == acc[i] && g[j] == c);
                    }
                } else {
                    assert(g[i].entry.inner_path == acc[i].entry.inner_path);
                    assert(g[j].entry.inner_path == acc[j].entry.inner_path);
                }
            }
            assert forall|j: int|
                0 <= j < raw.len() && survives(
                    normalized((#[trigger] raw[j]).path),
                    parent,
                ) implies first_slot(g, child_key(normalized(raw[j].path), parent)) < g.len() by {
                let key = child_key(normalized(raw[j].path), parent);
                if j < before.len() {
                    assert(raw[j] == before[j]);
                }
                lemma_upsert_keeps(acc, c, key);
            }
        } else {
            assert forall|j: int|
                0 <= j < raw.len() && survives(
                    normalized((#[trigger] raw[j]).path),
                    parent,
                ) implies first_slot(g, child_key(normalized(raw[j].path), parent)) < g.len() by {
                assert(raw[j] == before[j]);
            }
        }
    }
}

/// Every entry of a listing is a direct child of the listed parent: its
/// path is its own child key, so none lies more than one segment below the
/// parent, and its name is the last segment of its path.
pub proof fn law_listed_are_direct_children(
    raw: Seq<RawModel>,
    parent: Seq<char>,
    label: Seq<char>,
)
    ensures
        forall|i: int|
            0 <= i < listing_entries(raw, parent, label).len() ==> is_child_entry(
                #[trigger] listing_entries(raw, parent, label)[i],
                parent,
            ),
{
    let g = gathered(raw, parent, label);
    let s = slot_entries(g);
    let l = listing_entries(raw, parent, label);
    lemma_gathered(raw, parent, label);
    assert forall|i: int| 0 <= i < l.len() implies is_child_entry(#[trigger] l[i], parent) by {
        lemma_sorted_from_contains(s, l[i]);
        assert(l.contains(l[i]));
        let m = choose|m: int| 0 <= m < s.len() && s[m] == l[i];
        assert(s[m] == g[m].entry);
    }
}

/// Every entry of a listing is the child through which some record below
/// the parent is reached: nothing is listed that the archive does not hold.
pub proof fn law_listed_stand_for_records(raw: Seq<RawModel>, parent: Seq<char>, label: Seq<char>)
    ensures
        forall|i: int|
            0 <= i < listing_entries(raw, parent, label).len() ==> key_occurs(
                raw,
                parent,
                (#[trigger] listing_entries(raw, parent, label)[i]).inner_path,
            ),
{
    let g = gathered(raw, parent, label);
    let s = slot_entries(g);
    let l = listing_entries(raw, parent, label);
    lemma_gathered(raw, parent, label);
    assert forall|i: int| 0 <= i < l.len() implies key_occurs(
        raw,
        parent,
        (#[trigger] l[i]).inner_path,
    ) by {
        lemma_sorted_from_contains(s, l[i]);
        assert(l.contains(l[i]));
        let m = choose|m: int| 0 <= m < s.len() && s[m] == l[i];
        assert(s[m] == g[m].entry);
    }
}

/// Every record below the parent is reached through a listed child.
pub proof fn law_every_record_is_reached(
    raw: Seq<RawModel>,
    parent: Seq<char>,
    label: Seq<char>,
    j: int,
)
    requires
        0 <= j < raw.len(),
        survives(normalized(raw[j].path), parent),
    ensures
        has_path(listing_entries(raw, parent, label), child_key(normalized(raw[j].path), parent)),
{
    let g = gathered(raw, parent, label);
    let s = slot_entries(g);
    let l = listing_entries(raw, parent, label);
    let key = child_key(normalized(raw[j].path), parent);
    lemma_gathered(raw, parent, label);
    lemma_first_slot(g, key);
    let k = first_slot(g, key);
    assert(s[k] == g[k].entry);
    assert(s.contains(s[k]));
    lemma_sorted_from_contains(s, s[k]);
    let i = choose|i: int| 0 <= i < l.len() && l[i] == s[k];
    assert(l[i].inner_path == key);
}

/// No child is listed twice.
pub proof fn law_listed_paths_distinct(raw: Seq<RawModel>, parent: Seq<char>, label: Seq<char>)
    ensures
        paths_distinct(listing_entries(raw, parent, label)),
{
    let g = gathered(raw, parent, label);
    let s = slot_entries(g);
    lemma_gathered(raw, parent, label);
    assert forall|i: int, j: int| 0 <= i < j < s.len() implies s[i].inner_path
        != s[j].inner_path by {
        assert(s[i] == g[i].entry && s[j] == g[j].entry);
    }
    lemma_sorted_from_distinct(s);
}

/// A listing is in order: directories before files, then by lower-case
/// name, then by name.
pub proof fn law_listing_is_sorted(raw: Seq<RawModel>, parent: Seq<char>, label: Seq<char>)
    ensures
        is_sorted(listing_entries(raw, parent, label)),
{
    lemma_sorted_from_is_sorted(slot_entries(gathered(raw, parent, label)));
}

/// Two listings of the same records under the same parent are the same,
/// entry by entry and in the same order.
pub proof fn law_listing_is_repeatable(
    first: Seq<EntryModel>,
    second: Seq<EntryModel>,
    raw: Seq<RawModel>,
    parent: Seq<char>,
    label: Seq<char>,
)
    requires
        first == listing_entries(raw, parent, label),
        second == listing_entries(raw, parent, label),
    ensures
        first == second,
{
}

/// Index of the first record of `raw` that counts under `parent` and whose
/// canonical path is `key`; -1 where no record names `key`.
pub open spec fn first_explicit(raw: Seq<RawModel>, parent: Seq<char>, key: Seq<char>) -> int
    decreases raw.len(),
{
    if raw.len() == 0 {
        -1
    } else {
        let before = first_explicit(raw.drop_last(), parent, key);
        if before >= 0 {
            before
        } else if survives(normalized(raw.last().path), parent) && normalized(raw.last().path)
            == key {
            raw.len() - 1
        } else {
            -1
        }
    }
}

/// The directory that is made up for the key `key` where no record names
/// it: size 0, no time, and the label `label`.
pub open spec fn made_up(key: Seq<char>, label: Seq<char>) -> EntryModel {
    EntryModel {
        name: last_segment(key),
        inner_path: key,
        is_dir: true,
        size: 0,
        compressed_size: 0,
        modified: 0,
        compression: label,
    }
}

/// The record `r` counts under `parent` and has the canonical path `key`.
pub open spec fn names_key(r: RawModel, parent: Seq<char>, key: Seq<char>) -> bool {
    survives(normalized(r.path), parent) && normalized(r.path) == key
}

/// The first record that names `key` does name it, and none before it does.
pub proof fn lemma_first_explicit(raw: Seq<RawModel>, parent: Seq<char>, key: Seq<char>)
    ensures
        -1 <= first_explicit(raw, parent, key) < raw.len(),
        first_explicit(raw, parent, key) >= 0 ==> names_key(
            raw[first_explicit(raw, parent, key)],
            parent,
            key,
        ),
        forall|j: int|
            0 <= j < raw.len() && (first_explicit(raw, parent, key) < 0 || j < first_explicit(
                raw,
                parent,
                key,
            )) ==> !names_key(#[trigger] raw[j], parent, key),
    decreases raw.len(),
{
    if raw.len() > 0 {
        let before = raw.drop_last();
        lemma_first_explicit(before, parent, key);
        let f = first_explicit(raw, parent, key);
        if first_explicit(before, parent, key) >= 0 {
            assert(raw[f] == before[f]);
        }
        assert forall|j: int| 0 <= j < raw.len() && (f < 0 || j < f) implies !names_key(
            #[trigger] raw[j],
            parent,
            key,
        ) by {
            if j < before.len() {
                assert(raw[j] == before[j]);
            }
        }
    }
}

/// Each gathered child is the entry of the first record that names its
/// path, and is made up where no record does.
pub open spec fn precedence_ok(
    raw: Seq<RawModel>,
    parent: Seq<char>,
    label: Seq<char>,
    acc: Seq<Slot>,
) -> bool {
    forall|i: int|
        0 <= i < acc.len() ==> {
            let slot = #[trigger] acc[i];
            let f = first_explicit(raw, parent, slot.entry.inner_path);
            if f >= 0 {
                slot.explicit && f < raw.len() && slot.entry == candidate(
                    raw[f],
                    parent,
                    label,
                ).entry
            } else {
                !slot.explicit && slot.entry == made_up(slot.entry.inner_path, label)
            }
        }
}

/// Explicit metadata wins, whatever the order of the records.
pub proof fn lemma_gathered_precedence(raw: Seq<RawModel>, parent: Seq<char>, label: Seq<char>)
    ensures
        precedence_ok(raw, parent, label, gathered(raw, parent, label)),
    decreases raw.len(),
{
    if raw.len() > 0 {
        let before = raw.drop_last();
        let acc = gathered(before, parent, label);
        lemma_gathered_precedence(before, parent, label);
        lemma_gathered(before, parent, label);
        lemma_gathered(raw, parent, label);
        let r = raw.last();
        let n = normalized(r.path);
        let g = gathered(raw, parent, label);
        if survives(n, parent) {
            let c = candidate(r, parent, label);
            lemma_candidate(r, parent, label);
            let kc = c.entry.inner_path;
            let i0 = first_slot(acc, kc);
            lemma_first_slot(acc, kc);
            assert forall|i: int| 0 <= i < g.len() implies {
                let slot = #[trigger] g[i];
                let f = first_explicit(raw, parent, slot.entry.inner_path);
                if f >= 0 {
                    slot.explicit && f < raw.len() && slot.entry == candidate(
                        raw[f],
                        parent,
                        label,
                    ).entry
                } else {
                    !slot.explicit && slot.entry == made_up(slot.entry.inner_path, label)
                }
            } by {
                let slot = g[i];
                let k = slot.entry.inner_path;
                let fb = first_explicit(before, parent, k);
                lemma_first_explicit(before, parent, k);
                if fb >= 0 {
                    assert(raw[fb] == before[fb]);
                }
                if i < acc.len() && g[i] == acc[i] {
                    // an old slot that stayed as it was
                    if fb < 0 && n == k {
                        assert(kc == k);
                        assert(i == i0);
                        assert(!acc[i].explicit);
                        assert(false);
                    }
                } else {
                    // the slot of the record just met
                    assert(slot == c);
                    if fb >= 0 {
                        // a record before names the key, so the key had an explicit slot
                        assert(before[fb] == raw[fb]);
                        assert(first_slot(acc, child_key(normalized(before[fb].path), parent))
                            < acc.len());
                        assert(acc[i0].explicit);
                        assert(false);
                    }
                    if !c.explicit {
                        lemma_child_name_is_last_segment(n, parent);
                    }
                }
            }
        } else {
            assert forall|i: int| 0 <= i < g.len() implies {
                let slot = #[trigger] g[i];
                let f = first_explicit(raw, parent, slot.entry.inner_path);
                if f >= 0 {
                    slot.explicit && f < raw.len() && slot.entry == candidate(
                        raw[f],
                        parent,
                        label,
                    ).entry
                } else {
                    !slot.explicit && slot.entry == made_up(slot.entry.inner_path, label)
                }
            } by {
                let k = g[i].entry.inner_path;
                let fb = first_explicit(before, parent, k);
                lemma_first_explicit(before, parent, k);
                if fb >= 0 {
                    assert(raw[fb] == before[fb]);
                }
            }
        }
    }
}

/// Explicit metadata wins over a made-up directory, whatever the order of
/// the records: a listed entry is that of the first record that names its
/// path, and is a made-up directory only where no record names it.
pub proof fn law_explicit_record_wins(raw: Seq<RawModel>, parent: Seq<char>, label: Seq<char>)
    ensures
        forall|i: int|
            0 <= i < listing_entries(raw, parent, label).len() ==> {
                let e = #[trigger] listing_entries(raw, parent, label)[i];
                let f = first_explicit(raw, parent, e.inner_path);
                if f >= 0 {
                    f < raw.len() && e == candidate(raw[f], parent, label).entry
                } else {
                    e == made_up(e.inner_path, label)
                }
            },
{
    let g = gathered(raw, parent, label);
    let s = slot_entries(g);
    let l = listing_entries(raw, parent, label);
    lemma_gathered_precedence(raw, parent, label);
    assert forall|i: int| 0 <= i < l.len() implies {
        let e = #[trigger] l[i];
        let f = first_explicit(raw, parent, e.inner_path);
        if f >= 0 {
            f < raw.len() && e == candidate(raw[f], parent, label).entry
        } else {
            e == made_up(e.inner_path, label)
        }
    } by {
        lemma_sorted_from_contains(s, l[i]);
        assert(l.contains(l[i]));
        let m = choose|m: int| 0 <= m < s.len() && s[m] == l[i];
        assert(s[m] == g[m].entry);
    }
}

} // verus!

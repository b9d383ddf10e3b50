//! The listing of one level of an archive: the records below a parent are
//! collapsed into its direct children, directories that no record names are
//! made up, and the children are put in order.

use vstd::prelude::*;
use crate::model::{
    entry_models, raw_models, total_size_of, ArchiveEntry, ArchiveEntryType, ArchiveListing,
    EntryModel, RawEntry, RawModel,
};
use crate::paths::{
    child_end_chars, child_key, child_name, descends_from, is_descendant_chars,
    lemma_child_key_is_prefix, normalise_chars, normalise_inner, normalized, same_chars,
};
use crate::laws::{
    is_child_entry, law_listed_are_direct_children, law_listed_paths_distinct,
    law_listing_is_sorted, paths_distinct,
};
use crate::text::{chars_lt, chars_of, lex_lt, lowercase_of, string_of, to_lower};

verus! {

/// A child found so far, and whether a record named it (`explicit`) or it
/// was made up for a deeper record.
pub struct Slot {
    pub entry: EntryModel,
    pub explicit: bool,
}

/// A record with canonical path `n` counts for the listing of `parent`: it
/// has a name, is not the parent itself, and lies in the parent's subtree.
pub open spec fn survives(n: Seq<char>, parent: Seq<char>) -> bool {
    n.len() > 0 && n != parent && descends_from(n, parent)
}

/// The child that a surviving record stands for. A record that is itself a
/// direct child brings its own metadata; a deeper one stands for a
/// directory of size 0 with the label `label`.
pub open spec fn candidate(r: RawModel, parent: Seq<char>, label: Seq<char>) -> Slot {
    let n = normalized(r.path);
    if child_key(n, parent) == n {
        Slot {
            entry: EntryModel {
                name: child_name(n, parent),
                inner_path: n,
                is_dir: r.is_dir,
                size: r.size,
                compressed_size: r.compressed_size,
                modified: r.modified,
                compression: r.compression,
            },
            explicit: true,
        }
    } else {
        Slot {
            entry: EntryModel {
                name: child_name(n, parent),
                inner_path: child_key(n, parent),
                is_dir: true,
                size: 0,
                compressed_size: 0,
                modified: 0,
                compression: label,
            },
            explicit: false,
        }
    }
}

/// Index of the first slot with path `key`; the length where there is none.
pub open spec fn first_slot(acc: Seq<Slot>, key: Seq<char>) -> int
    decreases acc.len(),
{
    if acc.len() == 0 || acc[0].entry.inner_path == key {
        0
    } else {
        1 + first_slot(acc.drop_first(), key)
    }
}

/// `acc` after the child `c` was met: a new key is appended, a made-up
/// child gives way to an explicit one, and otherwise the first stays.
pub open spec fn upsert(acc: Seq<Slot>, c: Slot) -> Seq<Slot> {
    let i = first_slot(acc, c.entry.inner_path);
    if i >= acc.len() {
        acc.push(c)
    } else if c.explicit && !acc[i].explicit {
        acc.update(i, c)
    } else {
        acc
    }
}

/// The children of `parent` that the records `raw` give, in the order in
/// which their keys are first met.
pub open spec fn gathered(raw: Seq<RawModel>, parent: Seq<char>, label: Seq<char>) -> Seq<Slot>
    decreases raw.len(),
{
    if raw.len() == 0 {
        Seq::<Slot>::empty()
    } else {
        let acc = gathered(raw.drop_last(), parent, label);
        let r = raw.last();
        if survives(normalized(r.path), parent) {
            upsert(acc, candidate(r, parent, label))
        } else {
            acc
        }
    }
}

/// The entries of the slots.
pub open spec fn slot_entries(s: Seq<Slot>) -> Seq<EntryModel> {
    Seq::new(s.len(), |i: int| s[i].entry)
}

/// `a` must stand before `b` in a listing: directories before files, then
/// by the lower-case name, then by the name as it is.
pub open spec fn sort_before(a: EntryModel, b: EntryModel) -> bool {
    if a.is_dir != b.is_dir {
        a.is_dir
    } else {
        let la = lowercase_of(a.name);
        let lb = lowercase_of(b.name);
        lex_lt(la, lb) || (la == lb && lex_lt(a.name, b.name))
    }
}

/// No entry of `s` stands behind one that must come after it.
pub open spec fn is_sorted(s: Seq<EntryModel>) -> bool {
    forall|i: int, j: int| 0 <= i < j < s.len() ==> !sort_before(s[j], s[i])
}

/// Index of the first entry of `s` that `e` must stand before; the length
/// where there is none.
pub open spec fn insert_point(s: Seq<EntryModel>, e: EntryModel) -> int
    decreases s.len(),
{
    if s.len() == 0 || sort_before(e, s[0]) {
        0
    } else {
        1 + insert_point(s.drop_first(), e)
    }
}

/// The entries of `s` in listing order.
pub open spec fn sorted_from(s: Seq<EntryModel>) -> Seq<EntryModel>
    decreases s.len(),
{
    if s.len() == 0 {
        Seq::<EntryModel>::empty()
    } else {
        let t = sorted_from(s.drop_first());
        t.insert(insert_point(t, s[0]), s[0])
    }
}

/// The entries of the listing of `parent` (a canonical path) over the
/// records `raw`.
pub open spec fn listing_entries(
    raw: Seq<RawModel>,
    parent: Seq<char>,
    label: Seq<char>,
) -> Seq<EntryModel> {
    sorted_from(slot_entries(gathered(raw, parent, label)))
}

/// The first slot of a key has the key, and no slot before it has.
pub proof fn lemma_first_slot(acc: Seq<Slot>, key: Seq<char>)
    ensures
        0 <= first_slot(acc, key) <= acc.len(),
        forall|j: int| 0 <= j < first_slot(acc, key) ==> acc[j].entry.inner_path != key,
        first_slot(acc, key) < acc.len() ==> acc[first_slot(acc, key)].entry.inner_path == key,
    decreases acc.len(),
{
    if !(acc.len() == 0 || acc[0].entry.inner_path == key) {
        let q = acc.drop_first();
        lemma_first_slot(q, key);
        assert forall|j: int| 0 <= j < first_slot(acc, key) implies acc[j].entry.inner_path
            != key by {
            if j > 0 {
                assert(acc[j] == q[j - 1]);
            }
        }
        if first_slot(acc, key) < acc.len() {
            assert(acc[first_slot(acc, key)] == q[first_slot(q, key)]);
        }
    }
}

/// A slot that has the key, with none before it that has, is the first.
proof fn lemma_first_slot_is(acc: Seq<Slot>, key: Seq<char>, i: int)
    requires
        0 <= i <= acc.len(),
        forall|j: int| 0 <= j < i ==> acc[j].entry.inner_path != key,
        i < acc.len() ==> acc[i].entry.inner_path == key,
    ensures
        first_slot(acc, key) == i,
    decreases i,
{
    if i > 0 {
        let q = acc.drop_first();
        assert forall|j: int| 0 <= j < i - 1 implies q[j].entry.inner_path != key by {
            assert(q[j] == acc[j + 1]);
        }
        if i - 1 < q.len() {
            assert(q[i - 1] == acc[i]);
        }
        lemma_first_slot_is(q, key, i - 1);
    }
}

/// The first entry that `e` must stand before, with none before it, is the
/// insert point.
proof fn lemma_insert_point_is(s: Seq<EntryModel>, e: EntryModel, i: int)
    requires
        0 <= i <= s.len(),
        forall|j: int| 0 <= j < i ==> !sort_before(e, s[j]),
        i < s.len() ==> sort_before(e, s[i]),
    ensures
        insert_point(s, e) == i,
    decreases i,
{
    if i > 0 {
        let q = s.drop_first();
        assert forall|j: int| 0 <= j < i - 1 implies !sort_before(e, q[j]) by {
            assert(q[j] == s[j + 1]);
        }
        if i - 1 < q.len() {
            assert(q[i - 1] == s[i]);
        }
        lemma_insert_point_is(q, e, i - 1);
    }
}

/// `e` must stand before the entry at its insert point, and before none of
/// those in front of it.
pub proof fn lemma_insert_point(s: Seq<EntryModel>, e: EntryModel)
    ensures
        0 <= insert_point(s, e) <= s.len(),
        forall|j: int| 0 <= j < insert_point(s, e) ==> !sort_before(e, s[j]),
        insert_point(s, e) < s.len() ==> sort_before(e, s[insert_point(s, e)]),
    decreases s.len(),
{
    if !(s.len() == 0 || sort_before(e, s[0])) {
        let q = s.drop_first();
        lemma_insert_point(q, e);
        assert forall|j: int| 0 <= j < insert_point(s, e) implies !sort_before(e, s[j]) by {
            if j > 0 {
                assert(s[j] == q[j - 1]);
            }
        }
        if insert_point(s, e) < s.len() {
            assert(s[insert_point(s, e)] == q[insert_point(q, e)]);
        }
    }
}

/// A child under work: the entry, whether a record named it, and the
/// characters of its path and name.
struct Pending {
    entry: ArchiveEntry,
    explicit: bool,
    path: Vec<char>,
    name: Vec<char>,
}

/// What an entry is ordered by.
struct SortKey {
    is_dir: bool,
    folded: Vec<char>,
    name: Vec<char>,
}

/// The characters kept beside each entry are those of its path and name.
spec fn pending_ok(v: Seq<Pending>) -> bool {
    forall|i: int|
        0 <= i < v.len() ==> (#[trigger] v[i]).path@ == v[i].entry.inner_path@ && v[i].name@
            == v[i].entry.name@
}

/// The children under work as slots.
spec fn pending_slots(v: Seq<Pending>) -> Seq<Slot> {
    Seq::new(v.len(), |i: int| Slot { entry: v[i].entry@, explicit: v[i].explicit })
}

/// Each key is the one that its entry is ordered by.
spec fn keys_ok(keys: Seq<SortKey>, out: Seq<ArchiveEntry>) -> bool {
    &&& keys.len() == out.len()
    &&& forall|i: int|
        0 <= i < keys.len() ==> (#[trigger] keys[i]).is_dir == out[i]@.is_dir && keys[i].name@
            == out[i]@.name && keys[i].folded@ == lowercase_of(out[i]@.name)
}

/// The listing order on keys.
spec fn key_before(a: SortKey, b: SortKey) -> bool {
    if a.is_dir != b.is_dir {
        a.is_dir
    } else {
        lex_lt(a.folded@, b.folded@) || (a.folded@ == b.folded@ && lex_lt(a.name@, b.name@))
    }
}

/// Whether the entry of `a` must stand before that of `b`.
fn key_lt(a: &SortKey, b: &SortKey) -> (r: bool)
    ensures
        r == key_before(*a, *b),
{
    if a.is_dir != b.is_dir {
        a.is_dir
    } else if chars_lt(&a.folded, &b.folded) {
        true
    } else {
        same_chars(&a.folded, &b.folded) && chars_lt(&a.name, &b.name)
    }
}

/// The characters `chars[from..to]`.
fn sub_chars(chars: &Vec<char>, from: usize, to: usize) -> (out: Vec<char>)
    requires
        from <= to <= chars.len(),
    ensures
        out@ == chars@.subrange(from as int, to as int),
{
    let mut out: Vec<char> = Vec::new();
    let mut i: usize = from;
    while i < to
        invariant
            from <= i <= to <= chars.len(),
            out@ == chars@.subrange(from as int, i as int),
        decreases to - i,
    {
        out.push(chars[i]);
        i += 1;
        assert(out@ =~= chars@.subrange(from as int, i as int));
    }
    out
}

/// Index of the first child with path `key`; the length where there is
/// none.
fn find_slot(slots: &Vec<Pending>, key: &Vec<char>) -> (j: usize)
    requires
        pending_ok(slots@),
    ensures
        j == first_slot(pending_slots(slots@), key@),
        j <= slots.len(),
{
    let mut j: usize = 0;
    while j < slots.len()
        invariant
            j <= slots.len(),
            pending_ok(slots@),
            forall|k: int| 0 <= k < j ==> pending_slots(slots@)[k].entry.inner_path != key@,
        decreases slots.len() - j,
    {
        if same_chars(&slots[j].path, key) {
            proof {
                assert(slots@[j as int].path@ == slots@[j as int].entry.inner_path@);
                lemma_first_slot_is(pending_slots(slots@), key@, j as int);
            }
            return j;
        }
        assert(slots@[j as int].path@ == slots@[j as int].entry.inner_path@);
        j += 1;
    }
    proof {
        lemma_first_slot_is(pending_slots(slots@), key@, j as int);
    }
    j
}

/// The child that the surviving record `r`, with canonical path `n`, stands
/// for under `parent`.
fn make_pending(r: &RawEntry, n: &Vec<char>, parent: &Vec<char>, label: &str) -> (p: Pending)
    requires
        n@ == normalized(r@.path),
        survives(n@, parent@),
    ensures
        p.path@ == p.entry.inner_path@,
        p.name@ == p.entry.name@,
        (Slot { entry: p.entry@, explicit: p.explicit }) == candidate(r@, parent@, label@),
{
    let end = child_end_chars(n, parent);
    let start: usize = if parent.len() == 0 {
        0
    } else {
        parent.len() + 1
    };
    proof {
        lemma_child_key_is_prefix(n@, parent@);
        if end == n.len() {
            assert(n@.take(end as int) =~= n@);
        }
    }
    let explicit = end == n.len();
    let path = sub_chars(n, 0, end);
    let name = sub_chars(n, start, end);
    let entry = if explicit {
        ArchiveEntry {
            name: string_of(n, start, end),
            inner_path: string_of(n, 0, end),
            entry_type: if r.is_dir {
                ArchiveEntryType::Directory
            } else {
                ArchiveEntryType::File
            },
            size: r.size,
            compressed_size: r.compressed_size,
            modified: r.modified,
            compression: r.compression.clone(),
        }
    } else {
        ArchiveEntry {
            name: string_of(n, start, end),
            inner_path: string_of(n, 0, end),
            entry_type: ArchiveEntryType::Directory,
            size: 0,
            compressed_size: 0,
            modified: 0,
            compression: label.to_owned(),
        }
    };
    Pending { entry, explicit, path, name }
}

/// The children of `parent` that the records give, in the order in which
/// their keys are first met.
fn gather(raw: &Vec<RawEntry>, parent: &Vec<char>, label: &str) -> (slots: Vec<Pending>)
    ensures
        pending_ok(slots@),
        pending_slots(slots@) == gathered(raw_models(raw@), parent@, label@),
{
    let mut slots: Vec<Pending> = Vec::new();
    let mut i: usize = 0;
    assert(raw_models(raw@).take(0) =~= Seq::<RawModel>::empty());
    assert(pending_slots(slots@) =~= Seq::<Slot>::empty());
    while i < raw.len()
        invariant
            i <= raw.len(),
            pending_ok(slots@),
            pending_slots(slots@) == gathered(raw_models(raw@).take(i as int), parent@, label@),
        decreases raw.len() - i,
    {
        let r = &raw[i];
        let ghost before = raw_models(raw@).take(i as int);
        let ghost now = raw_models(raw@).take(i + 1);
        proof {
            assert(now.drop_last() =~= before);
            assert(now.last() == r@);
        }
        let n = normalise_chars(r.path.as_str());
        if n.len() > 0 && !same_chars(&n, parent) && is_descendant_chars(&n, parent) {
            let p = make_pending(r, &n, parent, label);
            let j = find_slot(&slots, &p.path);
            let ghost acc = pending_slots(slots@);
            let ghost c = candidate(r@, parent@, label@);
            if j == slots.len() {
                slots.push(p);
                assert(pending_slots(slots@) =~= acc.push(c));
            } else if p.explicit && !slots[j].explicit {
                slots.set(j, p);
                assert(pending_slots(slots@) =~= acc.update(j as int, c));
            }
        }
        i += 1;
    }
    assert(raw_models(raw@).take(raw.len() as int) =~= raw_models(raw@));
    slots
}

/// The entries of the children in listing order.
fn sort_pending(slots: Vec<Pending>) -> (out: Vec<ArchiveEntry>)
    requires
        pending_ok(slots@),
    ensures
        entry_models(out@) == sorted_from(slot_entries(pending_slots(slots@))),
{
    let ghost src = slot_entries(pending_slots(slots@));
    let mut slots = slots;
    let mut out: Vec<ArchiveEntry> = Vec::new();
    let mut keys: Vec<SortKey> = Vec::new();
    assert(src.skip(src.len() as int) =~= Seq::<EntryModel>::empty());
    assert(entry_models(out@) =~= Seq::<EntryModel>::empty());
    while slots.len() > 0
        invariant
            pending_ok(slots@),
            slots.len() <= src.len(),
            slot_entries(pending_slots(slots@)) == src.take(slots.len() as int),
            entry_models(out@) == sorted_from(src.skip(slots.len() as int)),
            keys_ok(keys@, out@),
        decreases slots.len(),
    {
        let ghost m = slots.len() as int;
        let ghost prev = slots@;
        let p = slots.pop().unwrap();
        proof {
            assert(p == prev[m - 1]);
            assert(slot_entries(pending_slots(prev))[m - 1] == p.entry@);
            assert(src[m - 1] == p.entry@);
            assert(slot_entries(pending_slots(slots@)) =~= src.take(m - 1));
            assert(src.skip(m - 1).drop_first() =~= src.skip(m));
            assert(src.skip(m - 1)[0] == p.entry@);
        }
        let lowered = to_lower(p.entry.name.as_str());
        let key = SortKey {
            is_dir: p.entry.entry_type == ArchiveEntryType::Directory,
            folded: chars_of(lowered.as_str()),
            name: p.name,
        };
        let mut i: usize = 0;
        while i < keys.len() && !key_lt(&key, &keys[i])
            invariant
                i <= keys.len(),
                keys_ok(keys@, out@),
                key.is_dir == p.entry@.is_dir,
                key.name@ == p.entry@.name,
                key.folded@ == lowercase_of(p.entry@.name),
                forall|j: int| 0 <= j < i ==> !sort_before(p.entry@, entry_models(out@)[j]),
            decreases keys.len() - i,
        {
            assert(keys@[i as int].is_dir == out@[i as int]@.is_dir);
            i += 1;
        }
        proof {
            if i < keys.len() {
                assert(keys@[i as int].is_dir == out@[i as int]@.is_dir);
                assert(sort_before(p.entry@, entry_models(out@)[i as int]));
            }
            lemma_insert_point_is(entry_models(out@), p.entry@, i as int);
        }
        let ghost old_out = out@;
        let ghost old_keys = keys@;
        let ghost e = p.entry@;
        out.insert(i, p.entry);
        keys.insert(i, key);
        proof {
            assert(entry_models(out@) =~= entry_models(old_out).insert(i as int, e));
            assert forall|k: int| 0 <= k < keys@.len() implies (#[trigger] keys@[k]).is_dir
                == out@[k]@.is_dir && keys@[k].name@ == out@[k]@.name && keys@[k].folded@
                == lowercase_of(out@[k]@.name) by {
                if k < i {
                    assert(keys@[k] == old_keys[k]);
                    assert(out@[k] == old_out[k]);
                } else if k > i {
                    assert(keys@[k] == old_keys[k - 1]);
                    assert(out@[k] == old_out[k - 1]);
                }
            }
        }
    }
    assert(src.skip(0) =~= src);
    out
}

/// The direct children of `inner_path` that the records `raw` give, in
/// listing order. `synth_label` is the compression label of a directory
/// that no record names.
pub fn list_entries(raw: &Vec<RawEntry>, inner_path: &str, synth_label: &str) -> (out: Vec<
    ArchiveEntry,
>)
    ensures
        entry_models(out@) == listing_entries(
            raw_models(raw@),
            normalized(inner_path@),
            synth_label@,
        ),
        forall|i: int|
            0 <= i < out.len() ==> is_child_entry((#[trigger] out@[i])@, normalized(inner_path@)),
        paths_distinct(entry_models(out@)),
        is_sorted(entry_models(out@)),
{
    let parent = normalise_chars(inner_path);
    let slots = gather(raw, &parent, synth_label);
    let out = sort_pending(slots);
    proof {
        let listed = entry_models(out@);
        law_listed_are_direct_children(raw_models(raw@), parent@, synth_label@);
        law_listed_paths_distinct(raw_models(raw@), parent@, synth_label@);
        law_listing_is_sorted(raw_models(raw@), parent@, synth_label@);
        assert forall|i: int| 0 <= i < out.len() implies is_child_entry(
            (#[trigger] out@[i])@,
            parent@,
        ) by {
            assert(listed[i] == out@[i]@);
        }
    }
    out
}

/// The sum of the sizes of `entries`, where it fits.
pub fn checked_total_size(entries: &Vec<ArchiveEntry>) -> (r: Option<u64>)
    ensures
        r.is_some() <==> total_size_of(entry_models(entries@)) <= u64::MAX,
        r.is_some() ==> r.unwrap() == total_size_of(entry_models(entries@)),
{
    let ghost all = entry_models(entries@);
    let mut sum: u64 = 0;
    let mut i: usize = 0;
    assert(all.take(0) =~= Seq::<EntryModel>::empty());
    while i < entries.len()
        invariant
            i <= entries.len(),
            all == entry_models(entries@),
            sum == total_size_of(all.take(i as int)),
        decreases entries.len() - i,
    {
        proof {
            assert(all.take(i + 1).drop_last() =~= all.take(i as int));
            assert(all.take(i + 1).last() == entries@[i as int]@);
        }
        match sum.checked_add(entries[i].size) {
            Some(s) => {
                sum = s;
            },
            None => {
                proof {
                    lemma_total_size_grows(all, i + 1);
                }
                return None;
            },
        }
        i += 1;
    }
    assert(all.take(entries.len() as int) =~= all);
    Some(sum)
}

/// The sum over a prefix is at most the sum over the whole.
pub proof fn lemma_total_size_grows(s: Seq<EntryModel>, k: int)
    requires
        0 <= k <= s.len(),
    ensures
        total_size_of(s.take(k)) <= total_size_of(s),
    decreases s.len() - k,
{
    if k == s.len() {
        assert(s.take(k) =~= s);
    } else {
        lemma_total_size_grows(s, k + 1);
        assert(s.take(k + 1).drop_last() =~= s.take(k));
    }
}

/// What `build_listing` returns, as a predicate on the listing.
pub open spec fn is_listing_of(
    l: ArchiveListing,
    archive_path: Seq<char>,
    inner_path: Seq<char>,
    format: Seq<char>,
    synth_label: Seq<char>,
    raw: Seq<RawModel>,
) -> bool {
    &&& l.archive_path@ == archive_path
    &&& l.inner_path@ == normalized(inner_path)
    &&& l.format@ == format
    &&& entry_models(l.entries@) == listing_entries(raw, normalized(inner_path), synth_label)
    &&& l.total_size == total_size_of(entry_models(l.entries@))
}

/// The listing of `inner_path` over the records `raw`, where the sizes of
/// the listed children add up to a `u64`; `None` where they do not.
pub fn build_listing(
    archive_path: &str,
    inner_path: &str,
    format: &str,
    synth_label: &str,
    raw: &Vec<RawEntry>,
) -> (r: Option<ArchiveListing>)
    ensures
        r.is_some() <==> total_size_of(
            listing_entries(raw_models(raw@), normalized(inner_path@), synth_label@),
        ) <= u64::MAX,
        r.is_some() ==> is_listing_of(
            r.unwrap(),
            archive_path@,
            inner_path@,
            format@,
            synth_label@,
            raw_models(raw@),
        ),
{
    let entries = list_entries(raw, inner_path, synth_label);
    match checked_total_size(&entries) {
        Some(total_size) => Some(
            ArchiveListing {
                archive_path: archive_path.to_owned(),
                inner_path: normalise_inner(inner_path),
                format: format.to_owned(),
                entries,
                total_size,
            },
        ),
        None => None,
    }
}

} // verus!

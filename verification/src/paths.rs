//! Inner paths: canonical form, the descendant relation and the key that
//! collapses a deep descendant into one direct child of a parent.
//!
//! A path is modelled as its sequence of characters. The empty sequence is
//! the archive root.

use vstd::prelude::*;
use crate::text::{chars_of, string_of};

verus! {

/// A backslash becomes a forward slash; every other character stays.
pub open spec fn slash_of(c: char) -> char {
    if c == '\\' {
        '/'
    } else {
        c
    }
}

/// `p` with every backslash replaced by a forward slash.
pub open spec fn with_forward_slashes(p: Seq<char>) -> Seq<char> {
    Seq::new(p.len(), |i: int| slash_of(p[i]))
}

/// How many `/` stand at the front of `p`.
pub open spec fn leading_slashes(p: Seq<char>) -> nat
    decreases p.len(),
{
    if p.len() > 0 && p[0] == '/' {
        1 + leading_slashes(p.drop_first())
    } else {
        0
    }
}

/// How many `/` stand at the end of `p`.
pub open spec fn trailing_slashes(p: Seq<char>) -> nat
    decreases p.len(),
{
    if p.len() > 0 && p.last() == '/' {
        1 + trailing_slashes(p.drop_last())
    } else {
        0
    }
}

/// `p` without its leading and trailing `/`.
pub open spec fn trim_slashes(p: Seq<char>) -> Seq<char> {
    let rest = p.skip(leading_slashes(p) as int);
    rest.take(rest.len() - trailing_slashes(rest))
}

/// The canonical form of an inner path: forward slashes only, none at
/// either end.
pub open spec fn normalized(p: Seq<char>) -> Seq<char> {
    trim_slashes(with_forward_slashes(p))
}

/// A path in canonical form: no backslash, no `/` at either end.
pub open spec fn is_normalized(p: Seq<char>) -> bool {
    &&& forall|i: int| 0 <= i < p.len() ==> p[i] != '\\'
    &&& p.len() > 0 ==> p[0] != '/' && p.last() != '/'
}

/// `entry` lies strictly below `parent`: it is `parent`, a `/`, and more.
pub open spec fn has_dir_prefix(entry: Seq<char>, parent: Seq<char>) -> bool {
    &&& entry.len() > parent.len()
    &&& entry.take(parent.len() as int) == parent
    &&& entry[parent.len() as int] == '/'
}

/// `entry` is in the subtree of `parent`. Everything is under the root, and
/// a path is under itself.
pub open spec fn descends_from(entry: Seq<char>, parent: Seq<char>) -> bool {
    parent.len() == 0 || entry == parent || has_dir_prefix(entry, parent)
}

/// Where the part of `entry` below `parent` begins.
pub open spec fn child_start(parent: Seq<char>) -> int {
    if parent.len() == 0 {
        0
    } else {
        parent.len() as int + 1
    }
}

/// `child_key` and `is_direct_child` are meant for these pairs: any entry
/// against the root, and an entry strictly below a named parent.
pub open spec fn below(entry: Seq<char>, parent: Seq<char>) -> bool {
    parent.len() == 0 || has_dir_prefix(entry, parent)
}

/// Length of the run of characters up to the first `/` of `s`.
pub open spec fn segment_len(s: Seq<char>) -> nat
    decreases s.len(),
{
    if s.len() == 0 || s[0] == '/' {
        0
    } else {
        1 + segment_len(s.drop_first())
    }
}

/// The first `/`-delimited segment of `s`.
pub open spec fn first_segment(s: Seq<char>) -> Seq<char> {
    s.take(segment_len(s) as int)
}

/// The segment after the last `/` of `p` (all of `p` where it has none).
pub open spec fn last_segment(p: Seq<char>) -> Seq<char>
    decreases p.len(),
{
    if p.len() == 0 || p.last() == '/' {
        Seq::<char>::empty()
    } else {
        last_segment(p.drop_last()).push(p.last())
    }
}

/// The name of the direct child of `parent` through which `entry` is
/// reached.
pub open spec fn child_name(entry: Seq<char>, parent: Seq<char>) -> Seq<char> {
    first_segment(entry.skip(child_start(parent)))
}

/// The direct child of `parent` through which `entry` is reached: its first
/// segment under the root, else `parent`, a `/` and the first segment of
/// what follows `parent/` in `entry`.
pub open spec fn child_key(entry: Seq<char>, parent: Seq<char>) -> Seq<char> {
    if parent.len() == 0 {
        first_segment(entry)
    } else {
        parent + seq!['/'] + child_name(entry, parent)
    }
}

/// `entry` is exactly one segment below `parent`.
pub open spec fn is_direct_child_of(entry: Seq<char>, parent: Seq<char>) -> bool {
    &&& below(entry, parent)
    &&& forall|i: int| child_start(parent) <= i < entry.len() ==> entry[i] != '/'
}

/// The leading slashes are slashes, and what follows them is none.
pub proof fn lemma_leading_slashes(p: Seq<char>)
    ensures
        leading_slashes(p) <= p.len(),
        forall|i: int| 0 <= i < leading_slashes(p) ==> p[i] == '/',
        leading_slashes(p) < p.len() ==> p[leading_slashes(p) as int] != '/',
    decreases p.len(),
{
    if p.len() > 0 && p[0] == '/' {
        let q = p.drop_first();
        lemma_leading_slashes(q);
        assert forall|i: int| 0 <= i < leading_slashes(p) implies p[i] == '/' by {
            if i > 0 {
                assert(p[i] == q[i - 1]);
            }
        }
        if leading_slashes(p) < p.len() {
            assert(p[leading_slashes(p) as int] == q[leading_slashes(q) as int]);
        }
    }
}

/// The trailing slashes are slashes, and what stands before them is none.
pub proof fn lemma_trailing_slashes(p: Seq<char>)
    ensures
        trailing_slashes(p) <= p.len(),
        forall|i: int| p.len() - trailing_slashes(p) <= i < p.len() ==> p[i] == '/',
        trailing_slashes(p) < p.len() ==> p[p.len() - trailing_slashes(p) - 1] != '/',
    decreases p.len(),
{
    if p.len() > 0 && p.last() == '/' {
        let q = p.drop_last();
        lemma_trailing_slashes(q);
        assert forall|i: int| p.len() - trailing_slashes(p) <= i < p.len() implies p[i]
            == '/' by {
            if i < p.len() - 1 {
                assert(p[i] == q[i]);
            }
        }
        if trailing_slashes(p) < p.len() {
            assert(p[p.len() - trailing_slashes(p) - 1] == q[q.len() - trailing_slashes(q) - 1]);
        }
    }
}

/// A run of `k` slashes at the front that stops at `k` is the whole run.
pub proof fn lemma_leading_is(p: Seq<char>, k: int)
    requires
        0 <= k <= p.len(),
        forall|i: int| 0 <= i < k ==> p[i] == '/',
        k < p.len() ==> p[k] != '/',
    ensures
        leading_slashes(p) == k,
    decreases k,
{
    if k > 0 {
        let q = p.drop_first();
        assert forall|i: int| 0 <= i < k - 1 implies q[i] == '/' by {
            assert(q[i] == p[i + 1]);
        }
        if k - 1 < q.len() {
            assert(q[k - 1] == p[k]);
        }
        lemma_leading_is(q, k - 1);
    }
}

/// A run of `k` slashes at the end that stops there is the whole run.
pub proof fn lemma_trailing_is(p: Seq<char>, k: int)
    requires
        0 <= k <= p.len(),
        forall|i: int| p.len() - k <= i < p.len() ==> p[i] == '/',
        k < p.len() ==> p[p.len() - k - 1] != '/',
    ensures
        trailing_slashes(p) == k,
    decreases k,
{
    if k > 0 {
        let q = p.drop_last();
        assert forall|i: int| q.len() - (k - 1) <= i < q.len() implies q[i] == '/' by {
            assert(q[i] == p[i]);
        }
        if k - 1 < q.len() {
            assert(q[q.len() - (k - 1) - 1] == p[p.len() - k - 1]);
        }
        lemma_trailing_is(q, k - 1);
    }
}

/// The canonical form of any path is in canonical form.
pub proof fn lemma_normalized_is_normalized(p: Seq<char>)
    ensures
        is_normalized(normalized(p)),
{
    let w = with_forward_slashes(p);
    lemma_leading_slashes(w);
    let rest = w.skip(leading_slashes(w) as int);
    lemma_trailing_slashes(rest);
    let n = normalized(p);
    assert(n == rest.take(rest.len() - trailing_slashes(rest)));
    assert forall|i: int| 0 <= i < n.len() implies n[i] != '\\' by {
        assert(n[i] == w[i + leading_slashes(w)]);
    }
    if n.len() > 0 {
        assert(n[0] == w[leading_slashes(w) as int]);
        assert(n.last() == rest[rest.len() - trailing_slashes(rest) - 1]);
    }
}

/// A path in canonical form is its own canonical form.
pub proof fn lemma_normalized_fixed(p: Seq<char>)
    requires
        is_normalized(p),
    ensures
        normalized(p) == p,
{
    let w = with_forward_slashes(p);
    assert(w =~= p);
    lemma_leading_is(p, 0);
    let rest = p.skip(0);
    assert(rest =~= p);
    lemma_trailing_is(p, 0);
    assert(p.take(p.len() as int) =~= p);
}

/// Normalising twice is the same as normalising once.
pub proof fn lemma_normalize_idempotent(p: Seq<char>)
    ensures
        normalized(normalized(p)) == normalized(p),
{
    lemma_normalized_is_normalized(p);
    lemma_normalized_fixed(normalized(p));
}

/// The first segment holds no slash, and a slash or the end follows it.
pub proof fn lemma_segment_len(s: Seq<char>)
    ensures
        segment_len(s) <= s.len(),
        forall|i: int| 0 <= i < segment_len(s) ==> s[i] != '/',
        segment_len(s) < s.len() ==> s[segment_len(s) as int] == '/',
    decreases s.len(),
{
    if !(s.len() == 0 || s[0] == '/') {
        let q = s.drop_first();
        lemma_segment_len(q);
        assert forall|i: int| 0 <= i < segment_len(s) implies s[i] != '/' by {
            if i > 0 {
                assert(s[i] == q[i - 1]);
            }
        }
        if segment_len(s) < s.len() {
            assert(s[segment_len(s) as int] == q[segment_len(q) as int]);
        }
    }
}

/// A slash-free run of `k` characters that stops at `k` is the first segment.
pub proof fn lemma_segment_len_is(s: Seq<char>, k: int)
    requires
        0 <= k <= s.len(),
        forall|i: int| 0 <= i < k ==> s[i] != '/',
        k < s.len() ==> s[k] == '/',
    ensures
        segment_len(s) == k,
    decreases k,
{
    if k > 0 {
        let q = s.drop_first();
        assert forall|i: int| 0 <= i < k - 1 implies q[i] != '/' by {
            assert(q[i] == s[i + 1]);
        }
        if k - 1 < q.len() {
            assert(q[k - 1] == s[k]);
        }
        lemma_segment_len_is(q, k - 1);
    }
}

/// Where the child key of `entry` under `parent` ends within `entry`.
pub open spec fn child_end(entry: Seq<char>, parent: Seq<char>) -> int {
    child_start(parent) + segment_len(entry.skip(child_start(parent)))
}

/// The child key is a prefix of the entry, and the child's name is the part
/// of that prefix below the parent.
pub proof fn lemma_child_key_is_prefix(entry: Seq<char>, parent: Seq<char>)
    requires
        below(entry, parent),
    ensures
        child_start(parent) <= child_end(entry, parent) <= entry.len(),
        child_key(entry, parent) == entry.take(child_end(entry, parent)),
        child_name(entry, parent) == entry.subrange(
            child_start(parent),
            child_end(entry, parent),
        ),
        forall|i: int|
            child_start(parent) <= i < child_end(entry, parent) ==> entry[i] != '/',
        child_end(entry, parent) < entry.len() ==> entry[child_end(entry, parent)] == '/',
{
    let start = child_start(parent);
    let rest = entry.skip(start);
    lemma_segment_len(rest);
    let end = child_end(entry, parent);
    assert(child_name(entry, parent) =~= entry.subrange(start, end));
    assert forall|i: int| start <= i < end implies entry[i] != '/' by {
        assert(entry[i] == rest[i - start]);
    }
    if end < entry.len() {
        assert(entry[end] == rest[end - start]);
    }
    if parent.len() == 0 {
        assert(rest =~= entry);
    } else {
        assert(child_key(entry, parent) =~= entry.take(end)) by {
            let k = child_key(entry, parent);
            assert(k.len() == end);
            assert forall|i: int| 0 <= i < end implies k[i] == entry[i] by {
                if i < parent.len() {
                    assert(entry.take(parent.len() as int)[i] == parent[i]);
                }
            }
        }
    }
}

/// The child key of an entry is a direct child of the parent.
pub proof fn lemma_child_key_is_direct_child(entry: Seq<char>, parent: Seq<char>)
    requires
        below(entry, parent),
    ensures
        is_direct_child_of(child_key(entry, parent), parent),
{
    lemma_child_key_is_prefix(entry, parent);
    let k = child_key(entry, parent);
    if parent.len() > 0 {
        assert(k.take(parent.len() as int) =~= parent);
    }
}

/// An entry is a direct child of the parent exactly when it is its own
/// child key.
pub proof fn lemma_direct_child_iff_own_key(entry: Seq<char>, parent: Seq<char>)
    requires
        below(entry, parent),
    ensures
        is_direct_child_of(entry, parent) <==> child_key(entry, parent) == entry,
{
    lemma_child_key_is_prefix(entry, parent);
    let start = child_start(parent);
    let end = child_end(entry, parent);
    if is_direct_child_of(entry, parent) {
        if end < entry.len() {
            assert(entry[end] == '/');
        }
        assert(entry.take(end) =~= entry);
    }
    if child_key(entry, parent) == entry {
        assert(end == entry.len());
    }
}

/// Taking the child key of a child key changes nothing: a listed path is
/// never more than one segment below the listed parent.
pub proof fn lemma_child_key_idempotent(entry: Seq<char>, parent: Seq<char>)
    requires
        below(entry, parent),
    ensures
        below(child_key(entry, parent), parent),
        child_key(child_key(entry, parent), parent) == child_key(entry, parent),
{
    lemma_child_key_is_direct_child(entry, parent);
    lemma_direct_child_iff_own_key(child_key(entry, parent), parent);
}

/// Where `seg` holds no `/` and `pre` is empty or ends in `/`, the last
/// segment of `pre + seg` is `seg`.
pub proof fn lemma_last_segment_of_join(pre: Seq<char>, seg: Seq<char>)
    requires
        pre.len() == 0 || pre.last() == '/',
        forall|i: int| 0 <= i < seg.len() ==> seg[i] != '/',
    ensures
        last_segment(pre + seg) == seg,
    decreases seg.len(),
{
    let p = pre + seg;
    if seg.len() == 0 {
        assert(p =~= pre);
        assert(last_segment(p) =~= seg);
    } else {
        assert(p.last() == seg.last());
        assert(p.drop_last() =~= pre + seg.drop_last());
        lemma_last_segment_of_join(pre, seg.drop_last());
        assert(last_segment(p) =~= seg);
    }
}

/// The name of a child is the last segment of its key.
pub proof fn lemma_child_name_is_last_segment(entry: Seq<char>, parent: Seq<char>)
    requires
        below(entry, parent),
    ensures
        last_segment(child_key(entry, parent)) == child_name(entry, parent),
{
    lemma_child_key_is_prefix(entry, parent);
    let name = child_name(entry, parent);
    if parent.len() == 0 {
        assert(entry.skip(0) =~= entry);
        assert(Seq::<char>::empty() + name =~= name);
        lemma_last_segment_of_join(Seq::<char>::empty(), name);
    } else {
        lemma_last_segment_of_join(parent + seq!['/'], name);
    }
}

/// The characters of `p` with every backslash turned into a forward slash.
fn forward_slashed(p: &str) -> (out: Vec<char>)
    ensures
        out@ == with_forward_slashes(p@),
{
    let cs = chars_of(p);
    let mut out: Vec<char> = Vec::new();
    let mut i: usize = 0;
    while i < cs.len()
        invariant
            i <= cs.len(),
            cs@ == p@,
            out@ == with_forward_slashes(p@).take(i as int),
        decreases cs.len() - i,
    {
        let c = cs[i];
        if c == '\\' {
            out.push('/');
        } else {
            out.push(c);
        }
        i += 1;
        assert(out@ =~= with_forward_slashes(p@).take(i as int));
    }
    assert(out@ =~= with_forward_slashes(p@));
    out
}

/// The canonical form of `p` as characters.
pub fn normalise_chars(p: &str) -> (out: Vec<char>)
    ensures
        out@ == normalized(p@),
        is_normalized(out@),
{
    let w = forward_slashed(p);
    let n = w.len();
    let mut lo: usize = 0;
    while lo < n && w[lo] == '/'
        invariant
            lo <= n == w.len(),
            forall|i: int| 0 <= i < lo ==> w@[i] == '/',
        decreases n - lo,
    {
        lo += 1;
    }
    let mut hi: usize = n;
    while hi > lo && w[hi - 1] == '/'
        invariant
            lo <= hi <= n == w.len(),
            forall|i: int| hi <= i < n ==> w@[i] == '/',
        decreases hi,
    {
        hi -= 1;
    }
    let mut out: Vec<char> = Vec::new();
    let mut i: usize = lo;
    while i < hi
        invariant
            lo <= i <= hi <= w.len(),
            out@ == w@.subrange(lo as int, i as int),
        decreases hi - i,
    {
        out.push(w[i]);
        i += 1;
        assert(out@ =~= w@.subrange(lo as int, i as int));
    }
    proof {
        lemma_leading_is(w@, lo as int);
        let rest = w@.skip(lo as int);
        assert forall|i: int| rest.len() - (n - hi) <= i < rest.len() implies rest[i] == '/' by {
            assert(rest[i] == w@[i + lo]);
        }
        if n - hi < rest.len() {
            assert(rest[rest.len() - (n - hi) - 1] == w@[hi - 1]);
        }
        lemma_trailing_is(rest, n - hi);
        assert(rest.take(rest.len() - (n - hi)) =~= w@.subrange(lo as int, hi as int));
        lemma_normalized_is_normalized(p@);
    }
    out
}

/// Canonical form of an inner path: backslashes become `/`, and every `/`
/// at the front and at the end is dropped.
pub fn normalise_inner(p: &str) -> (out: String)
    ensures
        out@ == normalized(p@),
        is_normalized(out@),
{
    let cs = normalise_chars(p);
    let out = string_of(&cs, 0, cs.len());
    assert(cs@.subrange(0, cs@.len() as int) =~= cs@);
    out
}

/// Whether `entry` is `parent`, a `/`, and more.
pub fn starts_with_dir(entry: &Vec<char>, parent: &Vec<char>) -> (r: bool)
    ensures
        r == has_dir_prefix(entry@, parent@),
{
    let m = parent.len();
    if entry.len() <= m {
        return false;
    }
    let mut i: usize = 0;
    while i < m
        invariant
            i <= m == parent.len(),
            m < entry.len(),
            forall|j: int| 0 <= j < i ==> entry@[j] == parent@[j],
        decreases m - i,
    {
        if entry[i] != parent[i] {
            assert(entry@.take(m as int)[i as int] != parent@[i as int]);
            return false;
        }
        i += 1;
    }
    assert(entry@.take(m as int) =~= parent@);
    entry[m] == '/'
}

/// Whether two character sequences are the same.
pub fn same_chars(a: &Vec<char>, b: &Vec<char>) -> (r: bool)
    ensures
        r == (a@ == b@),
{
    if a.len() != b.len() {
        return false;
    }
    let mut i: usize = 0;
    while i < a.len()
        invariant
            i <= a.len() == b.len(),
            forall|j: int| 0 <= j < i ==> a@[j] == b@[j],
        decreases a.len() - i,
    {
        if a[i] != b[i] {
            return false;
        }
        i += 1;
    }
    assert(a@ =~= b@);
    true
}

/// The descendant relation on characters.
pub fn is_descendant_chars(entry: &Vec<char>, parent: &Vec<char>) -> (r: bool)
    ensures
        r == descends_from(entry@, parent@),
{
    parent.len() == 0 || same_chars(entry, parent) || starts_with_dir(entry, parent)
}

/// Whether `entry` is in the subtree of `parent`: true for every entry when
/// `parent` is the root, for `parent` itself, and for what begins with
/// `parent/`.
pub fn is_descendant(entry: &str, parent: &str) -> (r: bool)
    ensures
        r == descends_from(entry@, parent@),
{
    let e = chars_of(entry);
    let p = chars_of(parent);
    is_descendant_chars(&e, &p)
}

/// Index in `entry` at which the child key under `parent` ends.
pub fn child_end_chars(entry: &Vec<char>, parent: &Vec<char>) -> (end: usize)
    requires
        below(entry@, parent@),
    ensures
        end == child_end(entry@, parent@),
        child_start(parent@) <= end <= entry.len(),
{
    let total: usize = entry.len();
    let start: usize = if parent.len() == 0 {
        0
    } else {
        assert(parent@.len() < total);
        parent.len() + 1
    };
    let mut end: usize = start;
    while end < entry.len() && entry[end] != '/'
        invariant
            start <= end <= entry.len(),
            forall|i: int| start <= i < end ==> entry@[i] != '/',
        decreases entry.len() - end,
    {
        end += 1;
    }
    proof {
        let rest = entry@.skip(start as int);
        assert forall|i: int| 0 <= i < end - start implies rest[i] != '/' by {
            assert(rest[i] == entry@[i + start]);
        }
        if end - start < rest.len() {
            assert(rest[end - start] == entry@[end as int]);
        }
        lemma_segment_len_is(rest, end - start);
    }
    end
}

/// Whether `entry` is exactly one segment below `parent` (the root when
/// `parent` is empty).
pub fn is_direct_child(entry: &str, parent: &str) -> (r: bool)
    ensures
        r == is_direct_child_of(entry@, parent@),
{
    let e = chars_of(entry);
    let p = chars_of(parent);
    if p.len() > 0 && !starts_with_dir(&e, &p) {
        return false;
    }
    let end = child_end_chars(&e, &p);
    proof {
        lemma_child_key_is_prefix(e@, p@);
    }
    end == e.len()
}

/// The direct child of `parent` through which `entry` is reached, for an
/// entry below `parent`: `a/b/c` under `a` gives `a/b`.
pub fn direct_child_path(entry: &str, parent: &str) -> (key: String)
    requires
        below(entry@, parent@),
    ensures
        key@ == child_key(entry@, parent@),
{
    let e = chars_of(entry);
    let p = chars_of(parent);
    let end = child_end_chars(&e, &p);
    proof {
        lemma_child_key_is_prefix(e@, p@);
    }
    string_of(&e, 0, end)
}

/// Index of the last `c` in `s`; -1 where `s` holds none.
pub open spec fn last_index_of(s: Seq<char>, c: char) -> int
    decreases s.len(),
{
    if s.len() == 0 {
        -1
    } else if s.last() == c {
        s.len() - 1
    } else {
        last_index_of(s.drop_last(), c)
    }
}

/// The file name of the archive at a host path: the last segment of the
/// path, read as inner paths are read. A slash of either direction
/// separates on every system, and slashes at the end do not count.
pub open spec fn file_name_of(path: Seq<char>) -> Seq<char> {
    last_segment(normalized(path))
}

/// The path ends in no file name: it is empty or ends in `.` or `..`.
pub open spec fn is_no_name(name: Seq<char>) -> bool {
    name.len() == 0 || name == seq!['.'] || name == seq!['.', '.']
}

/// The name that a compressed stream gives its one entry: the file name of
/// the archive with its last suffix stripped, which is the part before the
/// last `.`, unless the name has no `.` or only begins with one. A path
/// that ends in no file name gives `file`.
pub open spec fn stem_of(path: Seq<char>) -> Seq<char> {
    let name = file_name_of(path);
    let dot = last_index_of(name, '.');
    if is_no_name(name) {
        "file"@
    } else if dot <= 0 {
        name
    } else {
        name.take(dot)
    }
}

/// Where `c` stands at `k` and nowhere behind, `k` is its last index; where
/// it stands nowhere, that is -1.
pub proof fn lemma_last_index_is(s: Seq<char>, c: char, k: int)
    requires
        -1 <= k < s.len(),
        k >= 0 ==> s[k] == c,
        forall|i: int| k < i < s.len() ==> s[i] != c,
    ensures
        last_index_of(s, c) == k,
    decreases s.len(),
{
    if s.len() > 0 && s.last() != c {
        let q = s.drop_last();
        assert forall|i: int| k < i < q.len() implies q[i] != c by {
            assert(q[i] == s[i]);
        }
        if k >= 0 {
            assert(q[k] == s[k]);
        }
        lemma_last_index_is(q, c, k);
    }
}

/// The name that a compressed stream at `path` gives its one entry.
pub fn file_stem(path: &str) -> (out: String)
    ensures
        out@ == stem_of(path@),
{
    let w = normalise_chars(path);
    let n = w.len();
    let mut k: usize = n;
    while k > 0 && w[k - 1] != '/'
        invariant
            k <= n == w.len(),
            forall|i: int| k <= i < n ==> w@[i] != '/',
        decreases k,
    {
        k -= 1;
    }
    let mut d: usize = n;
    while d > k && w[d - 1] != '.'
        invariant
            k <= d <= n == w.len(),
            forall|i: int| d <= i < n ==> w@[i] != '.',
        decreases d,
    {
        d -= 1;
    }
    proof {
        let pre = w@.take(k as int);
        let name = w@.skip(k as int);
        assert(pre + name =~= w@);
        assert forall|i: int| 0 <= i < name.len() implies name[i] != '/' by {
            assert(name[i] == w@[i + k]);
        }
        lemma_last_segment_of_join(pre, name);
        assert forall|i: int| d - 1 - k < i < name.len() implies name[i] != '.' by {
            assert(name[i] == w@[i + k]);
        }
        lemma_last_index_is(name, '.', d - 1 - k);
        if d > k + 1 {
            assert(name.take(d - 1 - k) =~= w@.subrange(k as int, d - 1));
        }
        assert(name =~= w@.subrange(k as int, n as int));
        if n - k == 1 && w@[k as int] == '.' {
            assert(name =~= seq!['.']);
        }
        if n - k == 2 && w@[k as int] == '.' && w@[k + 1] == '.' {
            assert(name =~= seq!['.', '.']);
        }
        if name == seq!['.'] {
            assert(name.len() == 1 && name[0] == '.');
        }
        if name == seq!['.', '.'] {
            assert(name.len() == 2 && name[0] == '.' && name[1] == '.');
        }
    }
    if k == n || (n - k == 1 && w[k] == '.') || (n - k == 2 && w[k] == '.' && w[k + 1] == '.') {
        "file".to_owned()
    } else if d <= k + 1 {
        string_of(&w, k, n)
    } else {
        string_of(&w, k, d - 1)
    }
}

} // verus!

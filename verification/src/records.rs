//! What is done with the records of a container once they are at hand:
//! finding the record of a path, and choosing the records that an
//! extraction writes.

use vstd::prelude::*;
use crate::error::ArchiveError;
use crate::model::{raw_models, RawEntry, RawModel};
use crate::paths::{descends_from, is_descendant_chars, normalise_chars, normalized, same_chars};
use crate::text::string_of;

verus! {

/// The record `r` is the one that a read of the canonical path `target`
/// asks for.
pub open spec fn matches_target(r: RawModel, target: Seq<char>) -> bool {
    normalized(r.path).len() > 0 && normalized(r.path) == target
}

/// Index of the first record that matches `target`; the length where none
/// does.
pub open spec fn first_match(raw: Seq<RawModel>, target: Seq<char>) -> int
    decreases raw.len(),
{
    if raw.len() == 0 || matches_target(raw[0], target) {
        0
    } else {
        1 + first_match(raw.drop_first(), target)
    }
}

/// The record that is found for a path has that path, and no record before
/// it has.
pub proof fn law_found_record_is_first(raw: Seq<RawModel>, target: Seq<char>)
    ensures
        0 <= first_match(raw, target) <= raw.len(),
        forall|j: int| 0 <= j < first_match(raw, target) ==> !matches_target(raw[j], target),
        first_match(raw, target) < raw.len() ==> matches_target(
            raw[first_match(raw, target)],
            target,
        ),
    decreases raw.len(),
{
    if !(raw.len() == 0 || matches_target(raw[0], target)) {
        let q = raw.drop_first();
        law_found_record_is_first(q, target);
        assert forall|j: int| 0 <= j < first_match(raw, target) implies !matches_target(
            raw[j],
            target,
        ) by {
            if j > 0 {
                assert(raw[j] == q[j - 1]);
            }
        }
        if first_match(raw, target) < raw.len() {
            assert(raw[first_match(raw, target)] == q[first_match(q, target)]);
        }
    }
}

/// A record that matches, with none before it that does, is the first
/// match.
proof fn lemma_first_match_is(raw: Seq<RawModel>, target: Seq<char>, i: int)
    requires
        0 <= i <= raw.len(),
        forall|j: int| 0 <= j < i ==> !matches_target(raw[j], target),
        i < raw.len() ==> matches_target(raw[i], target),
    ensures
        first_match(raw, target) == i,
    decreases i,
{
    if i > 0 {
        let q = raw.drop_first();
        assert forall|j: int| 0 <= j < i - 1 implies !matches_target(q[j], target) by {
            assert(q[j] == raw[j + 1]);
        }
        if i - 1 < q.len() {
            assert(q[i - 1] == raw[i]);
        }
        lemma_first_match_is(q, target, i - 1);
    }
}

/// The index of the first record whose canonical path is that of
/// `inner_path`; `None` where no record has it. A record without a name
/// matches nothing.
pub fn find_entry(records: &Vec<RawEntry>, inner_path: &str) -> (r: Option<usize>)
    ensures
        r is Some <==> first_match(raw_models(records@), normalized(inner_path@)) < records.len(),
        r is Some ==> r.unwrap() == first_match(raw_models(records@), normalized(inner_path@)),
{
    let target = normalise_chars(inner_path);
    let ghost raw = raw_models(records@);
    let mut i: usize = 0;
    while i < records.len()
        invariant
            i <= records.len(),
            raw == raw_models(records@),
            target@ == normalized(inner_path@),
            forall|j: int| 0 <= j < i ==> !matches_target(raw[j], target@),
        decreases records.len() - i,
    {
        let n = normalise_chars(records[i].path.as_str());
        assert(raw[i as int] == records@[i as int]@);
        if n.len() > 0 && same_chars(&n, &target) {
            proof {
                lemma_first_match_is(raw, target@, i as int);
            }
            return Some(i);
        }
        i += 1;
    }
    proof {
        lemma_first_match_is(raw, target@, i as int);
    }
    None
}

/// One thing that an extraction writes: the record at `index`, as a
/// directory or a file at the relative path `path` below the destination.
#[derive(Debug, Clone)]
pub struct ExtractStep {
    pub index: usize,
    pub path: String,
    pub is_dir: bool,
}

/// An `ExtractStep` as a mathematical value.
pub struct StepModel {
    pub index: int,
    pub path: Seq<char>,
    pub is_dir: bool,
}

impl View for ExtractStep {
    type V = StepModel;

    open spec fn view(&self) -> StepModel {
        StepModel { index: self.index as int, path: self.path@, is_dir: self.is_dir }
    }
}

/// The steps of a vector as mathematical values.
pub open spec fn step_models(v: Seq<ExtractStep>) -> Seq<StepModel> {
    Seq::new(v.len(), |i: int| v[i]@)
}

/// The paths of a selection as character sequences.
pub open spec fn selection_paths(v: Seq<String>) -> Seq<Seq<char>> {
    Seq::new(v.len(), |i: int| v[i]@)
}

/// The canonical path `n` is chosen by `selection`: an empty selection
/// chooses everything, and otherwise `n` must be one of the selected paths
/// or lie below one.
pub open spec fn is_selected(n: Seq<char>, selection: Seq<Seq<char>>) -> bool {
    selection.len() == 0 || exists|k: int|
        0 <= k < selection.len() && descends_from(n, normalized(#[trigger] selection[k]))
}

/// The record `r` is written by an extraction with `selection`.
pub open spec fn extracts(r: RawModel, selection: Seq<Seq<char>>) -> bool {
    normalized(r.path).len() > 0 && is_selected(normalized(r.path), selection)
}

/// The step that writes record number `index`.
pub open spec fn step_for(r: RawModel, index: int) -> StepModel {
    StepModel { index, path: normalized(r.path), is_dir: r.is_dir }
}

/// The steps of an extraction of `raw` with `selection`: one for each
/// chosen record, in the order of the records.
pub open spec fn plan_of(raw: Seq<RawModel>, selection: Seq<Seq<char>>) -> Seq<StepModel>
    decreases raw.len(),
{
    if raw.len() == 0 {
        Seq::<StepModel>::empty()
    } else {
        let before = plan_of(raw.drop_last(), selection);
        if extracts(raw.last(), selection) {
            before.push(step_for(raw.last(), raw.len() - 1))
        } else {
            before
        }
    }
}

/// Whether `selection` chooses the canonical path `n`.
fn selected(n: &Vec<char>, selection: &Vec<String>) -> (r: bool)
    ensures
        r == is_selected(n@, selection_paths(selection@)),
{
    if selection.len() == 0 {
        return true;
    }
    let ghost paths = selection_paths(selection@);
    let mut k: usize = 0;
    while k < selection.len()
        invariant
            k <= selection.len(),
            paths == selection_paths(selection@),
            forall|j: int| 0 <= j < k ==> !descends_from(n@, normalized(#[trigger] paths[j])),
        decreases selection.len() - k,
    {
        let target = normalise_chars(selection[k].as_str());
        assert(paths[k as int] == selection@[k as int]@);
        if is_descendant_chars(n, &target) {
            return true;
        }
        k += 1;
    }
    false
}

/// The steps of an extraction of `records` with `selection`, in the order
/// of the records. An empty selection extracts every record that has a
/// name.
pub fn plan_extraction(records: &Vec<RawEntry>, selection: &Vec<String>) -> (steps: Vec<
    ExtractStep,
>)
    ensures
        step_models(steps@) == plan_of(raw_models(records@), selection_paths(selection@)),
{
    let ghost raw = raw_models(records@);
    let ghost sel = selection_paths(selection@);
    let mut steps: Vec<ExtractStep> = Vec::new();
    let mut i: usize = 0;
    assert(raw.take(0) =~= Seq::<RawModel>::empty());
    assert(step_models(steps@) =~= Seq::<StepModel>::empty());
    while i < records.len()
        invariant
            i <= records.len(),
            raw == raw_models(records@),
            sel == selection_paths(selection@),
            step_models(steps@) == plan_of(raw.take(i as int), sel),
        decreases records.len() - i,
    {
        proof {
            assert(raw.take(i + 1).drop_last() =~= raw.take(i as int));
            assert(raw.take(i + 1).last() == records@[i as int]@);
        }
        let n = normalise_chars(records[i].path.as_str());
        if n.len() > 0 && selected(&n, selection) {
            let ghost before = step_models(steps@);
            let step = ExtractStep {
                index: i,
                path: string_of(&n, 0, n.len()),
                is_dir: records[i].is_dir,
            };
            assert(n@.subrange(0, n@.len() as int) =~= n@);
            steps.push(step);
            assert(step_models(steps@) =~= before.push(step_for(records@[i as int]@, i as int)));
        }
        i += 1;
    }
    assert(raw.take(records.len() as int) =~= raw);
    steps
}

/// The record `r` has a name and is at `target` or below it.
pub open spec fn holds_target(r: RawModel, target: Seq<char>) -> bool {
    normalized(r.path).len() > 0 && descends_from(normalized(r.path), normalized(target))
}

/// The archive holds something for the selected path `target`: a record at
/// it or below it. The root is always there.
pub open spec fn target_present(raw: Seq<RawModel>, target: Seq<char>) -> bool {
    normalized(target).len() == 0 || exists|j: int|
        0 <= j < raw.len() && holds_target(#[trigger] raw[j], target)
}

/// Every selected path is present in the archive.
pub open spec fn all_present(raw: Seq<RawModel>, selection: Seq<Seq<char>>) -> bool {
    forall|k: int| 0 <= k < selection.len() ==> target_present(raw, #[trigger] selection[k])
}

/// What an extraction of `selection` comes to: the steps of the plan, or
/// `EntryNotFound` where a selected path has no record at or below it.
pub open spec fn planned(raw: Seq<RawModel>, selection: Seq<Seq<char>>) -> Result<
    Seq<StepModel>,
    ArchiveError,
> {
    if all_present(raw, selection) {
        Ok(plan_of(raw, selection))
    } else {
        Err(ArchiveError::EntryNotFound)
    }
}

/// Whether some record is at the canonical path `target` or below it.
fn holds_any(records: &Vec<RawEntry>, target: &Vec<char>, Ghost(asked): Ghost<Seq<char>>) -> (r: bool)
    requires
        target@ == normalized(asked),
    ensures
        r == exists|j: int|
            0 <= j < records.len() && holds_target(#[trigger] raw_models(records@)[j], asked),
{
    let ghost raw = raw_models(records@);
    let mut j: usize = 0;
    while j < records.len()
        invariant
            j <= records.len(),
            raw == raw_models(records@),
            target@ == normalized(asked),
            forall|i: int| 0 <= i < j ==> !holds_target(#[trigger] raw[i], asked),
        decreases records.len() - j,
    {
        let n = normalise_chars(records[j].path.as_str());
        assert(raw[j as int] == records@[j as int]@);
        if n.len() > 0 && is_descendant_chars(&n, target) {
            return true;
        }
        j += 1;
    }
    false
}

/// The index, within `selection`, of the first selected path that the
/// archive holds nothing for; `None` where every selected path is present.
pub fn absent_target(records: &Vec<RawEntry>, selection: &Vec<String>) -> (r: Option<usize>)
    ensures
        r is None <==> all_present(raw_models(records@), selection_paths(selection@)),
        r is Some ==> r.unwrap() < selection.len() && !target_present(
            raw_models(records@),
            selection@[r.unwrap() as int]@,
        ) && forall|k: int|
            0 <= k < r.unwrap() ==> target_present(
                raw_models(records@),
                (#[trigger] selection@[k])@,
            ),
{
    let ghost raw = raw_models(records@);
    let ghost sel = selection_paths(selection@);
    let mut k: usize = 0;
    while k < selection.len()
        invariant
            k <= selection.len(),
            raw == raw_models(records@),
            sel == selection_paths(selection@),
            forall|i: int| 0 <= i < k ==> target_present(raw, (#[trigger] selection@[i])@),
        decreases selection.len() - k,
    {
        let target = normalise_chars(selection[k].as_str());
        if target.len() > 0 && !holds_any(records, &target, Ghost(selection@[k as int]@)) {
            assert(sel[k as int] == selection@[k as int]@);
            assert(!target_present(raw, sel[k as int]));
            return Some(k);
        }
        k += 1;
    }
    assert forall|i: int| 0 <= i < sel.len() implies target_present(raw, #[trigger] sel[i]) by {
        assert(sel[i] == selection@[i]@);
    }
    None
}

/// `k` is the place, within `selection`, of the first selected path that
/// the archive holds nothing for.
pub open spec fn is_first_absent(raw: Seq<RawModel>, selection: Seq<Seq<char>>, k: int) -> bool {
    &&& 0 <= k < selection.len()
    &&& !target_present(raw, selection[k])
    &&& forall|j: int| 0 <= j < k ==> target_present(raw, #[trigger] selection[j])
}

/// The steps that extract `selection` from `records`, or the place within
/// `selection` of the first selected path that has no record at or below
/// it.
pub fn plan_or_absent(records: &Vec<RawEntry>, selection: &Vec<String>) -> (r: Result<
    Vec<ExtractStep>,
    usize,
>)
    ensures
        r is Ok <==> all_present(raw_models(records@), selection_paths(selection@)),
        r is Ok ==> step_models(r->Ok_0@) == plan_of(
            raw_models(records@),
            selection_paths(selection@),
        ),
        r is Err ==> is_first_absent(
            raw_models(records@),
            selection_paths(selection@),
            r->Err_0 as int,
        ),
{
    match absent_target(records, selection) {
        Some(k) => {
            proof {
                let sel = selection_paths(selection@);
                assert(sel[k as int] == selection@[k as int]@);
                assert forall|j: int| 0 <= j < k implies target_present(
                    raw_models(records@),
                    #[trigger] sel[j],
                ) by {
                    assert(sel[j] == selection@[j]@);
                }
            }
            Err(k)
        },
        None => Ok(plan_extraction(records, selection)),
    }
}

/// The steps that extract `selection` from `records`, or `EntryNotFound`
/// where a selected path has no record at or below it. An empty selection
/// extracts every record that has a name.
pub fn plan_selected(records: &Vec<RawEntry>, selection: &Vec<String>) -> (r: Result<
    Vec<ExtractStep>,
    ArchiveError,
>)
    ensures
        match planned(raw_models(records@), selection_paths(selection@)) {
            Ok(steps) => r is Ok && step_models(r->Ok_0@) == steps,
            Err(e) => r is Err && r->Err_0 == e,
        },
{
    match plan_or_absent(records, selection) {
        Ok(steps) => Ok(steps),
        Err(_) => Err(ArchiveError::EntryNotFound),
    }
}

/// Every step of a plan writes a chosen record under its canonical path,
/// and the steps follow the order of the records.
pub proof fn law_plan_steps_are_selected(raw: Seq<RawModel>, selection: Seq<Seq<char>>)
    ensures
        forall|i: int|
            0 <= i < plan_of(raw, selection).len() ==> {
                let step = #[trigger] plan_of(raw, selection)[i];
                &&& 0 <= step.index < raw.len()
                &&& extracts(raw[step.index], selection)
                &&& step == step_for(raw[step.index], step.index)
            },
        forall|i: int, j: int|
            0 <= i < j < plan_of(raw, selection).len() ==> plan_of(raw, selection)[i].index
                < plan_of(raw, selection)[j].index,
    decreases raw.len(),
{
    if raw.len() > 0 {
        let before = raw.drop_last();
        law_plan_steps_are_selected(before, selection);
        let p = plan_of(raw, selection);
        let q = plan_of(before, selection);
        assert forall|i: int| 0 <= i < p.len() implies {
            let step = #[trigger] p[i];
            &&& 0 <= step.index < raw.len()
            &&& extracts(raw[step.index], selection)
            &&& step == step_for(raw[step.index], step.index)
        } by {
            if i < q.len() {
                assert(p[i] == q[i]);
                assert(raw[q[i].index] == before[q[i].index]);
            }
        }
        assert forall|i: int, j: int| 0 <= i < j < p.len() implies p[i].index < p[j].index by {
            assert(p[i] == q[i]);
            if j < q.len() {
                assert(p[j] == q[j]);
            }
        }
    }
}

/// Every chosen record has a step in the plan.
pub proof fn law_plan_is_complete(raw: Seq<RawModel>, selection: Seq<Seq<char>>, j: int)
    requires
        0 <= j < raw.len(),
        extracts(raw[j], selection),
    ensures
        exists|i: int|
            0 <= i < plan_of(raw, selection).len() && (#[trigger] plan_of(raw, selection)[i]).index
                == j,
    decreases raw.len(),
{
    let p = plan_of(raw, selection);
    let before = raw.drop_last();
    let q = plan_of(before, selection);
    if j == raw.len() - 1 {
        assert(p[p.len() - 1].index == j);
    } else {
        assert(before[j] == raw[j]);
        law_plan_is_complete(before, selection, j);
        let i = choose|i: int| 0 <= i < q.len() && (#[trigger] q[i]).index == j;
        assert(p[i] == q[i]);
    }
}

/// With a selection that names the one path `target`, nothing is written
/// but `target` itself and what lies below it.
pub proof fn law_selection_filters(raw: Seq<RawModel>, target: Seq<char>, i: int)
    requires
        0 <= i < plan_of(raw, seq![target]).len(),
    ensures
        descends_from(plan_of(raw, seq![target])[i].path, normalized(target)),
{
    let selection = seq![target];
    law_plan_steps_are_selected(raw, selection);
    let step = plan_of(raw, selection)[i];
    assert(extracts(raw[step.index], selection));
    let k = choose|k: int|
        0 <= k < selection.len() && descends_from(
            normalized(raw[step.index].path),
            normalized(#[trigger] selection[k]),
        );
    assert(selection[k] == target);
}

/// The record of a step is the one that a read of the step's path finds,
/// unless an earlier record has the same canonical path: what an extraction
/// writes to a path is then what a read of that path returns.
pub proof fn law_step_is_found_by_read(raw: Seq<RawModel>, selection: Seq<Seq<char>>, i: int)
    requires
        0 <= i < plan_of(raw, selection).len(),
        forall|j: int|
            0 <= j < plan_of(raw, selection)[i].index ==> normalized(raw[j].path) != plan_of(
                raw,
                selection,
            )[i].path,
    ensures
        first_match(raw, normalized(plan_of(raw, selection)[i].path)) == plan_of(
            raw,
            selection,
        )[i].index,
{
    law_plan_steps_are_selected(raw, selection);
    let step = plan_of(raw, selection)[i];
    crate::paths::lemma_normalize_idempotent(raw[step.index].path);
    lemma_first_match_is(raw, step.path, step.index);
}

} // verus!

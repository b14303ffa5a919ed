//! Segments: what goes into each of them, and how they are merged into the
//! final archive.

use crate::contents::files_in;
use crate::host::{path_behind, random_id, strip_base};
use crate::text::{append_decimal, decimal_digits, lemma_decimal_digits_differ};
use vstd::prelude::*;
use vstd::string::StringExecFns;

verus! {

/// The name of the segment file with the given number.
pub open spec fn segment_name(number: nat) -> Seq<char> {
    "segment_"@ + decimal_digits(number) + ".zip"@
}

/// Makes the name of the segment file with the given number.
pub fn segment_file_name(number: u64) -> (name: String)
    ensures
        name@ == segment_name(number as nat),
{
    let mut name = String::from_str("segment_");
    append_decimal(&mut name, number as u128);
    name.append(".zip");
    name
}

/// Segment files with different numbers have different names.
pub proof fn lemma_segment_names_differ(a: nat, b: nat)
    requires
        a != b,
    ensures
        segment_name(a) != segment_name(b),
{
    lemma_decimal_digits_differ(a, b);
    let front = "segment_"@;
    let back = ".zip"@;
    let digits_a = decimal_digits(a);
    let digits_b = decimal_digits(b);
    if segment_name(a) == segment_name(b) {
        assert(segment_name(a).len() == front.len() + digits_a.len() + back.len());
        assert(segment_name(b).len() == front.len() + digits_b.len() + back.len());
        assert(digits_a =~= segment_name(a).subrange(
            front.len() as int,
            (front.len() + digits_a.len()) as int,
        ));
        assert(digits_b =~= segment_name(b).subrange(
            front.len() as int,
            (front.len() + digits_b.len()) as int,
        ));
    }
}

/// The way the entries of an archive are written.
#[derive(Clone, Copy, Debug, PartialEq, Eq, Structural)]
pub enum Compression {
    /// Entries are copied as they are.
    Stored,
    /// Entries are compressed with the deflate method.
    Deflated,
}

/// The way the entries of a segment are written: compressed, by the method
/// that is fast rather than small.
pub fn determine_optimal_compression() -> (method: Compression)
    ensures
        method == Compression::Deflated,
{
    Compression::Deflated
}

/// The way the entries of the final archive are written: stored, since the
/// work of compressing was done when the segments were written.
pub fn merge_compression() -> (method: Compression)
    ensures
        method == Compression::Stored,
{
    Compression::Stored
}

/// Makes the name of a fresh segment file. The number in it is drawn at
/// random; names of different numbers differ.
pub fn fresh_segment_name() -> (name: String)
    ensures
        exists|number: nat| number <= u64::MAX && name@ == #[trigger] segment_name(number),
{
    let number = random_id();
    let name = segment_file_name(number);
    assert(name@ == segment_name(number as nat));
    name
}

/// The name a file is archived under: its path behind the build root, or its
/// whole path where it does not lie under the root.
pub open spec fn relative_name(path: Seq<char>, root: Seq<char>) -> Seq<char> {
    match path_behind(path, root) {
        Some(rest) => rest,
        None => path,
    }
}

/// The names the files of a group are archived under, in the group's order.
pub open spec fn entry_names(group: Seq<String>, root: Seq<char>) -> Seq<Seq<char>> {
    group.map_values(|path: String| relative_name(path@, root))
}

/// Computes the name a file is archived under.
pub fn entry_name(path: &str, root: &str) -> (name: String)
    ensures
        name@ == relative_name(path@, root@),
{
    match strip_base(path, root) {
        Some(rest) => rest,
        None => String::from_str(path),
    }
}

/// One file to be written into a segment.
pub struct FileJob {
    /// The file to read.
    pub source: String,
    /// The name to archive it under.
    pub name: String,
}

/// The names that the jobs of a segment write, in order.
pub open spec fn job_names(jobs: Vec<FileJob>) -> Seq<Seq<char>> {
    jobs@.map_values(|job: FileJob| job.name@)
}

/// Plans the segment of one group: one job for each file, in the group's
/// order, under the file's name relative to `root`.
pub fn plan_segment(group: &Vec<String>, root: &str) -> (jobs: Vec<FileJob>)
    ensures
        jobs.len() == group.len(),
        forall|i: int| 0 <= i < group.len() ==> (#[trigger] jobs[i]).source == group[i],
        forall|i: int|
            0 <= i < group.len() ==> (#[trigger] jobs[i]).name@ == relative_name(group[i]@, root@),
        job_names(jobs) == entry_names(group@, root@),
{
    let mut jobs: Vec<FileJob> = Vec::new();
    let mut at: usize = 0;
    while at < group.len()
        invariant
            at <= group.len(),
            jobs.len() == at,
            forall|i: int| 0 <= i < at ==> (#[trigger] jobs[i]).source == group[i],
            forall|i: int| 0 <= i < at ==> (#[trigger] jobs[i]).name@ == relative_name(group[i]@, root@),
        decreases group.len() - at,
    {
        let source = group[at].clone();
        let name = entry_name(source.as_str(), root);
        jobs.push(FileJob { source, name });
        at = at + 1;
    }
    jobs
}

/// The names that each of the plans writes.
pub open spec fn plan_names(plans: Vec<Vec<FileJob>>) -> Seq<Seq<Seq<char>>> {
    plans@.map_values(|jobs: Vec<FileJob>| job_names(jobs))
}

/// Plans the segments of all groups: one segment for each group, in the order
/// of the groups, each holding the files of its group.
pub fn plan_segments(groups: &Vec<Vec<String>>, root: &str) -> (plans: Vec<Vec<FileJob>>)
    ensures
        plans.len() == groups.len(),
        forall|g: int|
            0 <= g < groups.len() ==> #[trigger] plan_names(plans)[g] == entry_names(
                groups@[g]@,
                root@,
            ),
        forall|g: int| 0 <= g < groups.len() ==> (#[trigger] plans@[g]).len() == groups@[g].len(),
{
    let mut plans: Vec<Vec<FileJob>> = Vec::new();
    let mut at: usize = 0;
    while at < groups.len()
        invariant
            at <= groups.len(),
            plans.len() == at,
            forall|g: int|
                0 <= g < at ==> #[trigger] plan_names(plans)[g] == entry_names(groups@[g]@, root@),
            forall|g: int| 0 <= g < at ==> (#[trigger] plans@[g]).len() == groups@[g].len(),
        decreases groups.len() - at,
    {
        let ghost before = plans@;
        let ghost before_plans = plans;
        let jobs = plan_segment(&groups[at], root);
        plans.push(jobs);
        proof {
            assert forall|g: int| 0 <= g < at + 1 implies #[trigger] plan_names(plans)[g]
                == entry_names(groups@[g]@, root@) by {
                assert(plan_names(plans)[g] == job_names(plans@[g]));
                if g < at {
                    assert(plans@[g] == before[g]);
                    assert(plan_names(before_plans)[g] == job_names(before[g]));
                } else {
                    assert(plans@[g] == jobs);
                }
            }
        }
        at = at + 1;
    }
    plans
}

/// One entry of a segment, as its directory of contents lists it.
pub struct SegmentEntry {
    pub name: String,
    pub is_dir: bool,
}

/// One step of a merge.
pub enum MergeStep {
    /// Copy entry number `index` of segment number `segment` into the final
    /// archive, under `name`.
    Copy { segment: usize, index: usize, name: String },
    /// Delete the file of segment number `segment`: it has been consumed.
    Discard { segment: usize },
}

/// What a step of a merge says.
pub enum StepView {
    Copy { segment: nat, index: nat, name: Seq<char> },
    Discard { segment: nat },
}

impl View for MergeStep {
    type V = StepView;

    open spec fn view(&self) -> StepView {
        match *self {
            MergeStep::Copy { segment, index, name } => StepView::Copy {
                segment: segment as nat,
                index: index as nat,
                name: name@,
            },
            MergeStep::Discard { segment } => StepView::Discard { segment: segment as nat },
        }
    }
}

/// The copies that one segment asks for: one for each of its entries that is
/// no directory, in the segment's order.
pub open spec fn copies_of(entries: Seq<SegmentEntry>, segment: nat) -> Seq<StepView>
    decreases entries.len(),
{
    if entries.len() == 0 {
        Seq::empty()
    } else if entries.last().is_dir {
        copies_of(entries.drop_last(), segment)
    } else {
        copies_of(entries.drop_last(), segment).push(
            StepView::Copy {
                segment,
                index: (entries.len() - 1) as nat,
                name: entries.last().name@,
            },
        )
    }
}

/// The steps of a merge: segment by segment, the copies of the segment and then
/// its removal.
pub open spec fn merge_steps(segments: Seq<Seq<SegmentEntry>>) -> Seq<StepView>
    decreases segments.len(),
{
    if segments.len() == 0 {
        Seq::empty()
    } else {
        merge_steps(segments.drop_last()) + copies_of(
            segments.last(),
            (segments.len() - 1) as nat,
        ).push(StepView::Discard { segment: (segments.len() - 1) as nat })
    }
}

/// The names of the entries of a segment that are no directories, in order.
pub open spec fn file_names(entries: Seq<SegmentEntry>) -> Seq<Seq<char>>
    decreases entries.len(),
{
    if entries.len() == 0 {
        Seq::empty()
    } else if entries.last().is_dir {
        file_names(entries.drop_last())
    } else {
        file_names(entries.drop_last()).push(entries.last().name@)
    }
}

/// The names that a run of steps copies into the final archive, in order.
pub open spec fn copied_names(steps: Seq<StepView>) -> Seq<Seq<char>>
    decreases steps.len(),
{
    if steps.len() == 0 {
        Seq::empty()
    } else {
        match steps.last() {
            StepView::Copy { name, .. } => copied_names(steps.drop_last()).push(name),
            StepView::Discard { .. } => copied_names(steps.drop_last()),
        }
    }
}

/// The views of a vector of steps.
pub open spec fn steps_of(steps: Vec<MergeStep>) -> Seq<StepView> {
    steps@.map_values(|step: MergeStep| step@)
}

/// The entries of a vector of segments.
pub open spec fn segments_of(segments: Vec<Vec<SegmentEntry>>) -> Seq<Seq<SegmentEntry>> {
    segments@.map_values(|entries: Vec<SegmentEntry>| entries@)
}

/// Plans a merge from the entries of the segments, in the order in which the
/// segments were completed.
pub fn merge_plan(segments: &Vec<Vec<SegmentEntry>>) -> (steps: Vec<MergeStep>)
    ensures
        steps_of(steps) == merge_steps(segments_of(*segments)),
{
    let ghost model = segments_of(*segments);
    let mut steps: Vec<MergeStep> = Vec::new();
    let mut segment: usize = 0;
    while segment < segments.len()
        invariant
            segment <= segments.len(),
            model == segments_of(*segments),
            steps_of(steps) == merge_steps(model.take(segment as int)),
        decreases segments.len() - segment,
    {
        let entries = &segments[segment];
        let ghost done = steps_of(steps);
        let mut index: usize = 0;
        while index < entries.len()
            invariant
                index <= entries.len(),
                steps_of(steps) == done + copies_of(entries@.take(index as int), segment as nat),
            decreases entries.len() - index,
        {
            let ghost before = steps_of(steps);
            proof {
                assert(entries@.take(index + 1).drop_last() =~= entries@.take(index as int));
            }
            if !entries[index].is_dir {
                let name = entries[index].name.clone();
                steps.push(MergeStep::Copy { segment, index, name });
                proof {
                    assert(steps_of(steps) =~= before.push(
                        StepView::Copy {
                            segment: segment as nat,
                            index: index as nat,
                            name: entries@[index as int].name@,
                        },
                    ));
                }
            }
            index = index + 1;
        }
        let ghost before = steps_of(steps);
        steps.push(MergeStep::Discard { segment });
        proof {
            assert(entries@.take(index as int) =~= entries@);
            assert(steps_of(steps) =~= before.push(StepView::Discard { segment: segment as nat }));
            assert(model.take(segment + 1).drop_last() =~= model.take(segment as int));
        }
        segment = segment + 1;
    }
    assert(model.take(segment as int) =~= model);
    steps
}

/// What a run of steps copies is what its parts copy, one after the other.
pub proof fn lemma_copied_names_concat(first: Seq<StepView>, second: Seq<StepView>)
    ensures
        copied_names(first + second) == copied_names(first) + copied_names(second),
    decreases second.len(),
{
    if second.len() == 0 {
        assert(first + second =~= first);
        assert(copied_names(first) + copied_names(second) =~= copied_names(first));
    } else {
        lemma_copied_names_concat(first, second.drop_last());
        assert((first + second).drop_last() =~= first + second.drop_last());
        assert((first + second).last() == second.last());
        assert(copied_names(first + second) =~= copied_names(first) + copied_names(second));
    }
}

/// The steps of one segment copy its files, all of them, each once and in the
/// segment's order, and none of its directories.
pub proof fn lemma_copies_of(entries: Seq<SegmentEntry>, segment: nat)
    ensures
        copied_names(copies_of(entries, segment)) == file_names(entries),
        copied_names(copies_of(entries, segment).push(StepView::Discard { segment }))
            == file_names(entries),
    decreases entries.len(),
{
    let steps = copies_of(entries, segment);
    if entries.len() > 0 {
        let earlier = copies_of(entries.drop_last(), segment);
        lemma_copies_of(entries.drop_last(), segment);
        if !entries.last().is_dir {
            assert(steps.drop_last() =~= earlier);
            assert(steps.last() == StepView::Copy {
                segment,
                index: (entries.len() - 1) as nat,
                name: entries.last().name@,
            });
            assert(copied_names(steps) == copied_names(earlier).push(entries.last().name@));
        }
    }
    let closed = steps.push(StepView::Discard { segment });
    assert(closed.drop_last() =~= steps);
    assert(closed.last() == StepView::Discard { segment });
    assert(copied_names(closed) == copied_names(steps));
}

/// The final archive holds every file under its name relative to the build
/// root, each once, and no directory entry.
///
/// `completed` are the groups in the order in which their segments were
/// completed. Each segment holds the files of its group under their relative
/// names, and may hold directory entries besides. The names copied into the
/// final archive are then the relative names of the files, group by group; no
/// name is copied that no file has, and none is left out.
pub proof fn lemma_archive_holds_every_file(
    files: Seq<String>,
    completed: Seq<Seq<String>>,
    segments: Seq<Seq<SegmentEntry>>,
    root: Seq<char>,
)
    requires
        files_in(completed) == files.to_multiset(),
        segments.len() == completed.len(),
        forall|i: int|
            0 <= i < segments.len() ==> file_names(#[trigger] segments[i]) == entry_names(
                completed[i],
                root,
            ),
    ensures
        copied_names(merge_steps(segments)) == entry_names(completed.flatten(), root),
        copied_names(merge_steps(segments)).len() == files.len(),
        forall|name: Seq<char>|
            copied_names(merge_steps(segments)).contains(name) <==> exists|file: String|
                files.contains(file) && #[trigger] relative_name(file@, root) == name,
{
    broadcast use vstd::seq_lib::group_to_multiset_ensures;

    lemma_merge_names(completed, segments, root);
    let flat = completed.flatten();
    let names = copied_names(merge_steps(segments));
    assert(names.len() == flat.len());
    assert(flat.to_multiset().len() == files.to_multiset().len());
    assert forall|name: Seq<char>| names.contains(name) implies exists|file: String|
        files.contains(file) && #[trigger] relative_name(file@, root) == name by {
        let i = choose|i: int| 0 <= i < names.len() && names[i] == name;
        let file = flat[i];
        assert(flat.contains(file));
        assert(flat.to_multiset().count(file) > 0);
        assert(files.contains(file));
        assert(relative_name(file@, root) == name);
    }
    assert forall|name: Seq<char>|
        (exists|file: String| files.contains(file) && #[trigger] relative_name(file@, root) == name)
        implies names.contains(name) by {
        let file = choose|file: String|
            files.contains(file) && #[trigger] relative_name(file@, root) == name;
        assert(files.to_multiset().count(file) > 0);
        assert(flat.contains(file));
        let i = choose|i: int| 0 <= i < flat.len() && flat[i] == file;
        assert(names[i] == name);
    }
}

/// The final archive of a build holds every file of the walk under its
/// relative name, each once, whatever the order in which the segments were
/// completed.
///
/// `groups` are the groups that were planned and `completed` are the same
/// groups in the order in which their segments were completed. Each segment
/// lists the files that the plan of its group names, and may list directories
/// besides.
pub proof fn lemma_archive_of_planned_segments(
    files: Seq<String>,
    groups: Seq<Seq<String>>,
    completed: Seq<Seq<String>>,
    segments: Seq<Seq<SegmentEntry>>,
    root: Seq<char>,
)
    requires
        files_in(groups) == files.to_multiset(),
        completed.to_multiset() == groups.to_multiset(),
        segments.len() == completed.len(),
        forall|i: int|
            0 <= i < segments.len() ==> file_names(#[trigger] segments[i]) == entry_names(
                completed[i],
                root,
            ),
    ensures
        copied_names(merge_steps(segments)) == entry_names(completed.flatten(), root),
        copied_names(merge_steps(segments)).len() == files.len(),
        forall|name: Seq<char>|
            copied_names(merge_steps(segments)).contains(name) <==> exists|file: String|
                files.contains(file) && #[trigger] relative_name(file@, root) == name,
{
    crate::contents::lemma_order_of_groups_is_free(groups, completed);
    lemma_archive_holds_every_file(files, completed, segments, root);
}

/// The names a merge copies are the relative names of the files of the groups,
/// group by group.
pub proof fn lemma_merge_names(
    completed: Seq<Seq<String>>,
    segments: Seq<Seq<SegmentEntry>>,
    root: Seq<char>,
)
    requires
        segments.len() == completed.len(),
        forall|i: int|
            0 <= i < segments.len() ==> file_names(#[trigger] segments[i]) == entry_names(
                completed[i],
                root,
            ),
    ensures
        copied_names(merge_steps(segments)) == entry_names(completed.flatten(), root),
    decreases segments.len(),
{
    if segments.len() == 0 {
        crate::contents::lemma_files_in_empty(completed);
        assert(entry_names(completed.flatten(), root) =~= Seq::<Seq<char>>::empty());
    } else {
        let last = (segments.len() - 1) as nat;
        let earlier = segments.drop_last();
        let groups = completed.drop_last();
        assert forall|i: int| 0 <= i < earlier.len() implies file_names(#[trigger] earlier[i])
            == entry_names(groups[i], root) by {
            assert(earlier[i] == segments[i]);
        }
        lemma_merge_names(groups, earlier, root);
        lemma_copies_of(segments.last(), last);
        lemma_copied_names_concat(
            merge_steps(earlier),
            copies_of(segments.last(), last).push(StepView::Discard { segment: last }),
        );
        groups.lemma_flatten_push(completed.last());
        assert(groups.push(completed.last()) =~= completed);
        assert(file_names(segments[last as int]) == entry_names(completed[last as int], root));
        assert(entry_names(groups.flatten() + completed.last(), root) =~= entry_names(
            groups.flatten(),
            root,
        ) + entry_names(completed.last(), root));
    }
}

} // verus!

//! The course of one build, from its request to its end.
//!
//! The work itself (creating the workspace, writing segments, merging them) is
//! done by the caller. The job is told how each step ended and decides what
//! comes next and which marker to store.

use crate::models::{ProgressView, ZipProgress, FULL_PERCENTAGE};
use crate::progress::{phase_record, phase_view, Phase};
use vstd::prelude::*;

verus! {

/// Why a build failed.
#[derive(Clone, Copy, Debug, PartialEq, Eq, Structural)]
pub enum BuildError {
    /// The directory to archive is not valid.
    Input,
    /// A file could not be read or written.
    Io,
    /// The temporary workspace could not be had.
    Resource,
}

/// Where a build stands.
#[derive(Clone, Copy, Debug, PartialEq, Eq, Structural)]
pub enum JobStage {
    /// Requested; the workspace is awaited.
    Created,
    /// The segments are being written.
    Building,
    /// The segments are being merged.
    Merging,
    /// The archive is complete.
    Complete,
    /// The build has failed.
    Failed(BuildError),
}

/// How a step of the work ended.
#[derive(Clone, Copy, Debug, PartialEq, Eq, Structural)]
pub enum JobEvent {
    WorkspaceReady,
    WorkspaceFailed,
    SegmentsBuilt,
    SegmentFailed,
    Merged,
    MergeFailed,
}

/// The stage that follows `stage` on `event`. A build that is complete or has
/// failed stays so; an event that the stage does not wait for changes nothing.
pub open spec fn stage_after(stage: JobStage, event: JobEvent) -> JobStage {
    match (stage, event) {
        (JobStage::Created, JobEvent::WorkspaceReady) => JobStage::Building,
        (JobStage::Created, JobEvent::WorkspaceFailed) => JobStage::Failed(BuildError::Resource),
        (JobStage::Building, JobEvent::SegmentsBuilt) => JobStage::Merging,
        (JobStage::Building, JobEvent::SegmentFailed) => JobStage::Failed(BuildError::Io),
        (JobStage::Merging, JobEvent::Merged) => JobStage::Complete,
        (JobStage::Merging, JobEvent::MergeFailed) => JobStage::Failed(BuildError::Io),
        _ => stage,
    }
}

/// The phase that is announced when `event` arrives at `stage`, if any: only a
/// step that succeeded and was waited for is announced.
pub open spec fn phase_after(stage: JobStage, event: JobEvent) -> Option<Phase> {
    match (stage, event) {
        (JobStage::Created, JobEvent::WorkspaceReady) => Some(Phase::Initializing),
        (JobStage::Building, JobEvent::SegmentsBuilt) => Some(Phase::Merging),
        (JobStage::Merging, JobEvent::Merged) => Some(Phase::Complete),
        _ => None,
    }
}

/// The stage reached from `stage` by a run of events.
pub open spec fn stage_reached(stage: JobStage, events: Seq<JobEvent>) -> JobStage
    decreases events.len(),
{
    if events.len() == 0 {
        stage
    } else {
        stage_reached(stage_after(stage, events.first()), events.drop_first())
    }
}

/// The markers stored on the way from `stage` through a run of events, for a
/// job of `total` files.
pub open spec fn markers_stored(stage: JobStage, events: Seq<JobEvent>, total: nat) -> Seq<
    ProgressView,
>
    decreases events.len(),
{
    if events.len() == 0 {
        Seq::empty()
    } else {
        let rest = markers_stored(stage_after(stage, events.first()), events.drop_first(), total);
        match phase_after(stage, events.first()) {
            Some(phase) => seq![phase_view(phase, total)] + rest,
            None => rest,
        }
    }
}

/// A build that has ended stores nothing more and stays as it ended.
pub proof fn lemma_ended_is_final(stage: JobStage, events: Seq<JobEvent>, total: nat)
    requires
        stage is Complete || stage is Failed,
    ensures
        stage_reached(stage, events) == stage,
        markers_stored(stage, events, total).len() == 0,
    decreases events.len(),
{
    if events.len() > 0 {
        lemma_ended_is_final(stage, events.drop_first(), total);
    }
}

/// Only a build that ends complete has stored a marker at 100%: a build that
/// fails, or has not ended, never shows completion.
pub proof fn lemma_full_marker_means_complete(stage: JobStage, events: Seq<JobEvent>, total: nat)
    requires
        stage !is Complete,
    ensures
        (exists|i: int|
            0 <= i < markers_stored(stage, events, total).len() && (#[trigger] markers_stored(
                stage,
                events,
                total,
            )[i]).percentage == FULL_PERCENTAGE) ==> stage_reached(stage, events)
            == JobStage::Complete,
    decreases events.len(),
{
    if events.len() > 0 {
        let next = stage_after(stage, events.first());
        let rest = markers_stored(next, events.drop_first(), total);
        let all = markers_stored(stage, events, total);
        if next is Complete {
            lemma_ended_is_final(next, events.drop_first(), total);
        } else {
            lemma_full_marker_means_complete(next, events.drop_first(), total);
            if exists|i: int| 0 <= i < all.len() && (#[trigger] all[i]).percentage == FULL_PERCENTAGE {
                let i = choose|i: int| 0 <= i < all.len() && (#[trigger] all[i]).percentage
                    == FULL_PERCENTAGE;
                match phase_after(stage, events.first()) {
                    Some(phase) => {
                        assert(phase != Phase::Complete);
                        assert(all[0] == phase_view(phase, total));
                        assert(i > 0);
                        assert(all[i] == rest[i - 1]);
                    },
                    None => {
                        assert(all[i] == rest[i]);
                    },
                }
            }
        }
    }
}

/// A build whose segments could not be written ends there: whatever follows,
/// it has failed with an error of reading or writing, it never merges, and it
/// stores no marker.
pub proof fn lemma_failed_segment_ends_the_build(later: Seq<JobEvent>, total: nat)
    ensures
        stage_reached(JobStage::Building, seq![JobEvent::SegmentFailed] + later)
            == JobStage::Failed(BuildError::Io),
        markers_stored(JobStage::Building, seq![JobEvent::SegmentFailed] + later, total).len() == 0,
{
    let events = seq![JobEvent::SegmentFailed] + later;
    assert(events.first() == JobEvent::SegmentFailed);
    assert(events.drop_first() =~= later);
    lemma_ended_is_final(JobStage::Failed(BuildError::Io), later, total);
}

/// A build that ends complete from its request has stored exactly three
/// markers: of its start, of the merge, and of completion.
pub proof fn lemma_complete_run_markers(events: Seq<JobEvent>, total: nat)
    requires
        stage_reached(JobStage::Created, events) == JobStage::Complete,
    ensures
        markers_stored(JobStage::Created, events, total) == seq![
            phase_view(Phase::Initializing, total),
            phase_view(Phase::Merging, total),
            phase_view(Phase::Complete, total),
        ],
{
    lemma_markers_on_the_way(JobStage::Created, events, total);
}

/// The markers still to come for a build that ends complete.
pub open spec fn markers_ahead(stage: JobStage, total: nat) -> Seq<ProgressView> {
    match stage {
        JobStage::Created => seq![
            phase_view(Phase::Initializing, total),
            phase_view(Phase::Merging, total),
            phase_view(Phase::Complete, total),
        ],
        JobStage::Building => seq![
            phase_view(Phase::Merging, total),
            phase_view(Phase::Complete, total),
        ],
        JobStage::Merging => seq![phase_view(Phase::Complete, total)],
        _ => Seq::empty(),
    }
}

/// On the way to completion a build stores the markers that are still ahead of
/// it, and no others.
pub proof fn lemma_markers_on_the_way(stage: JobStage, events: Seq<JobEvent>, total: nat)
    requires
        stage_reached(stage, events) == JobStage::Complete,
    ensures
        markers_stored(stage, events, total) =~= markers_ahead(stage, total),
    decreases events.len(),
{
    if events.len() > 0 {
        let next = stage_after(stage, events.first());
        if stage is Complete || stage is Failed || next is Failed {
            lemma_ended_is_final(next, events.drop_first(), total);
        } else {
            lemma_markers_on_the_way(next, events.drop_first(), total);
        }
    }
}

/// One build: what it archives, where to, and how far it is.
pub struct ArchiveJob {
    id: String,
    root_dir: String,
    base_dir: String,
    output_path: String,
    total_files: usize,
    stage: JobStage,
}

/// What a job says of itself.
pub struct JobView {
    pub id: Seq<char>,
    pub root_dir: Seq<char>,
    pub base_dir: Seq<char>,
    pub output_path: Seq<char>,
    pub total: nat,
    pub stage: JobStage,
}

impl View for ArchiveJob {
    type V = JobView;

    closed spec fn view(&self) -> JobView {
        JobView {
            id: self.id@,
            root_dir: self.root_dir@,
            base_dir: self.base_dir@,
            output_path: self.output_path@,
            total: self.total_files as nat,
            stage: self.stage,
        }
    }
}

impl ArchiveJob {
    /// A job that has been requested and not begun.
    pub fn new(
        id: String,
        root_dir: String,
        base_dir: String,
        output_path: String,
        total_files: usize,
    ) -> (job: ArchiveJob)
        ensures
            job@ == (JobView {
                id: id@,
                root_dir: root_dir@,
                base_dir: base_dir@,
                output_path: output_path@,
                total: total_files as nat,
                stage: JobStage::Created,
            }),
    {
        ArchiveJob { id, root_dir, base_dir, output_path, total_files, stage: JobStage::Created }
    }

    /// The id the job is known by.
    pub fn id(&self) -> (id: &str)
        ensures
            id@ == self@.id,
    {
        self.id.as_str()
    }

    /// The directory that entry names are relative to.
    pub fn root_dir(&self) -> (dir: &str)
        ensures
            dir@ == self@.root_dir,
    {
        self.root_dir.as_str()
    }

    /// The directory that is archived.
    pub fn base_dir(&self) -> (dir: &str)
        ensures
            dir@ == self@.base_dir,
    {
        self.base_dir.as_str()
    }

    /// The file the archive is written to.
    pub fn output_path(&self) -> (path: &str)
        ensures
            path@ == self@.output_path,
    {
        self.output_path.as_str()
    }

    /// The number of files the job archives.
    pub fn total_files(&self) -> (total: usize)
        ensures
            total == self@.total,
    {
        self.total_files
    }

    /// Where the job stands.
    pub fn stage(&self) -> (stage: JobStage)
        ensures
            stage == self@.stage,
    {
        self.stage
    }

    /// Tells the job how a step ended. Returns the marker to store, if the
    /// step is one that is announced.
    pub fn advance(&mut self, event: JobEvent) -> (marker: Option<ZipProgress>)
        ensures
            final(self)@ == (JobView { stage: stage_after(old(self)@.stage, event), ..old(self)@ }),
            marker.is_some() == phase_after(old(self)@.stage, event).is_some(),
            marker.is_some() ==> marker.unwrap()@ == phase_view(
                phase_after(old(self)@.stage, event).unwrap(),
                old(self)@.total,
            ),
    {
        let (next, phase) = match (self.stage, event) {
            (JobStage::Created, JobEvent::WorkspaceReady) => (
                JobStage::Building,
                Some(Phase::Initializing),
            ),
            (JobStage::Created, JobEvent::WorkspaceFailed) => (
                JobStage::Failed(BuildError::Resource),
                None,
            ),
            (JobStage::Building, JobEvent::SegmentsBuilt) => (JobStage::Merging, Some(Phase::Merging)),
            (JobStage::Building, JobEvent::SegmentFailed) => (JobStage::Failed(BuildError::Io), None),
            (JobStage::Merging, JobEvent::Merged) => (JobStage::Complete, Some(Phase::Complete)),
            (JobStage::Merging, JobEvent::MergeFailed) => (JobStage::Failed(BuildError::Io), None),
            (stage, _) => (stage, None),
        };
        self.stage = next;
        match phase {
            Some(phase) => Some(phase_record(phase, self.total_files)),
            None => None,
        }
    }

    /// How the job ended, if it has: `Ok` where the archive is complete, the
    /// reason where it failed.
    pub fn outcome(&self) -> (ended: Option<Result<(), BuildError>>)
        ensures
            ended == match self@.stage {
                JobStage::Complete => Some(Ok::<(), BuildError>(())),
                JobStage::Failed(error) => Some(Err::<(), BuildError>(error)),
                _ => None::<Result<(), BuildError>>,
            },
    {
        match self.stage {
            JobStage::Complete => Some(Ok(())),
            JobStage::Failed(error) => Some(Err(error)),
            _ => None,
        }
    }
}

} // verus!

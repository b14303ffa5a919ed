//! The reporter of the building phase: it is handed samples of the shared
//! counter of finished files and decides which of them become records.

use crate::models::{ProgressView, ZipProgress, FULL_PERCENTAGE};
use crate::progress::{building_record, building_view, done_of, phase_view, Phase};
use crate::progress::lemma_records_well_formed;
use vstd::prelude::*;

verus! {

/// One sample: how many files the counter showed, and the file named as the
/// current one at that moment.
pub struct Sample {
    pub processed: nat,
    pub current: Seq<char>,
}

/// What the reporter remembers between samples.
pub struct ProgressReporter {
    total_files: usize,
    last_processed: usize,
}

/// What the reporter decided on one sample.
pub struct Report {
    /// The record to store, if the sample showed progress.
    pub publish: Option<ZipProgress>,
    /// Whether the counter has reached the total, so that sampling ends.
    pub finished: bool,
}

/// Whether a sample shows progress over the `last` count that was reported.
pub open spec fn shows_progress(total: nat, last: nat, sample: Sample) -> bool {
    done_of(sample.processed, total) > last
}

/// The count that was last reported once `sample` has been seen.
pub open spec fn last_after(total: nat, last: nat, sample: Sample) -> nat {
    if shows_progress(total, last, sample) {
        done_of(sample.processed, total)
    } else {
        last
    }
}

/// The records that a run of samples leads to, in order: one for each sample
/// that shows progress over what was reported before it.
pub open spec fn reported(total: nat, last: nat, samples: Seq<Sample>) -> Seq<ProgressView>
    decreases samples.len(),
{
    if samples.len() == 0 {
        Seq::empty()
    } else {
        let rest = reported(
            total,
            last_after(total, last, samples.first()),
            samples.drop_first(),
        );
        if shows_progress(total, last, samples.first()) {
            seq![building_view(samples.first().current, samples.first().processed, total)] + rest
        } else {
            rest
        }
    }
}

/// Everything a job that succeeds stores about itself, in order: the marker of
/// its start, the records of the building phase, the marker of the merge and
/// the marker of completion.
pub open spec fn records_of_job(total: nat, samples: Seq<Sample>) -> Seq<ProgressView> {
    seq![phase_view(Phase::Initializing, total)] + reported(total, 0, samples) + seq![
        phase_view(Phase::Merging, total),
        phase_view(Phase::Complete, total),
    ]
}

/// The records of the building phase count upwards from what was reported
/// before them, and never past the total.
pub proof fn lemma_reported_rises(total: nat, last: nat, samples: Seq<Sample>)
    requires
        last <= total,
    ensures
        forall|i: int|
            0 <= i < reported(total, last, samples).len() ==> {
                &&& last < (#[trigger] reported(total, last, samples)[i]).processed_files <= total
                &&& reported(total, last, samples)[i].total_files == total
                &&& reported(total, last, samples)[i].percentage == crate::progress::percentage_of(
                    reported(total, last, samples)[i].processed_files,
                    total,
                )
                &&& reported(total, last, samples)[i].well_formed()
            },
        forall|i: int, j: int|
            0 <= i < j < reported(total, last, samples).len() ==> (#[trigger] reported(
                total,
                last,
                samples,
            )[i]).processed_files < (#[trigger] reported(total, last, samples)[j]).processed_files,
    decreases samples.len(),
{
    if samples.len() > 0 {
        let first = samples.first();
        let next = last_after(total, last, first);
        let rest = reported(total, next, samples.drop_first());
        let all = reported(total, last, samples);
        lemma_reported_rises(total, next, samples.drop_first());
        lemma_records_well_formed(Phase::Scanning, first.current, first.processed, total);
        if shows_progress(total, last, first) {
            assert forall|i: int| 0 <= i < all.len() implies {
                &&& last < (#[trigger] all[i]).processed_files <= total
                &&& all[i].total_files == total
                &&& all[i].percentage == crate::progress::percentage_of(all[i].processed_files, total)
                &&& all[i].well_formed()
            } by {
                if i > 0 {
                    assert(all[i] == rest[i - 1]);
                }
            }
            assert forall|i: int, j: int| 0 <= i < j < all.len() implies (#[trigger] all[i]).processed_files
                < (#[trigger] all[j]).processed_files by {
                assert(all[j] == rest[j - 1]);
                if i > 0 {
                    assert(all[i] == rest[i - 1]);
                }
            }
        }
    }
}

/// The count of finished files never falls from one record of a job to the
/// next, every record keeps to what a record must keep to, and the last record
/// shows all files done at 100%.
pub proof fn lemma_processed_never_falls(total: nat, samples: Seq<Sample>)
    ensures
        forall|i: int, j: int|
            0 <= i <= j < records_of_job(total, samples).len() ==> (#[trigger] records_of_job(
                total,
                samples,
            )[i]).processed_files <= (#[trigger] records_of_job(total, samples)[j]).processed_files,
        forall|i: int|
            0 <= i < records_of_job(total, samples).len() ==> (#[trigger] records_of_job(
                total,
                samples,
            )[i]).well_formed(),
        records_of_job(total, samples).last() == phase_view(Phase::Complete, total),
        records_of_job(total, samples).last().processed_files == total,
        records_of_job(total, samples).last().percentage == FULL_PERCENTAGE,
        forall|i: int|
            0 <= i < records_of_job(total, samples).len() - 1 ==> (#[trigger] records_of_job(
                total,
                samples,
            )[i]).percentage < FULL_PERCENTAGE || records_of_job(total, samples)[i].processed_files
                == total,
{
    let live = reported(total, 0, samples);
    let all = records_of_job(total, samples);
    lemma_reported_rises(total, 0, samples);
    lemma_records_well_formed(Phase::Initializing, Seq::empty(), 0, total);
    lemma_records_well_formed(Phase::Merging, Seq::empty(), 0, total);
    lemma_records_well_formed(Phase::Complete, Seq::empty(), 0, total);
    assert(all.len() == live.len() + 3);
    assert(all[0] == phase_view(Phase::Initializing, total));
    assert(all[live.len() as int + 1] == phase_view(Phase::Merging, total));
    assert(all[live.len() as int + 2] == phase_view(Phase::Complete, total));
    assert forall|i: int| 1 <= i <= live.len() implies #[trigger] all[i] == live[i - 1] by {}
    assert forall|i: int, j: int| 0 <= i <= j < all.len() implies (#[trigger] all[i]).processed_files
        <= (#[trigger] all[j]).processed_files by {
        if 1 <= i <= live.len() {
            assert(all[i] == live[i - 1]);
        }
        if 1 <= j <= live.len() {
            assert(all[j] == live[j - 1]);
        }
    }
    assert forall|i: int| 0 <= i < all.len() implies (#[trigger] all[i]).well_formed() by {
        if 1 <= i <= live.len() {
            assert(all[i] == live[i - 1]);
        }
    }
    assert forall|i: int| 0 <= i < all.len() - 1 implies (#[trigger] all[i]).percentage
        < FULL_PERCENTAGE || all[i].processed_files == total by {
        if 1 <= i <= live.len() {
            assert(all[i] == live[i - 1]);
            if total > 0 {
                crate::progress::lemma_percentage_of(live[i - 1].processed_files, total);
                let done = live[i - 1].processed_files;
                if done < total && live[i - 1].percentage >= FULL_PERCENTAGE {
                    assert(false) by (nonlinear_arith)
                        requires
                            live[i - 1].percentage * total <= done * FULL_PERCENTAGE,
                            live[i - 1].percentage >= FULL_PERCENTAGE,
                            done < total,
                            total > 0,
                    ;
                }
            }
        }
    }
}

impl ProgressReporter {
    /// The number of files of the job.
    pub closed spec fn total(&self) -> nat {
        self.total_files as nat
    }

    /// The count that was last reported.
    pub closed spec fn last(&self) -> nat {
        self.last_processed as nat
    }

    /// A reporter for a job of `total_files` files, of which none is reported
    /// as done.
    pub fn new(total_files: usize) -> (reporter: ProgressReporter)
        ensures
            reporter.total() == total_files,
            reporter.last() == 0,
    {
        ProgressReporter { total_files, last_processed: 0 }
    }

    /// Takes one sample of the counter. A record is made only where the sample
    /// shows progress; sampling ends once the counter has reached the total.
    pub fn sample(&mut self, processed: usize, current: &str) -> (report: Report)
        ensures
            final(self).total() == old(self).total(),
            final(self).last() == last_after(
                old(self).total(),
                old(self).last(),
                Sample { processed: processed as nat, current: current@ },
            ),
            report.finished == (processed >= old(self).total()),
            report.publish.is_some() == shows_progress(
                old(self).total(),
                old(self).last(),
                Sample { processed: processed as nat, current: current@ },
            ),
            report.publish.is_some() ==> report.publish.unwrap()@ == building_view(
                current@,
                processed as nat,
                old(self).total(),
            ),
    {
        let done = if processed > self.total_files {
            self.total_files
        } else {
            processed
        };
        let publish = if done > self.last_processed {
            self.last_processed = done;
            Some(building_record(current, processed, self.total_files))
        } else {
            None
        };
        Report { publish, finished: processed >= self.total_files }
    }
}

} // verus!

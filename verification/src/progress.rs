//! The progress records of a job: the markers of its phases, and the live
//! records of the building phase.

use crate::models::{ProgressView, ZipProgress, FULL_PERCENTAGE};
use vstd::prelude::*;
use vstd::string::StringExecFns;

verus! {

/// The percentage shown while segments are merged, in hundredths of a percent.
pub const MERGING_PERCENTAGE: u32 = 9_500;

/// The phases of a job that are announced by a marker of their own.
#[derive(Clone, Copy, Debug, PartialEq, Eq, Structural)]
pub enum Phase {
    /// The directory is being scanned; the total is not known yet.
    Scanning,
    /// The total is known; the build has not been asked for.
    Ready,
    /// The build has been asked for.
    Creating,
    /// The build is starting its workers.
    Initializing,
    /// All segments are written; they are being merged.
    Merging,
    /// The archive is complete.
    Complete,
}

/// The text a phase is announced with.
pub open spec fn phase_label(phase: Phase) -> Seq<char> {
    match phase {
        Phase::Scanning => "Scanning directory..."@,
        Phase::Ready => "Ready to start download..."@,
        Phase::Creating => "Creating ZIP file..."@,
        Phase::Initializing => "Initializing high-performance compression..."@,
        Phase::Merging => "Merging ZIP segments..."@,
        Phase::Complete => "ZIP archive complete"@,
    }
}

/// The marker of a phase of a job with `total` files. Nothing is done before
/// the build, everything once the segments are written; the total is unknown
/// while scanning.
pub open spec fn phase_view(phase: Phase, total: nat) -> ProgressView {
    ProgressView {
        current_file: phase_label(phase),
        processed_files: match phase {
            Phase::Merging | Phase::Complete => total,
            _ => 0,
        },
        total_files: match phase {
            Phase::Scanning => 0,
            _ => total,
        },
        percentage: match phase {
            Phase::Merging => MERGING_PERCENTAGE as nat,
            Phase::Complete => FULL_PERCENTAGE as nat,
            _ => 0,
        },
    }
}

/// How many files count as done when `processed` were counted of `total`:
/// never more than there are.
pub open spec fn done_of(processed: nat, total: nat) -> nat {
    if processed > total {
        total
    } else {
        processed
    }
}

/// The share of `done` in `total`, in hundredths of a percent, rounded down;
/// zero where there is nothing to do.
pub open spec fn percentage_of(done: nat, total: nat) -> nat {
    if total == 0 {
        0
    } else {
        ((done * FULL_PERCENTAGE) / (total as int)) as nat
    }
}

/// The live record of the building phase.
pub open spec fn building_view(current: Seq<char>, processed: nat, total: nat) -> ProgressView {
    ProgressView {
        current_file: current,
        processed_files: done_of(processed, total),
        total_files: total,
        percentage: percentage_of(done_of(processed, total), total),
    }
}

/// The percentage lies within a hundredth of a percent below the true share,
/// and never passes 100%.
pub proof fn lemma_percentage_of(done: nat, total: nat)
    requires
        total > 0,
        done <= total,
    ensures
        percentage_of(done, total) <= FULL_PERCENTAGE,
        percentage_of(done, total) * total <= done * FULL_PERCENTAGE,
        done * FULL_PERCENTAGE < (percentage_of(done, total) + 1) * total,
        done == total ==> percentage_of(done, total) == FULL_PERCENTAGE,
        done == 0 ==> percentage_of(done, total) == 0,
{
    let full = FULL_PERCENTAGE as int;
    let scaled = done * full;
    let share = scaled / (total as int);
    assert(scaled == (total as int) * share + scaled % (total as int)) by {
        vstd::arithmetic::div_mod::lemma_fundamental_div_mod(scaled, total as int);
    }
    assert(0 <= scaled % (total as int) < total) by {
        vstd::arithmetic::div_mod::lemma_mod_bound(scaled, total as int);
    }
    assert(share * total == total * share) by (nonlinear_arith);
    assert((share + 1) * total == total * share + total) by (nonlinear_arith);
    assert(scaled <= total * full) by (nonlinear_arith)
        requires
            scaled == done * full,
            done <= total,
            full >= 0,
    ;
    assert(share <= full) by (nonlinear_arith)
        requires
            total * share <= total * full,
            total > 0,
    ;
    if done == total {
        assert(share >= full) by (nonlinear_arith)
            requires
                total * full < total * share + total,
                total > 0,
        ;
    }
    if done == 0 {
        assert(scaled == 0);
        assert(share == 0) by (nonlinear_arith)
            requires
                0 == total * share + scaled % (total as int),
                0 <= scaled % (total as int),
                share >= 0,
                total > 0,
        ;
    }
}

/// Every marker and every live record keeps to what a record must keep to.
pub proof fn lemma_records_well_formed(phase: Phase, current: Seq<char>, processed: nat, total: nat)
    ensures
        phase_view(phase, total).well_formed(),
        building_view(current, processed, total).well_formed(),
{
    if total > 0 {
        lemma_percentage_of(done_of(processed, total), total);
    }
}

/// The text of a phase.
pub fn phase_text(phase: Phase) -> (text: &'static str)
    ensures
        text@ == phase_label(phase),
{
    match phase {
        Phase::Scanning => "Scanning directory...",
        Phase::Ready => "Ready to start download...",
        Phase::Creating => "Creating ZIP file...",
        Phase::Initializing => "Initializing high-performance compression...",
        Phase::Merging => "Merging ZIP segments...",
        Phase::Complete => "ZIP archive complete",
    }
}

/// Makes the marker of a phase of a job with `total` files.
pub fn phase_record(phase: Phase, total: usize) -> (record: ZipProgress)
    ensures
        record@ == phase_view(phase, total as nat),
        record@.well_formed(),
{
    let processed_files = match phase {
        Phase::Merging | Phase::Complete => total,
        _ => 0,
    };
    let total_files = match phase {
        Phase::Scanning => 0,
        _ => total,
    };
    let percentage = match phase {
        Phase::Merging => MERGING_PERCENTAGE,
        Phase::Complete => FULL_PERCENTAGE,
        _ => 0,
    };
    ZipProgress {
        current_file: String::from_str(phase_text(phase)),
        processed_files,
        total_files,
        percentage,
    }
}

/// Computes how far `processed` files of `total` are, in hundredths of a
/// percent: the share of the files that count as done.
pub fn percentage(processed: usize, total: usize) -> (share: u32)
    ensures
        share == percentage_of(done_of(processed as nat, total as nat), total as nat),
        share <= FULL_PERCENTAGE,
{
    if total == 0 {
        0
    } else {
        let done = if processed > total {
            total
        } else {
            processed
        };
        proof {
            lemma_percentage_of(done as nat, total as nat);
        }
        let scaled: u128 = (done as u128) * (FULL_PERCENTAGE as u128);
        (scaled / (total as u128)) as u32
    }
}

/// Makes the live record of the building phase: `processed` files counted of
/// `total`, with `current` being worked on.
pub fn building_record(current: &str, processed: usize, total: usize) -> (record: ZipProgress)
    ensures
        record@ == building_view(current@, processed as nat, total as nat),
        record@.well_formed(),
{
    let done = if processed > total {
        total
    } else {
        processed
    };
    proof {
        lemma_records_well_formed(Phase::Scanning, current@, processed as nat, total as nat);
    }
    ZipProgress {
        current_file: String::from_str(current),
        processed_files: done,
        total_files: total,
        percentage: percentage(processed, total),
    }
}

} // verus!

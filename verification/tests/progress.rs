use serve_folder::models::{ZipProgress, FULL_PERCENTAGE};
use serve_folder::progress::{building_record, percentage, phase_record, phase_text, Phase};
use serve_folder::progress::MERGING_PERCENTAGE;
use serve_folder::job::{ArchiveJob, JobEvent};
use serve_folder::reporter::ProgressReporter;

fn fields(record: &ZipProgress) -> (&str, usize, usize, u32) {
    (record.current_file.as_str(), record.processed_files, record.total_files, record.percentage)
}

#[test]
fn default_record_is_empty() {
    assert_eq!(fields(&ZipProgress::default()), ("", 0, 0, 0));
}

#[test]
fn clone_keeps_every_field() {
    let record = building_record("a/b.txt", 3, 7);
    assert_eq!(fields(&record.clone()), fields(&record));
}

#[test]
fn markers_of_the_phases() {
    assert_eq!(fields(&phase_record(Phase::Scanning, 12)), ("Scanning directory...", 0, 0, 0));
    assert_eq!(fields(&phase_record(Phase::Ready, 12)), ("Ready to start download...", 0, 12, 0));
    assert_eq!(fields(&phase_record(Phase::Creating, 12)), ("Creating ZIP file...", 0, 12, 0));
    assert_eq!(
        fields(&phase_record(Phase::Initializing, 12)),
        ("Initializing high-performance compression...", 0, 12, 0)
    );
    assert_eq!(fields(&phase_record(Phase::Merging, 12)), ("Merging ZIP segments...", 12, 12, 9_500));
    assert_eq!(fields(&phase_record(Phase::Complete, 12)), ("ZIP archive complete", 12, 12, 10_000));
    assert_eq!(phase_text(Phase::Complete), "ZIP archive complete");
    assert_eq!(MERGING_PERCENTAGE, 9_500);
    assert_eq!(FULL_PERCENTAGE, 10_000);
}

#[test]
fn empty_job_goes_straight_to_full() {
    assert_eq!(fields(&phase_record(Phase::Complete, 0)), ("ZIP archive complete", 0, 0, 10_000));
}

#[test]
fn percentage_is_rounded_down_to_hundredths() {
    assert_eq!(percentage(0, 0), 0);
    assert_eq!(percentage(0, 3), 0);
    assert_eq!(percentage(1, 3), 3_333);
    assert_eq!(percentage(2, 3), 6_666);
    assert_eq!(percentage(3, 3), 10_000);
    assert_eq!(percentage(1, 1000), 10);
    assert_eq!(percentage(999, 1000), 9_990);
    assert_eq!(percentage(usize::MAX - 1, usize::MAX), 9_999);
    assert_eq!(percentage(usize::MAX, usize::MAX), 10_000);
    assert_eq!(percentage(7, 3), 10_000);
    assert_eq!(percentage(7, 0), 0);
}

#[test]
fn live_record_never_shows_more_than_the_total() {
    assert_eq!(fields(&building_record("x", 5, 10)), ("x", 5, 10, 5_000));
    assert_eq!(fields(&building_record("x", 11, 10)), ("x", 10, 10, 10_000));
    assert_eq!(fields(&building_record("x", 4, 0)), ("x", 0, 0, 0));
}

#[test]
fn reporter_reports_only_progress() {
    let mut reporter = ProgressReporter::new(3);
    let report = reporter.sample(0, "");
    assert!(report.publish.is_none());
    assert!(!report.finished);
    let report = reporter.sample(1, "a");
    assert_eq!(fields(&report.publish.unwrap()), ("a", 1, 3, 3_333));
    assert!(!report.finished);
    let report = reporter.sample(1, "b");
    assert!(report.publish.is_none());
    let report = reporter.sample(0, "stale");
    assert!(report.publish.is_none());
    let report = reporter.sample(3, "c");
    assert_eq!(fields(&report.publish.unwrap()), ("c", 3, 3, 10_000));
    assert!(report.finished);
    let report = reporter.sample(5, "d");
    assert!(report.publish.is_none());
    assert!(report.finished);
}

#[test]
fn reporter_of_an_empty_job_ends_at_once() {
    let mut reporter = ProgressReporter::new(0);
    let report = reporter.sample(0, "");
    assert!(report.publish.is_none());
    assert!(report.finished);
}

#[test]
fn single_file_reaches_one_of_one() {
    let mut reporter = ProgressReporter::new(1);
    assert!(!reporter.sample(0, "big.bin").finished);
    let report = reporter.sample(1, "big.bin");
    assert!(report.finished);
    assert_eq!(fields(&report.publish.unwrap()), ("big.bin", 1, 1, 10_000));
}

#[test]
fn every_record_of_a_build_is_consistent() {
    let total = 1000usize;
    let mut reporter = ProgressReporter::new(total);
    let mut last = 0usize;
    let mut counter = 0usize;
    loop {
        let report = reporter.sample(counter, "file");
        if let Some(record) = report.publish {
            assert!(record.processed_files <= record.total_files);
            assert!(record.processed_files > last);
            last = record.processed_files;
            let scaled = record.processed_files as u128 * 10_000;
            let shown = record.percentage as u128;
            assert!(shown * total as u128 <= scaled && scaled < (shown + 1) * total as u128);
            let exact = (record.processed_files as f64 / record.total_files as f64) * 100.0;
            assert!((exact - record.percentage as f64 / 100.0).abs() < 0.011);
        }
        if report.finished {
            break;
        }
        counter += 37;
    }
    assert_eq!(last, total);
}

#[test]
fn processed_count_never_falls_from_start_to_completion() {
    let total = 7usize;
    let mut job = ArchiveJob::new(
        "zip_1".to_string(),
        "/r".to_string(),
        "/r".to_string(),
        "/tmp/out.zip".to_string(),
        total,
    );
    let mut stored = vec![job.advance(JobEvent::WorkspaceReady).unwrap()];
    let mut reporter = ProgressReporter::new(total);
    for counter in [0usize, 1, 1, 3, 2, 6, 7, 9] {
        if let Some(record) = reporter.sample(counter, "file").publish {
            stored.push(record);
        }
    }
    stored.push(job.advance(JobEvent::SegmentsBuilt).unwrap());
    stored.push(job.advance(JobEvent::Merged).unwrap());
    let counts: Vec<usize> = stored.iter().map(|record| record.processed_files).collect();
    assert_eq!(counts, vec![0, 1, 3, 6, 7, 7, 7]);
    assert!(counts.windows(2).all(|pair| pair[0] <= pair[1]));
    assert!(stored.iter().all(|record| record.processed_files <= record.total_files));
    let last = stored.last().unwrap();
    assert_eq!((last.processed_files, last.total_files, last.percentage), (7, 7, 10_000));
}

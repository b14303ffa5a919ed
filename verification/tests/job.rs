use serve_folder::job::{ArchiveJob, BuildError, JobEvent, JobStage};
use serve_folder::models::ZipProgress;

fn fields(record: &ZipProgress) -> (&str, usize, usize, u32) {
    (record.current_file.as_str(), record.processed_files, record.total_files, record.percentage)
}

fn job(total: usize) -> ArchiveJob {
    ArchiveJob::new(
        "zip_1".to_string(),
        "/srv/data".to_string(),
        "/srv/data/sub".to_string(),
        "/tmp/out.zip".to_string(),
        total,
    )
}

#[test]
fn new_job_keeps_what_it_was_given() {
    let job = job(5);
    assert_eq!(job.id(), "zip_1");
    assert_eq!(job.root_dir(), "/srv/data");
    assert_eq!(job.base_dir(), "/srv/data/sub");
    assert_eq!(job.output_path(), "/tmp/out.zip");
    assert_eq!(job.total_files(), 5);
    assert_eq!(job.stage(), JobStage::Created);
    assert!(job.outcome().is_none());
}

#[test]
fn successful_build_stores_three_markers() {
    let mut job = job(5);
    let marker = job.advance(JobEvent::WorkspaceReady).unwrap();
    assert_eq!(fields(&marker), ("Initializing high-performance compression...", 0, 5, 0));
    assert_eq!(job.stage(), JobStage::Building);
    let marker = job.advance(JobEvent::SegmentsBuilt).unwrap();
    assert_eq!(fields(&marker), ("Merging ZIP segments...", 5, 5, 9_500));
    assert_eq!(job.stage(), JobStage::Merging);
    assert!(job.outcome().is_none());
    let marker = job.advance(JobEvent::Merged).unwrap();
    assert_eq!(fields(&marker), ("ZIP archive complete", 5, 5, 10_000));
    assert_eq!(job.stage(), JobStage::Complete);
    assert_eq!(job.outcome(), Some(Ok(())));
}

#[test]
fn empty_directory_builds_to_full() {
    let mut job = job(0);
    job.advance(JobEvent::WorkspaceReady);
    job.advance(JobEvent::SegmentsBuilt);
    let marker = job.advance(JobEvent::Merged).unwrap();
    assert_eq!(fields(&marker), ("ZIP archive complete", 0, 0, 10_000));
    assert_eq!(job.outcome(), Some(Ok(())));
}

#[test]
fn missing_workspace_fails_before_any_marker() {
    let mut job = job(5);
    assert!(job.advance(JobEvent::WorkspaceFailed).is_none());
    assert_eq!(job.stage(), JobStage::Failed(BuildError::Resource));
    assert_eq!(job.outcome(), Some(Err(BuildError::Resource)));
}

#[test]
fn unreadable_file_fails_the_build_and_never_completes() {
    let mut job = job(5);
    job.advance(JobEvent::WorkspaceReady);
    assert!(job.advance(JobEvent::SegmentFailed).is_none());
    assert_eq!(job.outcome(), Some(Err(BuildError::Io)));
    for event in [
        JobEvent::WorkspaceReady,
        JobEvent::SegmentsBuilt,
        JobEvent::Merged,
        JobEvent::MergeFailed,
    ] {
        assert!(job.advance(event).is_none());
        assert_eq!(job.stage(), JobStage::Failed(BuildError::Io));
    }
}

#[test]
fn failed_merge_fails_the_build() {
    let mut job = job(5);
    job.advance(JobEvent::WorkspaceReady);
    job.advance(JobEvent::SegmentsBuilt);
    assert!(job.advance(JobEvent::MergeFailed).is_none());
    assert_eq!(job.outcome(), Some(Err(BuildError::Io)));
}

#[test]
fn steps_out_of_turn_change_nothing() {
    let mut job = job(5);
    assert!(job.advance(JobEvent::Merged).is_none());
    assert!(job.advance(JobEvent::SegmentsBuilt).is_none());
    assert!(job.advance(JobEvent::SegmentFailed).is_none());
    assert_eq!(job.stage(), JobStage::Created);
    job.advance(JobEvent::WorkspaceReady);
    assert!(job.advance(JobEvent::WorkspaceReady).is_none());
    assert!(job.advance(JobEvent::Merged).is_none());
    assert_eq!(job.stage(), JobStage::Building);
}

#[test]
fn complete_build_stays_complete() {
    let mut job = job(1);
    job.advance(JobEvent::WorkspaceReady);
    job.advance(JobEvent::SegmentsBuilt);
    job.advance(JobEvent::Merged);
    assert!(job.advance(JobEvent::MergeFailed).is_none());
    assert!(job.advance(JobEvent::SegmentFailed).is_none());
    assert_eq!(job.outcome(), Some(Ok(())));
}

use serve_folder::segments::{entry_name, fresh_segment_name, merge_plan, plan_segment};
use serve_folder::segments::plan_segments;
use serve_folder::segments::{determine_optimal_compression, merge_compression, segment_file_name};
use serve_folder::segments::{Compression, MergeStep, SegmentEntry};
use serve_folder::text::append_decimal;
use serve_folder::walker::{collect_files_for_target, WalkEntry};

fn entry(name: &str) -> SegmentEntry {
    SegmentEntry { name: name.to_string(), is_dir: false }
}

fn directory(name: &str) -> SegmentEntry {
    SegmentEntry { name: name.to_string(), is_dir: true }
}

fn shown(steps: &Vec<MergeStep>) -> Vec<String> {
    steps
        .iter()
        .map(|step| match step {
            MergeStep::Copy { segment, index, name } => format!("copy {} {} {}", segment, index, name),
            MergeStep::Discard { segment } => format!("discard {}", segment),
        })
        .collect()
}

#[test]
fn numbers_are_written_in_decimal() {
    for n in [0u128, 7, 9, 10, 11, 99, 100, 101, 12_345, u64::MAX as u128, u128::MAX] {
        let mut text = String::from("n=");
        append_decimal(&mut text, n);
        assert_eq!(text, format!("n={}", n));
    }
}

#[test]
fn segment_names_carry_their_number() {
    assert_eq!(segment_file_name(0), "segment_0.zip");
    assert_eq!(segment_file_name(42), "segment_42.zip");
    assert_eq!(segment_file_name(u64::MAX), "segment_18446744073709551615.zip");
}

#[test]
fn segment_names_of_different_numbers_differ() {
    let numbers = [0u64, 1, 9, 10, 11, 19, 90, 99, 100, 101, 110, 1_000, u64::MAX - 1, u64::MAX];
    for (i, a) in numbers.iter().enumerate() {
        for b in &numbers[i + 1..] {
            assert_ne!(segment_file_name(*a), segment_file_name(*b));
        }
    }
}

#[test]
fn segments_are_deflated_and_the_final_archive_is_stored() {
    assert_eq!(determine_optimal_compression(), Compression::Deflated);
    assert_eq!(merge_compression(), Compression::Stored);
}

#[test]
fn fresh_segment_names_are_well_formed() {
    for _ in 0..20 {
        let name = fresh_segment_name();
        let number = name.strip_prefix("segment_").unwrap().strip_suffix(".zip").unwrap();
        assert_eq!(segment_file_name(number.parse::<u64>().unwrap()), name);
    }
}

#[test]
fn entries_are_named_relative_to_the_root() {
    assert_eq!(entry_name("/srv/data/a/b.txt", "/srv/data"), "a/b.txt");
    assert_eq!(entry_name("/srv/data/a/b.txt", "/srv/data/"), "a/b.txt");
    assert_eq!(entry_name("/srv/data/a/b.txt", "/srv/data/a"), "b.txt");
    assert_eq!(entry_name("/srv/data", "/srv/data"), "");
}

#[test]
fn entries_outside_the_root_keep_their_path() {
    assert_eq!(entry_name("/etc/passwd", "/srv/data"), "/etc/passwd");
    assert_eq!(entry_name("/srv/database/x", "/srv/data"), "/srv/database/x");
}

#[test]
fn segment_plan_follows_the_group() {
    let group = vec!["/r/a/1".to_string(), "/r/a/2".to_string(), "/elsewhere/3".to_string()];
    let jobs = plan_segment(&group, "/r");
    assert_eq!(jobs.len(), 3);
    let seen: Vec<(&str, &str)> = jobs.iter().map(|j| (j.source.as_str(), j.name.as_str())).collect();
    assert_eq!(seen, vec![("/r/a/1", "a/1"), ("/r/a/2", "a/2"), ("/elsewhere/3", "/elsewhere/3")]);
    assert!(plan_segment(&Vec::new(), "/r").is_empty());
}

#[test]
fn every_group_gets_one_segment_plan() {
    let groups = vec![
        vec!["/r/a/1".to_string(), "/r/a/2".to_string()],
        vec!["/r/b/1".to_string()],
        vec![],
    ];
    let plans = plan_segments(&groups, "/r");
    let names: Vec<Vec<&str>> =
        plans.iter().map(|plan| plan.iter().map(|job| job.name.as_str()).collect()).collect();
    assert_eq!(names, vec![vec!["a/1", "a/2"], vec!["b/1"], vec![]]);
    let sources: Vec<Vec<&str>> =
        plans.iter().map(|plan| plan.iter().map(|job| job.source.as_str()).collect()).collect();
    assert_eq!(sources, vec![vec!["/r/a/1", "/r/a/2"], vec!["/r/b/1"], vec![]]);
    assert!(plan_segments(&Vec::new(), "/r").is_empty());
}

#[test]
fn merge_copies_files_and_skips_directories() {
    let segments = vec![
        vec![directory("a/"), entry("a/1"), entry("a/2")],
        vec![],
        vec![entry("b/1"), directory("b/"), directory("c/"), entry("c/1")],
        vec![directory("d/")],
    ];
    assert_eq!(
        shown(&merge_plan(&segments)),
        vec![
            "copy 0 1 a/1",
            "copy 0 2 a/2",
            "discard 0",
            "discard 1",
            "copy 2 0 b/1",
            "copy 2 3 c/1",
            "discard 2",
            "discard 3",
        ]
    );
}

#[test]
fn merge_of_nothing_is_nothing() {
    assert!(merge_plan(&Vec::new()).is_empty());
}

#[test]
fn final_archive_names_every_file_once() {
    let mut walk = Vec::new();
    let mut expected = Vec::new();
    for d in 0..50 {
        for f in 0..20 {
            walk.push(WalkEntry { path: format!("/r/d{:02}/f{:02}", d, f), is_file: true });
            expected.push(format!("d{:02}/f{:02}", d, f));
        }
    }
    let mut groups = collect_files_for_target(&walk, 16);
    groups.reverse();
    let segments: Vec<Vec<SegmentEntry>> = groups
        .iter()
        .map(|group| {
            let mut entries = vec![directory("placeholder/")];
            for job in plan_segment(group, "/r") {
                entries.push(SegmentEntry { name: job.name, is_dir: false });
            }
            entries
        })
        .collect();
    let steps = merge_plan(&segments);
    let mut names: Vec<String> = Vec::new();
    let mut discarded = 0;
    for step in &steps {
        match step {
            MergeStep::Copy { name, .. } => names.push(name.clone()),
            MergeStep::Discard { .. } => discarded += 1,
        }
    }
    assert_eq!(discarded, 16);
    names.sort();
    assert_eq!(names, expected);
}

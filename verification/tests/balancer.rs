use serve_folder::balance::{balance_file_groups, sort_by_size};
use serve_folder::balance::{target_group_count, MIN_TARGET_GROUPS, SPLIT_THRESHOLD};

fn group(start: u32, len: u32) -> Vec<u32> {
    (start..start + len).collect()
}

fn sizes(groups: &Vec<Vec<u32>>) -> Vec<usize> {
    groups.iter().map(|g| g.len()).collect()
}

fn all_files(groups: &Vec<Vec<u32>>) -> Vec<u32> {
    let mut files: Vec<u32> = groups.iter().flatten().copied().collect();
    files.sort();
    files
}

#[test]
fn target_is_twice_the_cores_and_at_least_four() {
    assert_eq!(MIN_TARGET_GROUPS, 4);
    assert_eq!(target_group_count(0), 4);
    assert_eq!(target_group_count(1), 4);
    assert_eq!(target_group_count(2), 4);
    assert_eq!(target_group_count(3), 6);
    assert_eq!(target_group_count(8), 16);
}

#[test]
fn target_is_capped_at_the_largest_count() {
    assert_eq!(target_group_count(usize::MAX / 2), usize::MAX - 1);
    assert_eq!(target_group_count(usize::MAX / 2 + 1), usize::MAX);
    assert_eq!(target_group_count(usize::MAX), usize::MAX);
}

#[test]
fn one_large_group_is_cut_in_two_by_position() {
    let mut groups = vec![group(0, 1000)];
    balance_file_groups(&mut groups, 16);
    assert_eq!(groups, vec![group(0, 500), group(500, 500)]);
}

#[test]
fn odd_group_keeps_the_smaller_half_in_front() {
    let mut groups = vec![group(0, 11)];
    balance_file_groups(&mut groups, 4);
    assert_eq!(groups, vec![group(0, 5), group(5, 6)]);
}

#[test]
fn group_at_the_threshold_is_not_cut() {
    assert_eq!(SPLIT_THRESHOLD, 10);
    let mut groups = vec![group(0, 10)];
    balance_file_groups(&mut groups, 4);
    assert_eq!(groups, vec![group(0, 10)]);
}

#[test]
fn largest_groups_are_cut_first() {
    let mut groups = vec![group(0, 12), group(100, 40), group(200, 3), group(300, 20)];
    balance_file_groups(&mut groups, 6);
    assert_eq!(
        groups,
        vec![
            group(100, 20),
            group(300, 10),
            group(0, 12),
            group(200, 3),
            group(120, 20),
            group(310, 10),
        ]
    );
}

#[test]
fn cutting_stops_when_no_group_is_large_enough() {
    let mut groups = vec![group(0, 4), group(10, 30), group(50, 9)];
    balance_file_groups(&mut groups, 100);
    assert_eq!(groups, vec![group(10, 15), group(50, 9), group(0, 4), group(25, 15)]);
}

#[test]
fn groups_between_target_and_twice_target_are_left_alone() {
    let mut groups = vec![group(0, 50), group(100, 1), group(200, 20), group(300, 2), group(400, 9)];
    let before = groups.clone();
    balance_file_groups(&mut groups, 4);
    assert_eq!(groups, before);
    let mut eight: Vec<Vec<u32>> = (0..8).map(|i| group(i * 10, 8 - i)).collect();
    let before = eight.clone();
    balance_file_groups(&mut eight, 4);
    assert_eq!(eight, before);
}

#[test]
fn one_group_more_than_twice_the_target_is_joined_down_to_it() {
    let mut groups: Vec<Vec<u32>> = (0..9).map(|i| group(i * 10, 1)).collect();
    balance_file_groups(&mut groups, 4);
    assert_eq!(groups.len(), 4);
    assert_eq!(all_files(&groups), vec![0, 10, 20, 30, 40, 50, 60, 70, 80]);
}

#[test]
fn too_many_groups_are_joined_smallest_first() {
    let mut groups: Vec<Vec<u32>> = vec![
        group(0, 5),
        group(10, 1),
        group(20, 100),
        group(200, 2),
        group(300, 3),
    ];
    balance_file_groups(&mut groups, 2);
    // 1+2 -> 3; then 3 (older) + 3 (joined) -> 6, which leaves 5, 6, 100; one more round joins 5 and 6.
    assert_eq!(sizes(&groups), vec![11, 100]);
    assert_eq!(
        groups[0],
        vec![0, 1, 2, 3, 4, 300, 301, 302, 10, 200, 201]
    );
    assert_eq!(groups[1], group(20, 100));
}

#[test]
fn joining_always_takes_the_two_smallest() {
    let mut groups = vec![
        group(0, 1),
        group(10, 1),
        group(20, 5),
        group(30, 100),
        group(200, 100),
        group(400, 100),
        group(600, 100),
    ];
    balance_file_groups(&mut groups, 3);
    // 1 + 1, then 2 + 5, then 7 + 100, then 100 + 100: never the two in front of an older order.
    assert_eq!(sizes(&groups), vec![100, 107, 200]);
    assert_eq!(groups[0], group(600, 100));
    assert_eq!(groups[1][..7], [0, 10, 20, 21, 22, 23, 24]);
    assert_eq!(groups[1][7..], group(30, 100)[..]);
}

#[test]
fn joining_with_a_target_of_zero_ends_with_one_group() {
    let mut groups = vec![group(0, 1), group(10, 2), group(20, 3)];
    balance_file_groups(&mut groups, 0);
    // 1 + 2 make a group of 3, which goes behind the older group of 3.
    assert_eq!(groups, vec![vec![20, 21, 22, 0, 10, 11]]);
}

#[test]
fn no_groups_stay_no_groups() {
    let mut groups: Vec<Vec<u32>> = Vec::new();
    balance_file_groups(&mut groups, 8);
    assert!(groups.is_empty());
    balance_file_groups(&mut groups, 0);
    assert!(groups.is_empty());
}

#[test]
fn balancing_keeps_every_file_exactly_once() {
    for target in [0usize, 1, 2, 4, 7, 16, 64, 500] {
        let mut groups: Vec<Vec<u32>> = (0..50u32).map(|d| group(d * 100, 1 + (d * 7) % 23)).collect();
        let before = all_files(&groups);
        balance_file_groups(&mut groups, target);
        assert_eq!(all_files(&groups), before);
        assert!(groups.iter().all(|g| !g.is_empty()));
    }
}

#[test]
fn fifty_directories_of_twenty_files_approach_the_target() {
    let make = || -> Vec<Vec<u32>> { (0..50u32).map(|d| group(d * 20, 20)).collect() };
    let mut groups = make();
    balance_file_groups(&mut groups, 4);
    assert_eq!(groups.len(), 4);
    let mut groups = make();
    balance_file_groups(&mut groups, 16);
    assert_eq!(groups.len(), 16);
    let mut groups = make();
    balance_file_groups(&mut groups, 32);
    assert_eq!(groups.len(), 50);
    let mut groups = make();
    balance_file_groups(&mut groups, 64);
    assert_eq!(groups.len(), 64);
    let mut groups = make();
    balance_file_groups(&mut groups, 128);
    assert_eq!(groups.len(), 100);
    assert_eq!(all_files(&groups), (0..1000).collect::<Vec<u32>>());
}

#[test]
fn sorting_is_stable_in_both_directions() {
    let mut groups = vec![group(0, 2), group(10, 3), group(20, 2), group(30, 1), group(40, 3)];
    sort_by_size(&mut groups, true);
    assert_eq!(groups, vec![group(10, 3), group(40, 3), group(0, 2), group(20, 2), group(30, 1)]);
    sort_by_size(&mut groups, false);
    assert_eq!(groups, vec![group(30, 1), group(0, 2), group(20, 2), group(10, 3), group(40, 3)]);
}

use serve_folder::balance::target_group_count;
use serve_folder::walker::{collect_files_by_directory, collect_files_for_target};
use serve_folder::walker::{count_files_in_directory, group_by_directory, list_files, WalkEntry};

fn file(path: &str) -> WalkEntry {
    WalkEntry { path: path.to_string(), is_file: true }
}

fn dir(path: &str) -> WalkEntry {
    WalkEntry { path: path.to_string(), is_file: false }
}

fn paths(names: &[&str]) -> Vec<String> {
    names.iter().map(|n| n.to_string()).collect()
}

fn sample_walk() -> Vec<WalkEntry> {
    vec![
        dir("/srv/data"),
        file("/srv/data/a.txt"),
        dir("/srv/data/b"),
        file("/srv/data/b/x.txt"),
        file("/srv/data/b/y.txt"),
        file("/srv/data/c.txt"),
        file("/srv/data/d.txt"),
        dir("/srv/data/e"),
        dir("/srv/data/e/deep"),
        file("/srv/data/e/deep/z.txt"),
    ]
}

#[test]
fn empty_directory_has_no_files() {
    assert_eq!(count_files_in_directory(&Vec::new()), 0);
    assert_eq!(count_files_in_directory(&vec![dir("/srv/data")]), 0);
    assert!(group_by_directory(&vec![dir("/srv/data")]).is_empty());
    assert!(collect_files_by_directory(&vec![dir("/srv/data")]).is_empty());
}

#[test]
fn only_regular_files_are_counted() {
    assert_eq!(count_files_in_directory(&sample_walk()), 6);
}

#[test]
fn files_are_listed_in_walk_order() {
    assert_eq!(
        list_files(&sample_walk()),
        paths(&[
            "/srv/data/a.txt",
            "/srv/data/b/x.txt",
            "/srv/data/b/y.txt",
            "/srv/data/c.txt",
            "/srv/data/d.txt",
            "/srv/data/e/deep/z.txt",
        ])
    );
    assert!(list_files(&Vec::new()).is_empty());
}

#[test]
fn single_file_makes_one_group() {
    let walk = vec![dir("/srv/data"), file("/srv/data/big.bin")];
    assert_eq!(count_files_in_directory(&walk), 1);
    assert_eq!(collect_files_by_directory(&walk), vec![paths(&["/srv/data/big.bin"])]);
}

#[test]
fn files_of_one_directory_share_a_group() {
    let groups = group_by_directory(&sample_walk());
    assert_eq!(
        groups,
        vec![
            paths(&["/srv/data/a.txt", "/srv/data/c.txt", "/srv/data/d.txt"]),
            paths(&["/srv/data/b/x.txt", "/srv/data/b/y.txt"]),
            paths(&["/srv/data/e/deep/z.txt"]),
        ]
    );
}

#[test]
fn a_subdirectory_between_two_files_does_not_part_them() {
    let walk = vec![dir("/d"), file("/d/a.txt"), dir("/d/b"), file("/d/b/x.txt"), file("/d/c.txt")];
    let expected = vec![paths(&["/d/a.txt", "/d/c.txt"]), paths(&["/d/b/x.txt"])];
    assert_eq!(group_by_directory(&walk), expected);
    assert_eq!(collect_files_for_target(&walk, 4), expected);
    for cores in 1..=4 {
        assert_eq!(collect_files_for_target(&walk, target_group_count(cores)), expected);
    }
    assert_eq!(collect_files_by_directory(&walk), expected);
}

#[test]
fn groups_stand_in_the_order_of_their_first_files() {
    let walk = vec![
        file("/r/x/1"),
        file("/r/y/1"),
        file("/r/x/2"),
        file("/r/z/1"),
        file("/r/y/2"),
        file("/r/x/3"),
    ];
    assert_eq!(
        group_by_directory(&walk),
        vec![
            paths(&["/r/x/1", "/r/x/2", "/r/x/3"]),
            paths(&["/r/y/1", "/r/y/2"]),
            paths(&["/r/z/1"]),
        ]
    );
}

#[test]
fn files_without_a_parent_share_a_group() {
    let groups = group_by_directory(&vec![file(""), file("/"), file("/a"), file("b"), file("c")]);
    assert_eq!(groups, vec![paths(&["", "/", "b", "c"]), paths(&["/a"])]);
}

#[test]
fn collected_groups_hold_every_file_once() {
    let mut walk = vec![dir("/r")];
    let mut expected = Vec::new();
    for d in 0..50 {
        walk.push(dir(&format!("/r/d{:02}", d)));
        for f in 0..20 {
            let path = format!("/r/d{:02}/f{:02}", d, f);
            walk.push(file(&path));
            expected.push(path);
        }
    }
    assert_eq!(count_files_in_directory(&walk), 1000);
    for target in [4usize, 16, 64, 128] {
        let groups = collect_files_for_target(&walk, target);
        let mut found: Vec<String> = groups.iter().flatten().cloned().collect();
        found.sort();
        assert_eq!(found, expected);
        assert!(groups.iter().all(|g| !g.is_empty()));
    }
    assert_eq!(collect_files_for_target(&walk, 4).len(), 4);
    assert_eq!(collect_files_for_target(&walk, 16).len(), 16);
    assert_eq!(collect_files_for_target(&walk, 64).len(), 64);
    let groups = collect_files_by_directory(&walk);
    let mut found: Vec<String> = groups.iter().flatten().cloned().collect();
    found.sort();
    assert_eq!(found, expected);
}

#[test]
fn host_target_comes_from_the_core_count() {
    let mut walk = Vec::new();
    for d in 0..300 {
        for f in 0..3 {
            walk.push(file(&format!("/r/d{:03}/f{}", d, f)));
        }
    }
    let target = target_group_count(num_cpus::get());
    assert_eq!(collect_files_by_directory(&walk), collect_files_for_target(&walk, target));
}

#[test]
fn file_order_within_a_group_is_walk_order() {
    let walk: Vec<WalkEntry> = (0..30).map(|i| file(&format!("/r/only/f{:02}", i))).collect();
    let groups = collect_files_for_target(&walk, 4);
    let names: Vec<String> = (0..30).map(|i| format!("/r/only/f{:02}", i)).collect();
    assert_eq!(groups, vec![names[..15].to_vec(), names[15..].to_vec()]);
}

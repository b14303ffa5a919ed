use serve_folder::listing::{handle_list, listing_order, listing_target};
use serve_folder::listing::{resolve_under, validate_target};
use serve_folder::job::BuildError;
use serve_folder::models::FileEntry;
use std::cmp::Ordering;

fn entry(name: &str, is_dir: bool) -> FileEntry {
    FileEntry { name: name.to_string(), path: format!("sub/{}", name), is_dir, size: 0 }
}

#[test]
fn requests_are_followed_down_from_the_root() {
    assert_eq!(resolve_under("/srv/data", ""), "/srv/data");
    assert_eq!(resolve_under("/srv/data", "a/b"), "/srv/data/a/b");
    assert_eq!(resolve_under("/srv/data", "a//b/"), "/srv/data/a/b");
}

#[test]
fn requests_cannot_climb_out_of_the_root() {
    assert_eq!(resolve_under("/srv/data", "../../etc/passwd"), "/srv/data/etc/passwd");
    assert_eq!(resolve_under("/srv/data", "/etc/passwd"), "/srv/data/etc/passwd");
    assert_eq!(resolve_under("/srv/data", "a/../b/./c"), "/srv/data/a/b/c");
    assert_eq!(resolve_under("/srv/data", "../x"), "/srv/data/x");
    assert_eq!(listing_target("/srv/data", "..").as_str(), "/srv/data");
    assert_eq!(listing_target("/srv/data", "a").as_str(), "/srv/data/a");
}

#[test]
fn build_is_accepted_for_a_directory_under_the_root() {
    let full = resolve_under("/srv/data", "a/b");
    assert_eq!(validate_target("/srv/data", full, true), Ok("/srv/data/a/b".to_string()));
    assert_eq!(validate_target("/srv/data", "/srv/data".to_string(), true), Ok("/srv/data".to_string()));
}

#[test]
fn build_is_rejected_for_what_is_no_directory_or_lies_outside() {
    let full = resolve_under("/srv/data", "a/b");
    assert_eq!(validate_target("/srv/data", full, false), Err(BuildError::Input));
    assert_eq!(validate_target("/srv/data", "/etc".to_string(), true), Err(BuildError::Input));
    assert_eq!(validate_target("/srv/data", "/srv/database".to_string(), true), Err(BuildError::Input));
    assert_eq!(validate_target("/srv/data", "/srv".to_string(), true), Err(BuildError::Input));
}

#[test]
fn directories_come_before_files() {
    assert_eq!(listing_order(&entry("z", true), &entry("a", false)), Ordering::Less);
    assert_eq!(listing_order(&entry("a", false), &entry("z", true)), Ordering::Greater);
}

#[test]
fn names_are_ordered_without_regard_to_case() {
    assert_eq!(listing_order(&entry("Alpha", false), &entry("beta", false)), Ordering::Less);
    assert_eq!(listing_order(&entry("beta", true), &entry("Alpha", true)), Ordering::Greater);
    assert_eq!(listing_order(&entry("README", false), &entry("readme", false)), Ordering::Equal);
    assert_eq!(listing_order(&entry("ab", false), &entry("abc", false)), Ordering::Less);
    assert_eq!(listing_order(&entry("", false), &entry("a", false)), Ordering::Less);
}

#[test]
fn listing_shows_directories_first_and_each_kind_by_name() {
    let entries = vec![
        entry("b.txt", false),
        entry("Zeta", true),
        entry("A.txt", false),
        entry("alpha", true),
        entry("c.txt", false),
    ];
    let response = handle_list("sub".to_string(), entries);
    assert_eq!(response.current_path, "sub");
    let names: Vec<&str> = response.entries.iter().map(|e| e.name.as_str()).collect();
    assert_eq!(names, vec!["alpha", "Zeta", "A.txt", "b.txt", "c.txt"]);
    let paths: Vec<&str> = response.entries.iter().map(|e| e.path.as_str()).collect();
    assert_eq!(paths, vec!["sub/alpha", "sub/Zeta", "sub/A.txt", "sub/b.txt", "sub/c.txt"]);
}

#[test]
fn entries_that_differ_in_case_only_keep_their_order() {
    let mut first = entry("readme", false);
    first.size = 1;
    let mut second = entry("README", false);
    second.size = 2;
    let mut third = entry("ReadMe", false);
    third.size = 3;
    let response = handle_list(String::new(), vec![first, entry("zz", false), second, third]);
    let sizes: Vec<u64> = response.entries.iter().map(|e| e.size).collect();
    assert_eq!(sizes, vec![1, 2, 3, 0]);
}

#[test]
fn names_beyond_ascii_are_ordered_by_their_characters() {
    assert_eq!(listing_order(&entry("\u{c9}t\u{e9}", false), &entry("zebra", false)), Ordering::Greater);
    assert_eq!(listing_order(&entry("\u{c9}", false), &entry("\u{e9}", false)), Ordering::Equal);
    assert_eq!(listing_order(&entry("a\u{e9}", false), &entry("a\u{e8}", false)), Ordering::Greater);
    assert_eq!(listing_order(&entry("\u{10348}", false), &entry("\u{ffff}", false)), Ordering::Greater);
}

#[test]
fn empty_listing_stays_empty() {
    let response = handle_list(String::new(), Vec::new());
    assert_eq!(response.current_path, "");
    assert!(response.entries.is_empty());
}

//! Directory listings: which directory a request names, and the order in which
//! its entries are shown.

use crate::host::{lies_under, path_components, push_component};
use crate::host::{parts_of, path_begins_with, path_parts, path_with, PartView, PathPart};
use crate::job::BuildError;
use crate::models::{DirResponse, FileEntry};
use std::cmp::Ordering;
use vstd::prelude::*;

verus! {

/// The path reached from `base` by descending through the ordinary names among
/// `parts`, one after the other. Whatever else a path holds (its root, a
/// prefix, `.`, `..`) is passed over.
pub open spec fn descended(base: Seq<char>, parts: Seq<PartView>) -> Seq<char>
    decreases parts.len(),
{
    if parts.len() == 0 {
        base
    } else {
        match parts.last() {
            PartView::Normal(name) => path_with(descended(base, parts.drop_last()), name),
            _ => descended(base, parts.drop_last()),
        }
    }
}

/// The path that a request for `relative` names under `root`: only the
/// ordinary names of `relative` are followed, so the request cannot climb out
/// of the root.
pub open spec fn requested_path(root: Seq<char>, relative: Seq<char>) -> Seq<char> {
    descended(root, path_parts(relative))
}

/// Follows the ordinary names of `relative` down from `root`.
pub fn resolve_under(root: &str, relative: &str) -> (full: String)
    ensures
        full@ == requested_path(root@, relative@),
{
    let parts = path_components(relative);
    let ghost model = parts_of(parts);
    let mut full = root.to_owned();
    let mut at: usize = 0;
    while at < parts.len()
        invariant
            at <= parts.len(),
            model == parts_of(parts),
            full@ == descended(root@, model.take(at as int)),
        decreases parts.len() - at,
    {
        proof {
            assert(model.take(at + 1).drop_last() =~= model.take(at as int));
        }
        match &parts[at] {
            PathPart::Normal(name) => {
                full = push_component(full.as_str(), name.as_str());
            },
            _ => {},
        }
        at = at + 1;
    }
    assert(model.take(at as int) =~= model);
    full
}

/// Accepts or rejects the directory that a build is asked for. `full` is the
/// path the request names and `is_directory` says whether a directory exists
/// there. The request is accepted where the path lies under `root` and is a
/// directory; any other request is an input error, and no build begins.
pub fn validate_target(root: &str, full: String, is_directory: bool) -> (target: Result<
    String,
    BuildError,
>)
    ensures
        target.is_ok() == (path_begins_with(full@, root@) && is_directory),
        target.is_ok() ==> target.unwrap() == full,
        target.is_err() ==> target.unwrap_err() == BuildError::Input,
{
    if is_directory && lies_under(full.as_str(), root) {
        Ok(full)
    } else {
        Err(BuildError::Input)
    }
}

/// The directory that a listing shows for a request: the one it names, or the
/// root itself where that does not lie under the root.
pub fn listing_target(root: &str, relative: &str) -> (target: String)
    ensures
        target@ == if path_begins_with(requested_path(root@, relative@), root@) {
            requested_path(root@, relative@)
        } else {
            root@
        },
{
    let full = resolve_under(root, relative);
    if lies_under(full.as_str(), root) {
        full
    } else {
        root.to_owned()
    }
}

/// The number a character is ordered by.
pub open spec fn code_of(c: char) -> int {
    c as int
}

/// Whether `a` comes before `b` in the order of texts: character by character,
/// by the characters' numbers, a text before every longer text it begins.
pub open spec fn text_before(a: Seq<char>, b: Seq<char>) -> bool
    decreases a.len(),
{
    if b.len() == 0 {
        false
    } else if a.len() == 0 {
        true
    } else if a[0] != b[0] {
        code_of(a[0]) < code_of(b[0])
    } else {
        text_before(a.drop_first(), b.drop_first())
    }
}

/// How two texts are ordered.
pub open spec fn text_order(a: Seq<char>, b: Seq<char>) -> Ordering {
    if a == b {
        Ordering::Equal
    } else if text_before(a, b) {
        Ordering::Less
    } else {
        Ordering::Greater
    }
}

/// `text` with every letter in lower case, as Unicode defines it.
pub uninterp spec fn lowercased(text: Seq<char>) -> Seq<char>;

/// How two entries of a listing are ordered: directories before files, and
/// within each by name, letter case aside.
pub open spec fn entry_order(a: FileEntry, b: FileEntry) -> Ordering {
    if a.is_dir && !b.is_dir {
        Ordering::Less
    } else if !a.is_dir && b.is_dir {
        Ordering::Greater
    } else {
        text_order(lowercased(a.name@), lowercased(b.name@))
    }
}

/// No entry of the listing stands behind one that the order puts after it.
pub open spec fn in_listing_order(entries: Seq<FileEntry>) -> bool {
    forall|i: int, j: int|
        0 <= i < j < entries.len() ==> entry_order(#[trigger] entries[i], #[trigger] entries[j])
            != Ordering::Greater
}

/// Whether `from` names, for each place of `after`, the place of `before` that
/// its entry came from: every place of `before` once.
pub open spec fn rearranged(before: Seq<FileEntry>, after: Seq<FileEntry>, from: Seq<int>) -> bool {
    &&& from.len() == before.len()
    &&& after.len() == before.len()
    &&& forall|i: int| 0 <= i < from.len() ==> 0 <= #[trigger] from[i] < before.len()
    &&& forall|i: int| 0 <= i < from.len() ==> #[trigger] after[i] == before[from[i]]
    &&& forall|i: int, j: int|
        0 <= i < j < from.len() ==> #[trigger] from[i] != #[trigger] from[j]
}

/// Whether entries that the order does not tell apart stand as they stood
/// before.
pub open spec fn ties_kept(after: Seq<FileEntry>, from: Seq<int>) -> bool {
    forall|i: int, j: int|
        0 <= i < j < from.len() && entry_order(after[i], after[j]) == Ordering::Equal
            ==> #[trigger] from[i] < #[trigger] from[j]
}

/// Whether `after` is `before` brought into listing order: the same entries,
/// none standing behind one that the order puts after it, and those that the
/// order does not tell apart standing as they stood.
pub open spec fn listed(before: Seq<FileEntry>, after: Seq<FileEntry>) -> bool {
    &&& after.to_multiset() == before.to_multiset()
    &&& in_listing_order(after)
    &&& exists|from: Seq<int>| #[trigger] rearranged(before, after, from) && ties_kept(after, from)
}

/// Calls `str::to_lowercase`.
#[verifier::external_body]
fn lowercase(text: &str) -> (lower: String)
    ensures
        lower@ == lowercased(text@),
{
    text.to_lowercase()
}

/// Calls the comparison of `str`, which the standard library documents as
/// lexicographic by the code points of the characters.
#[verifier::external_body]
fn order_of_texts(a: &str, b: &str) -> (order: Ordering)
    ensures
        order == text_order(a@, b@),
{
    a.cmp(b)
}

/// Decides how two entries of a listing are ordered.
pub fn listing_order(a: &FileEntry, b: &FileEntry) -> (order: Ordering)
    ensures
        order == entry_order(*a, *b),
{
    if a.is_dir && !b.is_dir {
        Ordering::Less
    } else if !a.is_dir && b.is_dir {
        Ordering::Greater
    } else {
        let lower_a = lowercase(a.name.as_str());
        let lower_b = lowercase(b.name.as_str());
        order_of_texts(lower_a.as_str(), lower_b.as_str())
    }
}

/// Calls `slice::sort_by` with `listing_order`. The standard library documents
/// that the slice then holds the same elements, ordered by the comparison, and
/// that elements which compare equal are not reordered.
#[verifier::external_body]
fn sort_entries(entries: &mut Vec<FileEntry>)
    ensures
        listed(old(entries)@, final(entries)@),
{
    entries.sort_by(|a, b| listing_order(a, b));
}

/// Makes the listing of a directory from its entries: the same entries,
/// directories first, each kind by name.
pub fn handle_list(current_path: String, entries: Vec<FileEntry>) -> (response: DirResponse)
    ensures
        response.current_path == current_path,
        listed(entries@, response.entries@),
        response.entries@.len() == entries@.len(),
{
    let ghost given = entries@;
    let mut entries = entries;
    sort_entries(&mut entries);
    proof {
        given.to_multiset_ensures();
        entries@.to_multiset_ensures();
    }
    DirResponse { current_path, entries }
}

} // verus!

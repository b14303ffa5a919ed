//! From a directory walk to groups of files.

use crate::balance::{balance_file_groups, balanced, target_for_cpus, target_group_count};
use crate::balance::lemma_balanced_keeps_files;
use crate::contents::{file_count, files_in, lemma_file_count, lemma_files_in_empty, no_empty_group};
use crate::contents::{lemma_files_in_insert, lemma_files_in_push, lemma_files_in_remove};
use crate::host::{logical_cores, parent_of, parent_path};
use crate::ordering::groups_of;
use vstd::multiset::Multiset;
use vstd::prelude::*;

verus! {

/// One entry of a directory walk, in the order the walk met it.
pub struct WalkEntry {
    /// The entry's full path.
    pub path: String,
    /// Whether the entry is a regular file.
    pub is_file: bool,
}

/// The paths of the regular files of a walk, in walk order.
pub open spec fn files_of(entries: Seq<WalkEntry>) -> Seq<String>
    decreases entries.len(),
{
    if entries.len() == 0 {
        Seq::empty()
    } else if entries.last().is_file {
        files_of(entries.drop_last()).push(entries.last().path)
    } else {
        files_of(entries.drop_last())
    }
}

/// The directory a file lies in; empty where its path has no parent.
pub open spec fn directory_of(path: Seq<char>) -> Seq<char> {
    match parent_path(path) {
        Some(dir) => dir,
        None => Seq::empty(),
    }
}

/// The directories that hold a file, each once, in the order of their first
/// files.
pub open spec fn directories_of(files: Seq<String>) -> Seq<Seq<char>>
    decreases files.len(),
{
    if files.len() == 0 {
        Seq::empty()
    } else if directories_of(files.drop_last()).contains(directory_of(files.last()@)) {
        directories_of(files.drop_last())
    } else {
        directories_of(files.drop_last()).push(directory_of(files.last()@))
    }
}

/// The files that lie in `dir`, in walk order.
pub open spec fn files_in_directory(files: Seq<String>, dir: Seq<char>) -> Seq<String>
    decreases files.len(),
{
    if files.len() == 0 {
        Seq::empty()
    } else if directory_of(files.last()@) == dir {
        files_in_directory(files.drop_last(), dir).push(files.last())
    } else {
        files_in_directory(files.drop_last(), dir)
    }
}

/// The files grouped by the directory they lie in: one group for each
/// directory that holds a file, in the order of the directories' first files,
/// each group holding the files of its directory in walk order.
pub open spec fn directory_groups(files: Seq<String>) -> Seq<Seq<String>> {
    Seq::new(
        directories_of(files).len(),
        |g: int| files_in_directory(files, directories_of(files)[g]),
    )
}

/// The texts of a vector of strings.
pub open spec fn texts_of(strings: Vec<String>) -> Seq<Seq<char>> {
    strings@.map_values(|s: String| s@)
}

/// Every file of a directory's group lies in that directory.
pub proof fn lemma_files_in_directory(files: Seq<String>, dir: Seq<char>)
    ensures
        forall|i: int|
            0 <= i < files_in_directory(files, dir).len() ==> directory_of(
                (#[trigger] files_in_directory(files, dir)[i])@,
            ) == dir,
    decreases files.len(),
{
    if files.len() > 0 {
        let earlier = files_in_directory(files.drop_last(), dir);
        let all = files_in_directory(files, dir);
        lemma_files_in_directory(files.drop_last(), dir);
        assert forall|i: int| 0 <= i < all.len() implies directory_of((#[trigger] all[i])@)
            == dir by {
            if i < earlier.len() {
                assert(all[i] == earlier[i]);
            }
        }
    }
}

/// No directory is listed twice, and a directory is listed exactly where it
/// holds a file.
pub proof fn lemma_directories_of(files: Seq<String>)
    ensures
        forall|g: int, h: int|
            0 <= g < h < directories_of(files).len() ==> #[trigger] directories_of(files)[g]
                != #[trigger] directories_of(files)[h],
        forall|dir: Seq<char>|
            directories_of(files).contains(dir) <==> (#[trigger] files_in_directory(
                files,
                dir,
            )).len() > 0,
    decreases files.len(),
{
    if files.len() > 0 {
        let front = directories_of(files.drop_last());
        let last = directory_of(files.last()@);
        lemma_directories_of(files.drop_last());
        let all = directories_of(files);
        assert forall|dir: Seq<char>| all.contains(dir) <==> (#[trigger] files_in_directory(
            files,
            dir,
        )).len() > 0 by {
            let earlier = files_in_directory(files.drop_last(), dir);
            assert(front.contains(dir) <==> earlier.len() > 0);
            if !front.contains(last) {
                assert(all[front.len() as int] == last);
                if all.contains(dir) && dir != last {
                    let g = choose|g: int| 0 <= g < all.len() && all[g] == dir;
                    assert(front[g] == dir);
                }
                if front.contains(dir) {
                    let g = choose|g: int| 0 <= g < front.len() && front[g] == dir;
                    assert(all[g] == dir);
                }
            }
        }
    }
}

/// A file that lies in a directory listed at `at` joins that directory's
/// group; no other group changes and no directory is added.
pub proof fn lemma_group_grows(files: Seq<String>, file: String, at: int)
    requires
        0 <= at < directories_of(files).len(),
        directories_of(files)[at] == directory_of(file@),
    ensures
        directories_of(files.push(file)) == directories_of(files),
        directory_groups(files.push(file)) == directory_groups(files).update(
            at,
            directory_groups(files)[at].push(file),
        ),
{
    let longer = files.push(file);
    assert(longer.drop_last() =~= files);
    assert(directories_of(files).contains(directory_of(file@)));
    lemma_directories_of(files);
    assert(directory_groups(longer) =~= directory_groups(files).update(
        at,
        directory_groups(files)[at].push(file),
    ));
}

/// A file that lies in a directory not yet listed begins a group of its own
/// behind the others, and its directory is listed last.
pub proof fn lemma_group_begins(files: Seq<String>, file: String)
    requires
        !directories_of(files).contains(directory_of(file@)),
    ensures
        directories_of(files.push(file)) == directories_of(files).push(directory_of(file@)),
        directory_groups(files.push(file)) == directory_groups(files).push(seq![file]),
{
    let longer = files.push(file);
    let dirs = directories_of(files);
    assert(longer.drop_last() =~= files);
    lemma_directories_of(files);
    assert(files_in_directory(files, directory_of(file@)).len() == 0);
    assert forall|g: int| 0 <= g < dirs.len() implies #[trigger] dirs[g] != directory_of(file@) by {
        if dirs[g] == directory_of(file@) {
            assert(dirs.contains(directory_of(file@)));
        }
    }
    assert(files_in_directory(longer, directory_of(file@)) =~= seq![file]);
    assert(directory_groups(longer) =~= directory_groups(files).push(seq![file]));
}

/// The groups hold every file once, and none of them is empty.
pub proof fn lemma_directory_groups(files: Seq<String>)
    ensures
        files_in(directory_groups(files)) == files.to_multiset(),
        no_empty_group(directory_groups(files)),
        directory_groups(files).len() == directories_of(files).len(),
    decreases files.len(),
{
    broadcast use vstd::seq_lib::group_to_multiset_ensures;

    let groups = directory_groups(files);
    lemma_directories_of(files);
    assert forall|g: int| 0 <= g < groups.len() implies (#[trigger] groups[g]).len() > 0 by {
        assert(directories_of(files).contains(directories_of(files)[g]));
    }
    if files.len() == 0 {
        lemma_files_in_empty(groups);
    } else {
        let shorter = files.drop_last();
        let file = files.last();
        let earlier = directory_groups(shorter);
        let dirs = directories_of(shorter);
        lemma_directory_groups(shorter);
        assert(shorter.push(file) =~= files);
        if dirs.contains(directory_of(file@)) {
            let at = choose|at: int| 0 <= at < dirs.len() && dirs[at] == directory_of(file@);
            lemma_group_grows(shorter, file, at);
            let grown = earlier[at].push(file);
            assert(earlier.update(at, grown) =~= earlier.remove(at).insert(at, grown));
            lemma_files_in_remove(earlier, at);
            lemma_files_in_insert(earlier.remove(at), at, grown);
            assert(files_in(groups) =~= files_in(earlier).insert(file));
        } else {
            lemma_group_begins(shorter, file);
            lemma_files_in_push(earlier, seq![file]);
            assert(seq![file].to_multiset() =~= Multiset::<String>::empty().insert(file)) by {
                assert(seq![file] =~= Seq::<String>::empty().push(file));
            }
            assert(files_in(groups) =~= files_in(earlier).insert(file));
        }
    }
}

/// One directory makes one group: the files of a group lie in the group's
/// directory, no two groups share a directory, and every file lies in the
/// group of its directory.
pub proof fn lemma_one_group_per_directory(files: Seq<String>)
    ensures
        forall|g: int, i: int|
            #![trigger directory_groups(files)[g][i]]
            0 <= g < directory_groups(files).len() && 0 <= i < directory_groups(files)[g].len()
                ==> directory_of(directory_groups(files)[g][i]@) == directories_of(files)[g],
        forall|g: int, h: int|
            0 <= g < h < directories_of(files).len() ==> #[trigger] directories_of(files)[g]
                != #[trigger] directories_of(files)[h],
        forall|i: int|
            0 <= i < files.len() ==> directories_of(files).contains(
                directory_of((#[trigger] files[i])@),
            ),
{
    lemma_directories_of(files);
    assert forall|g: int, i: int|
        #![trigger directory_groups(files)[g][i]]
        0 <= g < directory_groups(files).len() && 0 <= i < directory_groups(files)[g].len()
        implies directory_of(directory_groups(files)[g][i]@) == directories_of(files)[g] by {
        lemma_files_in_directory(files, directories_of(files)[g]);
    }
    assert forall|i: int| 0 <= i < files.len() implies directories_of(files).contains(
        directory_of((#[trigger] files[i])@),
    ) by {
        lemma_file_is_grouped(files, i);
    }
}

/// The directory of every file holds a file.
pub proof fn lemma_file_is_grouped(files: Seq<String>, at: int)
    requires
        0 <= at < files.len(),
    ensures
        files_in_directory(files, directory_of(files[at]@)).len() > 0,
        directories_of(files).contains(directory_of(files[at]@)),
    decreases files.len(),
{
    lemma_directories_of(files);
    if at < files.len() - 1 {
        lemma_file_is_grouped(files.drop_last(), at);
    }
}

/// Counts the regular files of a walk.
pub fn count_files_in_directory(entries: &Vec<WalkEntry>) -> (count: usize)
    ensures
        count == files_of(entries@).len(),
{
    let mut count: usize = 0;
    let mut at: usize = 0;
    while at < entries.len()
        invariant
            at <= entries.len(),
            count <= at,
            count == files_of(entries@.take(at as int)).len(),
        decreases entries.len() - at,
    {
        assert(entries@.take(at + 1).drop_last() =~= entries@.take(at as int));
        if entries[at].is_file {
            count = count + 1;
        }
        at = at + 1;
    }
    assert(entries@.take(at as int) =~= entries@);
    count
}

/// Lists the regular files of a walk, in walk order.
pub fn list_files(entries: &Vec<WalkEntry>) -> (files: Vec<String>)
    ensures
        files@ == files_of(entries@),
{
    let mut files: Vec<String> = Vec::new();
    let mut at: usize = 0;
    while at < entries.len()
        invariant
            at <= entries.len(),
            files@ == files_of(entries@.take(at as int)),
        decreases entries.len() - at,
    {
        assert(entries@.take(at + 1).drop_last() =~= entries@.take(at as int));
        if entries[at].is_file {
            files.push(entries[at].path.clone());
        }
        at = at + 1;
    }
    assert(entries@.take(at as int) =~= entries@);
    files
}

/// Finds the place of `dir` among `dirs`, looking first at `hint`; the length
/// of `dirs` where it is not among them.
fn find_directory(dirs: &Vec<String>, dir: &String, hint: usize) -> (at: usize)
    ensures
        at <= dirs.len(),
        at < dirs.len() ==> dirs@[at as int]@ == dir@,
        at == dirs.len() ==> !texts_of(*dirs).contains(dir@),
{
    if hint < dirs.len() && dirs[hint] == *dir {
        return hint;
    }
    let mut at: usize = 0;
    while at < dirs.len() && !(dirs[at] == *dir)
        invariant
            at <= dirs.len(),
            forall|i: int| 0 <= i < at ==> dirs@[i]@ != dir@,
        decreases dirs.len() - at,
    {
        at = at + 1;
    }
    proof {
        if at == dirs.len() {
            assert forall|i: int| 0 <= i < texts_of(*dirs).len() implies texts_of(*dirs)[i]
                != dir@ by {
                assert(texts_of(*dirs)[i] == dirs@[i]@);
            }
        }
    }
    at
}

/// Groups the regular files of a walk by the directory they lie in: one group
/// for each directory, in the order of the directories' first files.
pub fn group_by_directory(entries: &Vec<WalkEntry>) -> (groups: Vec<Vec<String>>)
    ensures
        groups_of(groups) == directory_groups(files_of(entries@)),
{
    let mut groups: Vec<Vec<String>> = Vec::new();
    let mut dirs: Vec<String> = Vec::new();
    let mut recent: usize = 0;
    let mut at: usize = 0;
    assert(entries@.take(0) =~= Seq::<WalkEntry>::empty());
    assert(groups_of(groups) =~= directory_groups(Seq::<String>::empty()));
    assert(texts_of(dirs) =~= directories_of(Seq::<String>::empty()));
    while at < entries.len()
        invariant
            at <= entries.len(),
            dirs.len() == groups.len(),
            texts_of(dirs) == directories_of(files_of(entries@.take(at as int))),
            groups_of(groups) == directory_groups(files_of(entries@.take(at as int))),
        decreases entries.len() - at,
    {
        let ghost seen = files_of(entries@.take(at as int));
        assert(entries@.take(at + 1).drop_last() =~= entries@.take(at as int));
        if entries[at].is_file {
            let path = entries[at].path.clone();
            let dir = match parent_of(path.as_str()) {
                Some(dir) => dir,
                None => String::new(),
            };
            let ghost held = groups_of(groups);
            let slot = find_directory(&dirs, &dir, recent);
            if slot < dirs.len() {
                proof {
                    assert(texts_of(dirs)[slot as int] == dirs@[slot as int]@);
                    lemma_group_grows(seen, path, slot as int);
                }
                let mut group = groups.remove(slot);
                group.push(path);
                groups.insert(slot, group);
                assert(groups_of(groups) =~= held.update(slot as int, held[slot as int].push(path)));
            } else {
                proof {
                    lemma_group_begins(seen, path);
                }
                let ghost listed = texts_of(dirs);
                let mut group: Vec<String> = Vec::new();
                group.push(path);
                dirs.push(dir);
                groups.push(group);
                assert(texts_of(dirs) =~= listed.push(dir@));
                assert(groups_of(groups) =~= held.push(seq![path]));
            }
            recent = slot;
        }
        at = at + 1;
    }
    assert(entries@.take(at as int) =~= entries@);
    groups
}

/// Groups the regular files of a walk by directory and balances the groups
/// against `target`.
pub fn collect_files_for_target(entries: &Vec<WalkEntry>, target: usize) -> (groups: Vec<
    Vec<String>,
>)
    ensures
        groups_of(groups) == balanced(directory_groups(files_of(entries@)), target as nat),
        files_in(groups_of(groups)) == files_of(entries@).to_multiset(),
        file_count(groups_of(groups)) == files_of(entries@).len(),
        no_empty_group(groups_of(groups)),
{
    let mut groups = group_by_directory(entries);
    proof {
        lemma_directory_groups(files_of(entries@));
        lemma_balanced_keeps_files(directory_groups(files_of(entries@)), target as nat);
    }
    balance_file_groups(&mut groups, target);
    proof {
        lemma_file_count(groups_of(groups), files_of(entries@));
    }
    groups
}

/// Groups the regular files of a walk by directory and balances the groups
/// against the parallelism of this host.
///
/// The target depends on the host, so the grouping does too; whatever the
/// host, every file of the walk lies in exactly one group and no group is
/// empty.
pub fn collect_files_by_directory(entries: &Vec<WalkEntry>) -> (groups: Vec<Vec<String>>)
    ensures
        exists|cores: nat|
            cores >= 1 && groups_of(groups) == #[trigger] balanced(
                directory_groups(files_of(entries@)),
                target_for_cpus(cores),
            ),
        files_in(groups_of(groups)) == files_of(entries@).to_multiset(),
        file_count(groups_of(groups)) == files_of(entries@).len(),
        no_empty_group(groups_of(groups)),
{
    let cores = logical_cores();
    let target = target_group_count(cores);
    let groups = collect_files_for_target(entries, target);
    groups
}

} // verus!

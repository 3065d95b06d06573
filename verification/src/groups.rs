//! The directory grouper: added paths, grouped by their parent directory.

use crate::paths::{join, joined, parent_of, path_parent};
use crate::text::{lemma_texts_push, texts};
use vstd::prelude::*;

verus! {

/// The directory keys of a change set: the parent directory of each path
/// that has one, each key once, in the order of its first appearance.
pub open spec fn directory_keys(paths: Seq<Seq<char>>) -> Seq<Seq<char>>
    decreases paths.len(),
{
    if paths.len() == 0 {
        Seq::empty()
    } else {
        let before = directory_keys(paths.drop_last());
        match path_parent(paths.last()) {
            Some(dir) => if before.contains(dir) {
                before
            } else {
                before.push(dir)
            },
            None => before,
        }
    }
}

/// The files of one directory key: each path of the change set whose parent
/// directory is `key`, joined onto the repository root, in change-set order.
pub open spec fn files_under(paths: Seq<Seq<char>>, root: Seq<char>, key: Seq<char>) -> Seq<
    Seq<char>,
>
    decreases paths.len(),
{
    if paths.len() == 0 {
        Seq::empty()
    } else {
        let before = files_under(paths.drop_last(), root, key);
        if path_parent(paths.last()) == Some(key) {
            before.push(joined(root, paths.last()))
        } else {
            before
        }
    }
}

/// The grouping of a change set as a mapping from directory key to files.
pub open spec fn grouping(paths: Seq<Seq<char>>, root: Seq<char>) -> Map<
    Seq<char>,
    Seq<Seq<char>>,
> {
    Map::new(
        |key: Seq<char>| directory_keys(paths).contains(key),
        |key: Seq<char>| files_under(paths, root, key),
    )
}

/// One directory's share of a change set.
#[derive(Debug, Clone, PartialEq, Eq)]
pub struct DirectoryGroup {
    /// The parent directory that the files have in common.
    pub key: String,
    /// The files, each joined onto the repository root.
    pub files: Vec<String>,
}

/// The groups of a change set, one per directory key.
#[derive(Debug, Clone, PartialEq, Eq)]
pub struct DirectoryGroups {
    pub groups: Vec<DirectoryGroup>,
}

impl View for DirectoryGroups {
    type V = Map<Seq<char>, Seq<Seq<char>>>;

    open spec fn view(&self) -> Map<Seq<char>, Seq<Seq<char>>> {
        Map::new(
            |key: Seq<char>| self.keys().contains(key),
            |key: Seq<char>| self.files(self.keys().index_of(key)),
        )
    }
}

impl DirectoryGroups {
    /// The keys, in the order in which the groups are held.
    pub open spec fn keys(&self) -> Seq<Seq<char>> {
        self.groups@.map_values(|g: DirectoryGroup| g.key@)
    }

    /// The files of the group at `i`.
    pub open spec fn files(&self, i: int) -> Seq<Seq<char>> {
        texts(self.groups@[i].files@)
    }

    /// No key occurs twice and no group is empty.
    pub open spec fn wf(&self) -> bool {
        &&& self.keys().no_duplicates()
        &&& forall|i: int| 0 <= i < self.groups@.len() ==> (#[trigger] self.files(i)).len() > 0
    }

    /// No groups at all.
    pub fn new() -> (groups: DirectoryGroups)
        ensures
            groups.wf(),
            groups.keys() == Seq::<Seq<char>>::empty(),
    {
        let groups = DirectoryGroups { groups: Vec::new() };
        assert(groups.keys() =~= Seq::<Seq<char>>::empty());
        groups
    }

    /// The number of groups.
    pub fn len(&self) -> (n: usize)
        ensures
            n == self.keys().len(),
    {
        self.groups.len()
    }

    /// The position of the group with the given key, if there is one.
    pub fn position(&self, key: &String) -> (found: Option<usize>)
        ensures
            match found {
                Some(j) => j < self.keys().len() && self.keys()[j as int] == key@,
                None => !self.keys().contains(key@),
            },
    {
        let mut j: usize = 0;
        while j < self.groups.len()
            invariant
                j <= self.groups.len(),
                forall|k: int| 0 <= k < j ==> self.keys()[k] != key@,
            decreases self.groups.len() - j,
        {
            if self.groups[j].key == *key {
                return Some(j);
            }
            j = j + 1;
        }
        None
    }

    /// Appends `file` to the group of `key`. Where no group has that key
    /// yet, a new one is added behind the others, with `file` as its only
    /// member; the other groups stay as they are.
    pub fn add(&mut self, key: String, file: String)
        requires
            old(self).wf(),
        ensures
            final(self).wf(),
            final(self).keys() == (if old(self).keys().contains(key@) {
                old(self).keys()
            } else {
                old(self).keys().push(key@)
            }),
            forall|i: int|
                0 <= i < final(self).keys().len() ==> #[trigger] final(self).files(i) == (
                if final(self).keys()[i] != key@ {
                    old(self).files(i)
                } else if i < old(self).keys().len() {
                    old(self).files(i).push(file@)
                } else {
                    seq![file@]
                }),
    {
        let ghost prior = *self;
        match self.position(&key) {
            Some(j) => {
                proof {
                    lemma_texts_push(self.groups@[j as int].files@, file);
                }
                self.groups[j].files.push(file);
                proof {
                    assert(self.keys() =~= prior.keys());
                    assert forall|i: int| 0 <= i < self.keys().len() implies #[trigger] self.files(
                        i,
                    ) == (if self.keys()[i] != key@ {
                        prior.files(i)
                    } else {
                        prior.files(i).push(file@)
                    }) by {
                        if i != j {
                            assert(self.groups@[i] == prior.groups@[i]);
                        }
                    }
                    assert forall|i: int| 0 <= i < self.groups@.len() implies (#[trigger] self.files(i)).len()
                        > 0 by {
                        assert(prior.files(i).len() > 0);
                    }
                }
            },
            None => {
                let mut files: Vec<String> = Vec::new();
                proof {
                    lemma_texts_push(files@, file);
                    assert(texts(files@).push(file@) =~= seq![file@]);
                }
                files.push(file);
                self.groups.push(DirectoryGroup { key, files });
                proof {
                    assert(self.keys() =~= prior.keys().push(key@));
                    assert forall|i: int| 0 <= i < self.keys().len() implies #[trigger] self.files(
                        i,
                    ) == (if self.keys()[i] != key@ {
                        prior.files(i)
                    } else if i < prior.keys().len() {
                        prior.files(i).push(file@)
                    } else {
                        seq![file@]
                    }) by {
                        if i < prior.keys().len() {
                            assert(self.groups@[i] == prior.groups@[i]);
                            assert(prior.keys().contains(prior.keys()[i]));
                        }
                    }
                    assert forall|i: int| 0 <= i < self.groups@.len() implies (#[trigger] self.files(i)).len()
                        > 0 by {
                        if i < prior.keys().len() {
                            assert(prior.files(i).len() > 0);
                        }
                    }
                }
            },
        }
    }
}

/// Whatever is a key after the first paths of a change set is still a key
/// after one more.
proof fn lemma_keys_grow(paths: Seq<Seq<char>>, key: Seq<char>)
    requires
        paths.len() > 0,
        directory_keys(paths.drop_last()).contains(key),
    ensures
        directory_keys(paths).contains(key),
{
    let before = directory_keys(paths.drop_last());
    let i = choose|i: int| 0 <= i < before.len() && before[i] == key;
    assert(directory_keys(paths)[i] == key);
}

/// A directory that is no key of the change set has no files in it.
pub proof fn lemma_no_key_no_files(paths: Seq<Seq<char>>, root: Seq<char>, key: Seq<char>)
    requires
        !directory_keys(paths).contains(key),
    ensures
        files_under(paths, root, key).len() == 0,
    decreases paths.len(),
{
    if paths.len() > 0 {
        let before = directory_keys(paths.drop_last());
        if before.contains(key) {
            lemma_keys_grow(paths, key);
        }
        if path_parent(paths.last()) == Some(key) {
            if !before.contains(key) {
                assert(directory_keys(paths) == before.push(key));
                assert(before.push(key)[before.len() as int] == key);
            }
        }
        lemma_no_key_no_files(paths.drop_last(), root, key);
    }
}

/// The directory keys are pairwise different.
pub proof fn lemma_keys_distinct(paths: Seq<Seq<char>>)
    ensures
        directory_keys(paths).no_duplicates(),
    decreases paths.len(),
{
    if paths.len() > 0 {
        lemma_keys_distinct(paths.drop_last());
    }
}

/// A directory is a key exactly when some path of the change set has it
/// as its parent directory.
pub proof fn lemma_keys_are_the_parents(paths: Seq<Seq<char>>, key: Seq<char>)
    ensures
        directory_keys(paths).contains(key) <==> exists|i: int|
            0 <= i < paths.len() && path_parent(#[trigger] paths[i]) == Some(key),
    decreases paths.len(),
{
    if paths.len() > 0 {
        let shorter = paths.drop_last();
        let before = directory_keys(shorter);
        lemma_keys_are_the_parents(shorter, key);
        if directory_keys(paths).contains(key) {
            if before.contains(key) {
                let i = choose|i: int|
                    0 <= i < shorter.len() && path_parent(#[trigger] shorter[i]) == Some(key);
                assert(paths[i] == shorter[i]);
            } else {
                let at = choose|at: int|
                    0 <= at < directory_keys(paths).len() && directory_keys(paths)[at] == key;
                if at < before.len() {
                    assert(before[at] == key);
                }
                assert(path_parent(paths[paths.len() - 1]) == Some(key));
            }
        }
        if exists|i: int| 0 <= i < paths.len() && path_parent(#[trigger] paths[i]) == Some(key) {
            let i = choose|i: int|
                0 <= i < paths.len() && path_parent(#[trigger] paths[i]) == Some(key);
            if i < shorter.len() {
                assert(shorter[i] == paths[i]);
                lemma_keys_grow(paths, key);
            } else if before.contains(key) {
                lemma_keys_grow(paths, key);
            } else {
                assert(before.push(key)[before.len() as int] == key);
            }
        }
    }
}

/// The parent directories that occur in a change set.
pub open spec fn parent_directories(paths: Seq<Seq<char>>) -> Set<Seq<char>> {
    Set::new(
        |key: Seq<char>|
            exists|i: int| 0 <= i < paths.len() && path_parent(#[trigger] paths[i]) == Some(key),
    )
}

/// There is one directory key, and so one group and one archive, for each
/// distinct parent directory of the change set: no more and no fewer.
pub proof fn lemma_one_group_per_directory(paths: Seq<Seq<char>>)
    ensures
        directory_keys(paths).no_duplicates(),
        directory_keys(paths).to_set() == parent_directories(paths),
        parent_directories(paths).finite(),
        directory_keys(paths).len() == parent_directories(paths).len(),
{
    lemma_keys_distinct(paths);
    assert forall|key: Seq<char>|
        directory_keys(paths).to_set().contains(key) == parent_directories(paths).contains(
            key,
        ) by {
        lemma_keys_are_the_parents(paths, key);
    }
    assert(directory_keys(paths).to_set() =~= parent_directories(paths));
    directory_keys(paths).unique_seq_to_set();
}

/// Each path that has a parent directory stands, joined onto the root, in
/// the group of that directory.
pub proof fn lemma_path_is_grouped(paths: Seq<Seq<char>>, root: Seq<char>, i: int)
    requires
        0 <= i < paths.len(),
        path_parent(paths[i]).is_some(),
    ensures
        files_under(paths, root, path_parent(paths[i]).unwrap()).contains(joined(root, paths[i])),
    decreases paths.len(),
{
    let key = path_parent(paths[i]).unwrap();
    let before = files_under(paths.drop_last(), root, key);
    if i == paths.len() - 1 {
        assert(before.push(joined(root, paths[i]))[before.len() as int] == joined(root, paths[i]));
    } else {
        assert(paths.drop_last()[i] == paths[i]);
        lemma_path_is_grouped(paths.drop_last(), root, i);
        let at = choose|at: int| 0 <= at < before.len() && before[at] == joined(root, paths[i]);
        assert(files_under(paths, root, key)[at] == joined(root, paths[i]));
    }
}

/// Each file of a group is a path of the change set, joined onto the root,
/// whose parent directory is the group's key.
pub proof fn lemma_group_holds_its_directory(
    paths: Seq<Seq<char>>,
    root: Seq<char>,
    key: Seq<char>,
    j: int,
)
    requires
        0 <= j < files_under(paths, root, key).len(),
    ensures
        exists|i: int|
            0 <= i < paths.len() && path_parent(#[trigger] paths[i]) == Some(key) && files_under(
                paths,
                root,
                key,
            )[j] == joined(root, paths[i]),
    decreases paths.len(),
{
    let shorter = paths.drop_last();
    let before = files_under(shorter, root, key);
    if j < before.len() {
        lemma_group_holds_its_directory(shorter, root, key, j);
        let i = choose|i: int|
            0 <= i < shorter.len() && path_parent(#[trigger] shorter[i]) == Some(key) && before[j]
                == joined(root, shorter[i]);
        assert(paths[i] == shorter[i]);
    } else {
        assert(path_parent(paths[paths.len() - 1]) == Some(key));
    }
}

/// Grouping is a function of its input: two groupings of one change set
/// below one root agree on the keys, on their order and on every group.
pub proof fn lemma_grouping_repeats(
    first: DirectoryGroups,
    second: DirectoryGroups,
    paths: Seq<Seq<char>>,
    root: Seq<char>,
)
    requires
        first.keys() == directory_keys(paths),
        second.keys() == directory_keys(paths),
        forall|i: int|
            0 <= i < first.keys().len() ==> #[trigger] first.files(i) == files_under(
                paths,
                root,
                first.keys()[i],
            ),
        forall|i: int|
            0 <= i < second.keys().len() ==> #[trigger] second.files(i) == files_under(
                paths,
                root,
                second.keys()[i],
            ),
    ensures
        first.keys() == second.keys(),
        forall|i: int| 0 <= i < first.keys().len() ==> first.files(i) == second.files(i),
{
    assert forall|i: int| 0 <= i < first.keys().len() implies first.files(i) == second.files(
        i,
    ) by {
        assert(first.files(i) == files_under(paths, root, first.keys()[i]));
        assert(second.files(i) == files_under(paths, root, second.keys()[i]));
    }
}

/// Groups a change set by parent directory. Each path that has a parent
/// directory is joined onto `repo_root` and appended to the group of that
/// directory; a path without one is passed over. Groups stand in the order
/// in which their keys first appear, so the same input always gives the
/// same groups in the same order.
pub fn group(change_set: &Vec<String>, repo_root: &str) -> (groups: DirectoryGroups)
    ensures
        groups.wf(),
        groups.keys() == directory_keys(texts(change_set@)),
        forall|i: int|
            0 <= i < groups.keys().len() ==> #[trigger] groups.files(i) == files_under(
                texts(change_set@),
                repo_root@,
                groups.keys()[i],
            ),
        groups@ == grouping(texts(change_set@), repo_root@),
{
    let ghost paths = texts(change_set@);
    let mut groups = DirectoryGroups::new();
    let mut i: usize = 0;
    assert(paths.take(0) =~= Seq::<Seq<char>>::empty());
    while i < change_set.len()
        invariant
            i <= change_set.len(),
            paths == texts(change_set@),
            groups.wf(),
            groups.keys() == directory_keys(paths.take(i as int)),
            forall|j: int|
                0 <= j < groups.keys().len() ==> #[trigger] groups.files(j) == files_under(
                    paths.take(i as int),
                    repo_root@,
                    groups.keys()[j],
                ),
        decreases change_set.len() - i,
    {
        let ghost seen = paths.take(i as int);
        let ghost next = paths.take(i + 1);
        let ghost prior = groups;
        proof {
            assert(next.drop_last() =~= seen);
            assert(next.last() == change_set@[i as int]@);
        }
        match parent_of(change_set[i].as_str()) {
            Some(dir) => {
                let full = join(repo_root, change_set[i].as_str());
                proof {
                    if !prior.keys().contains(dir@) {
                        lemma_no_key_no_files(seen, repo_root@, dir@);
                    }
                }
                groups.add(dir, full);
                proof {
                    assert forall|k: int| 0 <= k < groups.keys().len() implies #[trigger] groups.files(
                        k,
                    ) == files_under(next, repo_root@, groups.keys()[k]) by {
                        if k < prior.keys().len() {
                            assert(prior.files(k) == files_under(seen, repo_root@, prior.keys()[k]));
                        } else {
                            assert(files_under(seen, repo_root@, dir@).len() == 0);
                        }
                    }
                }
            },
            None => {},
        }
        i = i + 1;
    }
    proof {
        assert(paths.take(change_set.len() as int) =~= paths);
        assert forall|key: Seq<char>| groups.keys().contains(key) implies groups.files(
            groups.keys().index_of(key),
        ) == files_under(paths, repo_root@, key) by {
            let at = groups.keys().index_of(key);
            assert(groups.keys()[at] == key);
        }
        assert(groups@ =~= grouping(paths, repo_root@));
    }
    groups
}

} // verus!

//! From a notification to the directory groups that are to be archived.

use crate::changes::{change_set, extract};
use crate::groups::{
    directory_keys,
    files_under,
    group,
    grouping,
    lemma_one_group_per_directory,
    parent_directories,
    DirectoryGroups,
};
use crate::json::{json_elements, json_member};
use serde_json::Value;
use vstd::prelude::*;

verus! {

/// The directory groups of a notification: its change set, grouped by
/// parent directory below `repo_root`. One archive is due per group.
pub fn partition(payload: &Value, repo_root: &str) -> (groups: DirectoryGroups)
    ensures
        groups.wf(),
        groups.keys() == directory_keys(change_set(*payload)),
        forall|i: int|
            0 <= i < groups.keys().len() ==> #[trigger] groups.files(i) == files_under(
                change_set(*payload),
                repo_root@,
                groups.keys()[i],
            ),
        groups@ == grouping(change_set(*payload), repo_root@),
        groups.keys().len() == parent_directories(change_set(*payload)).len(),
{
    let changes = extract(payload);
    proof {
        lemma_one_group_per_directory(change_set(*payload));
    }
    group(&changes, repo_root)
}

/// A notification without a `commits` member, or with one that is no array
/// or an empty array, has an empty change set and so calls for no archive.
pub proof fn lemma_no_commits_no_archives(payload: Value, root: Seq<char>)
    requires
        match json_member(payload, "commits"@) {
            Some(commits) => match json_elements(commits) {
                Some(items) => items.len() == 0,
                None => true,
            },
            None => true,
        },
    ensures
        change_set(payload).len() == 0,
        directory_keys(change_set(payload)).len() == 0,
        grouping(change_set(payload), root).dom() =~= Set::<Seq<char>>::empty(),
{
}

} // verus!

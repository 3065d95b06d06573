//! The change extractor: from a notification to the list of added paths.

use crate::json::{elements, json_elements, json_member, json_text, member, text};
use crate::text::texts;
use serde_json::Value;
use vstd::prelude::*;

verus! {

/// The strings among `items`, in order; anything that is not a string is
/// passed over.
pub open spec fn strings_among(items: Seq<Value>) -> Seq<Seq<char>>
    decreases items.len(),
{
    if items.len() == 0 {
        Seq::empty()
    } else {
        let before = strings_among(items.drop_last());
        match json_text(items.last()) {
            Some(t) => before.push(t),
            None => before,
        }
    }
}

/// The paths one commit adds: the strings of its `added` array, or nothing
/// where the commit has no such member or the member is no array.
pub open spec fn added_by(commit: Value) -> Seq<Seq<char>> {
    match json_member(commit, "added"@) {
        Some(added) => match json_elements(added) {
            Some(items) => strings_among(items),
            None => Seq::empty(),
        },
        None => Seq::empty(),
    }
}

/// The paths a run of commits adds, commit after commit.
pub open spec fn added_across(commits: Seq<Value>) -> Seq<Seq<char>>
    decreases commits.len(),
{
    if commits.len() == 0 {
        Seq::empty()
    } else {
        added_across(commits.drop_last()) + added_by(commits.last())
    }
}

/// The change set of a notification: what its `commits` array adds, or
/// nothing where it has no such member or the member is no array.
pub open spec fn change_set(payload: Value) -> Seq<Seq<char>> {
    match json_member(payload, "commits"@) {
        Some(commits) => match json_elements(commits) {
            Some(items) => added_across(items),
            None => Seq::empty(),
        },
        None => Seq::empty(),
    }
}

/// Appends to `out` the strings among `items`.
pub fn collect_strings(items: &Vec<Value>, out: &mut Vec<String>)
    ensures
        texts(final(out)@) == texts(old(out)@) + strings_among(items@),
{
    let ghost start = texts(out@);
    let mut i: usize = 0;
    assert(items@.take(0) =~= Seq::<Value>::empty());
    assert(start + strings_among(items@.take(0)) =~= start);
    while i < items.len()
        invariant
            i <= items.len(),
            texts(out@) == start + strings_among(items@.take(i as int)),
        decreases items.len() - i,
    {
        let ghost seen = items@.take(i as int);
        let ghost next = items@.take(i + 1);
        assert(next.drop_last() =~= seen);
        assert(next.last() == items@[i as int]);
        match text(&items[i]) {
            Some(s) => {
                let owned = s.to_owned();
                proof {
                    crate::text::lemma_texts_push(out@, owned);
                    assert(start + strings_among(seen).push(s@) =~= (start + strings_among(
                        seen,
                    )).push(s@));
                }
                out.push(owned);
            },
            None => {},
        }
        i = i + 1;
    }
    assert(items@.take(items.len() as int) =~= items@);
}

/// Appends to `out` the paths that `commit` adds.
pub fn collect_added(commit: &Value, out: &mut Vec<String>)
    ensures
        texts(final(out)@) == texts(old(out)@) + added_by(*commit),
{
    let ghost start = texts(out@);
    assert(start + Seq::<Seq<char>>::empty() =~= start);
    match member(commit, "added") {
        Some(added) => match elements(added) {
            Some(items) => collect_strings(items, out),
            None => {},
        },
        None => {},
    }
}

/// Extracts the change set of a notification: every string of every
/// commit's `added` array, in commit order and then array order. A missing
/// or ill-shaped part counts as empty; the extractor never fails.
pub fn extract(payload: &Value) -> (changes: Vec<String>)
    ensures
        texts(changes@) == change_set(*payload),
{
    let mut changes: Vec<String> = Vec::new();
    assert(texts(changes@) =~= Seq::<Seq<char>>::empty());
    match member(payload, "commits") {
        Some(commits) => match elements(commits) {
            Some(items) => {
                let mut i: usize = 0;
                assert(items@.take(0) =~= Seq::<Value>::empty());
                while i < items.len()
                    invariant
                        i <= items.len(),
                        texts(changes@) == added_across(items@.take(i as int)),
                    decreases items.len() - i,
                {
                    proof {
                        let next = items@.take(i + 1);
                        assert(next.drop_last() =~= items@.take(i as int));
                        assert(next.last() == items@[i as int]);
                    }
                    collect_added(&items[i], &mut changes);
                    i = i + 1;
                }
                assert(items@.take(items.len() as int) =~= items@);
            },
            None => {},
        },
        None => {},
    }
    changes
}

} // verus!

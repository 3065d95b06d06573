//! Path arithmetic: parent directories, joining onto the repository root,
//! and the names under which an archive is stored and published.

use std::path::Path;
use vstd::prelude::*;
use vstd::string::{StrSliceExecFns, StringExecFns};

verus! {

/// What `std::path::Path::parent` returns for the path written `path`: the
/// path without its last component, absent where there is none to take off.
/// Paths are read as the platform that the library is built for reads them.
pub uninterp spec fn path_parent(path: Seq<char>) -> Option<Seq<char>>;

/// What `std::path::Path::strip_prefix` returns for the path written `path`
/// and the base written `base`: the rest of `path` behind `base`, absent
/// where `path` does not start with `base`.
pub uninterp spec fn path_after_prefix(path: Seq<char>, base: Seq<char>) -> Option<Seq<char>>;

/// `s` with every occurrence of the character `from` replaced by `to`.
pub open spec fn replaced(s: Seq<char>, from: char, to: Seq<char>) -> Seq<char>
    decreases s.len(),
{
    if s.len() == 0 {
        Seq::empty()
    } else if s.last() == from {
        replaced(s.drop_last(), from, to) + to
    } else {
        replaced(s.drop_last(), from, to).push(s.last())
    }
}

/// A directory key with every path separator turned into an underscore.
pub open spec fn sanitized(key: Seq<char>) -> Seq<char> {
    replaced(key, '/', seq!['_'])
}

/// The file name of the archive of a directory key.
pub open spec fn archive_name_of(key: Seq<char>) -> Seq<char> {
    sanitized(key) + seq!['.', 'z', 'i', 'p']
}

/// Where the archive of a directory key is stored: under its file name in
/// the working directory.
pub open spec fn archive_path_of(key: Seq<char>) -> Seq<char> {
    seq!['.', '/'] + archive_name_of(key)
}

/// The remote directory that archives are published to, with its trailing
/// separator.
pub open spec fn remote_prefix() -> Seq<char> {
    "/remote/path/"@
}

/// Where the archive of a directory key is published.
pub open spec fn remote_path_of(key: Seq<char>) -> Seq<char> {
    remote_prefix() + archive_name_of(key)
}

/// `path` below `root`: the two with one separator between them.
pub open spec fn joined(root: Seq<char>, path: Seq<char>) -> Seq<char> {
    root.push('/') + path
}

/// Calls `std::path::Path::parent` on the path written `path` and hands the
/// parent back as text. The contract only names the outcome.
#[verifier::external_body]
pub(crate) fn parent_of(path: &str) -> (parent: Option<String>)
    ensures
        match parent {
            Some(dir) => path_parent(path@) == Some(dir@),
            None => path_parent(path@).is_none(),
        },
{
    Path::new(path).parent().map(|dir| dir.to_string_lossy().into_owned())
}

/// Calls `std::path::Path::strip_prefix` on the path written `path` with
/// the base written `base` and hands the rest back as text, or nothing
/// where the call reports that `base` is no prefix. The contract only names
/// the outcome.
#[verifier::external_body]
pub(crate) fn after_prefix(path: &str, base: &str) -> (rest: Option<String>)
    ensures
        match rest {
            Some(tail) => path_after_prefix(path@, base@) == Some(tail@),
            None => path_after_prefix(path@, base@).is_none(),
        },
{
    Path::new(path).strip_prefix(base).ok().map(|tail| tail.to_string_lossy().into_owned())
}

/// Sanitizing keeps the length, turns each separator into an underscore and
/// leaves every other character where it was.
pub proof fn lemma_sanitized_pointwise(key: Seq<char>)
    ensures
        sanitized(key).len() == key.len(),
        forall|i: int|
            0 <= i < key.len() ==> #[trigger] sanitized(key)[i] == (if key[i] == '/' {
                '_'
            } else {
                key[i]
            }),
    decreases key.len(),
{
    if key.len() > 0 {
        lemma_sanitized_pointwise(key.drop_last());
    }
}

/// A sanitized key holds no path separator.
pub proof fn lemma_sanitized_has_no_separator(key: Seq<char>)
    ensures
        !sanitized(key).contains('/'),
{
    lemma_sanitized_pointwise(key);
}

/// A key without a separator is its own sanitized form.
pub proof fn lemma_sanitized_plain_key(key: Seq<char>)
    requires
        !key.contains('/'),
    ensures
        sanitized(key) == key,
{
    lemma_sanitized_pointwise(key);
    assert forall|i: int| 0 <= i < key.len() implies sanitized(key)[i] == key[i] by {
        assert(key.contains(key[i]));
    }
    assert(sanitized(key) =~= key);
}

/// The directory key with every separator replaced by an underscore.
pub fn sanitize(directory_key: &str) -> (stem: String)
    ensures
        stem@ == sanitized(directory_key@),
{
    let length = directory_key.unicode_len();
    let mut stem = String::new();
    let mut i: usize = 0;
    assert(directory_key@.take(0) =~= Seq::<char>::empty());
    while i < length
        invariant
            i <= length,
            length == directory_key@.len(),
            stem@ == sanitized(directory_key@.take(i as int)),
        decreases length - i,
    {
        proof {
            reveal_strlit("_");
            assert("_"@ =~= seq!['_']);
            assert(directory_key@.take(i + 1).drop_last() =~= directory_key@.take(i as int));
            assert(directory_key@.subrange(i as int, i + 1) =~= seq![directory_key@[i as int]]);
        }
        if directory_key.get_char(i) == '/' {
            stem.append("_");
        } else {
            stem.append(directory_key.substring_char(i, i + 1));
        }
        assert(stem@ =~= sanitized(directory_key@.take(i + 1)));
        i = i + 1;
    }
    assert(directory_key@.take(length as int) =~= directory_key@);
    stem
}

/// The archive's file name for a directory key: the sanitized key and the
/// archive extension.
pub fn archive_file_name(directory_key: &str) -> (name: String)
    ensures
        name@ == archive_name_of(directory_key@),
{
    proof {
        reveal_strlit(".zip");
        assert(".zip"@ =~= seq!['.', 'z', 'i', 'p']);
    }
    sanitize(directory_key).concat(".zip")
}

/// The archive's place on disk for a directory key: its file name, in the
/// working directory.
pub fn archive_path(directory_key: &str) -> (path: String)
    ensures
        path@ == archive_path_of(directory_key@),
{
    proof {
        reveal_strlit("./");
        assert("./"@ =~= seq!['.', '/']);
    }
    let name = archive_file_name(directory_key);
    String::from_str("./").concat(name.as_str())
}

/// The archive's place on the remote side for a directory key: its file
/// name below the fixed remote directory.
pub fn remote_path(directory_key: &str) -> (path: String)
    ensures
        path@ == remote_path_of(directory_key@),
{
    let name = archive_file_name(directory_key);
    String::from_str("/remote/path/").concat(name.as_str())
}

/// The place of `path` below `repo_root`.
pub fn join(repo_root: &str, path: &str) -> (full: String)
    ensures
        full@ == joined(repo_root@, path@),
{
    proof {
        reveal_strlit("/");
        assert(repo_root@ + "/"@ =~= repo_root@.push('/'));
    }
    String::from_str(repo_root).concat("/").concat(path)
}

} // verus!

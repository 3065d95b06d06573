//! The archive builder: one directory group, packed into one archive.

use crate::paths::{after_prefix, archive_path, archive_path_of, path_after_prefix};
use crate::text::{lemma_texts_push, texts};
use crate::writer::{
    archive_entries,
    finish_writer,
    open_writer,
    entry_limit,
    stored_archive,
    writer_open,
    start_entry,
    write_entry,
};
use vstd::prelude::*;

verus! {

/// One file of a directory group, as the caller found it on disk.
#[derive(Debug, Clone, PartialEq, Eq)]
pub struct MemberFile {
    /// The file's path, joined onto the repository root.
    pub path: String,
    /// The file's bytes, or nothing where the file does not exist.
    pub content: Option<Vec<u8>>,
}

/// The record of one archive: where it is stored and what it holds.
#[derive(Debug, Clone, PartialEq, Eq)]
pub struct ArchiveJob {
    /// The archive's place on disk.
    pub path: String,
    /// The names of the members that were written, in order.
    pub members: Vec<String>,
}

/// A finished archive: its record and its bytes.
#[derive(Debug, Clone, PartialEq, Eq)]
pub struct Archive {
    pub job: ArchiveJob,
    pub bytes: Vec<u8>,
}

/// Why an archive could not be built.
#[derive(Debug, Clone, Copy, PartialEq, Eq)]
pub enum ArchiveError {
    /// The member at this position does not lie below the repository root.
    OutsideRoot(usize),
    /// The writer refused to start the entry of the member at this
    /// position. An open writer over a file in memory does not.
    Start(usize),
    /// The writer refused the bytes of the member at this position: the
    /// member is larger than one entry may be.
    Write(usize),
    /// The writer failed to finish the archive. An open writer over a file
    /// in memory does not.
    Finish,
}

/// The words for each failure.
pub open spec fn message_of(error: ArchiveError) -> Seq<char> {
    match error {
        ArchiveError::OutsideRoot(_) => "Member file is not below the repository"@,
        ArchiveError::Start(_) => "Could not start file in ZIP"@,
        ArchiveError::Write(_) => "Could not write file to ZIP"@,
        ArchiveError::Finish => "Could not finish ZIP file"@,
    }
}

impl ArchiveError {
    /// What went wrong, in words.
    pub fn message(&self) -> (text: String)
        ensures
            text@ == message_of(*self),
    {
        match self {
            ArchiveError::OutsideRoot(_) => "Member file is not below the repository".to_owned(),
            ArchiveError::Start(_) => "Could not start file in ZIP".to_owned(),
            ArchiveError::Write(_) => "Could not write file to ZIP".to_owned(),
            ArchiveError::Finish => "Could not finish ZIP file".to_owned(),
        }
    }
}

/// Every member lies below the root, so each has a name in the archive.
pub open spec fn resolves(members: Seq<MemberFile>, root: Seq<char>) -> bool {
    forall|i: int|
        0 <= i < members.len() ==> (#[trigger] path_after_prefix(members[i].path@, root)).is_some()
}

/// The member at `i` is the first that does not lie below the root.
pub open spec fn first_unresolved(members: Seq<MemberFile>, root: Seq<char>, i: int) -> bool {
    &&& 0 <= i < members.len()
    &&& path_after_prefix(members[i].path@, root).is_none()
    &&& forall|j: int|
        0 <= j < i ==> (#[trigger] path_after_prefix(members[j].path@, root)).is_some()
}

/// Every member that exists is small enough for one entry.
pub open spec fn fits(members: Seq<MemberFile>) -> bool {
    forall|i: int|
        0 <= i < members.len() && (#[trigger] members[i]).content.is_some()
            ==> members[i].content.unwrap()@.len() <= entry_limit()
}

/// The member at `i` is the first that exists and is too large for one
/// entry.
pub open spec fn first_oversize(members: Seq<MemberFile>, i: int) -> bool {
    &&& 0 <= i < members.len()
    &&& members[i].content.is_some()
    &&& members[i].content.unwrap()@.len() > entry_limit()
    &&& forall|j: int|
        0 <= j < i && (#[trigger] members[j]).content.is_some()
            ==> members[j].content.unwrap()@.len() <= entry_limit()
}

/// The name of each member in the archive: its path behind the root.
pub open spec fn resolved_names(members: Seq<MemberFile>, root: Seq<char>) -> Seq<Seq<char>> {
    Seq::new(members.len(), |i: int| path_after_prefix(members[i].path@, root).unwrap())
}

/// The entries that members leave under given names: for each member that
/// exists, in order, its name and its bytes. A member that does not exist
/// leaves no entry.
pub open spec fn present_entries(members: Seq<MemberFile>, names: Seq<Seq<char>>) -> Seq<
    (Seq<char>, Seq<u8>),
>
    recommends
        names.len() == members.len(),
    decreases members.len(),
{
    if members.len() == 0 || names.len() != members.len() {
        Seq::empty()
    } else {
        let before = present_entries(members.drop_last(), names.drop_last());
        match members.last().content {
            Some(bytes) => before.push((names.last(), bytes@)),
            None => before,
        }
    }
}

/// The entries of the archive of members below a root.
pub open spec fn entries_of(members: Seq<MemberFile>, root: Seq<char>) -> Seq<
    (Seq<char>, Seq<u8>),
> {
    present_entries(members, resolved_names(members, root))
}

/// The names of a run of entries.
pub open spec fn names_of(entries: Seq<(Seq<char>, Seq<u8>)>) -> Seq<Seq<char>> {
    entries.map_values(|e: (Seq<char>, Seq<u8>)| e.0)
}

/// `job` is the record of the archive of `key` with these members.
pub open spec fn records(job: ArchiveJob, key: Seq<char>, members: Seq<MemberFile>, root: Seq<char>)
    -> bool {
    &&& job.path@ == archive_path_of(key)
    &&& texts(job.members@) == names_of(entries_of(members, root))
}

/// A member that does not exist is simply left out: the entries are what
/// they would be had the member never been listed.
pub proof fn lemma_missing_member_is_omitted(
    members: Seq<MemberFile>,
    names: Seq<Seq<char>>,
    i: int,
)
    requires
        names.len() == members.len(),
        0 <= i < members.len(),
        members[i].content.is_none(),
    ensures
        present_entries(members, names) == present_entries(members.remove(i), names.remove(i)),
    decreases members.len(),
{
    if i == members.len() - 1 {
        assert(members.remove(i) =~= members.drop_last());
        assert(names.remove(i) =~= names.drop_last());
    } else {
        let shorter = members.drop_last();
        assert(shorter[i] == members[i]);
        lemma_missing_member_is_omitted(shorter, names.drop_last(), i);
        assert(members.remove(i).drop_last() =~= shorter.remove(i));
        assert(names.remove(i).drop_last() =~= names.drop_last().remove(i));
        assert(members.remove(i).last() == members.last());
        assert(names.remove(i).last() == names.last());
    }
}

/// The same below a root: an archive omits a member that does not exist
/// and is otherwise the archive of the remaining members.
pub proof fn lemma_missing_file_is_omitted(members: Seq<MemberFile>, root: Seq<char>, i: int)
    requires
        0 <= i < members.len(),
        members[i].content.is_none(),
    ensures
        entries_of(members, root) == entries_of(members.remove(i), root),
{
    lemma_missing_member_is_omitted(members, resolved_names(members, root), i);
    assert(resolved_names(members, root).remove(i) =~= resolved_names(members.remove(i), root));
}

/// Each member that exists has an entry, under its name and with its bytes.
pub proof fn lemma_present_member_is_written(
    members: Seq<MemberFile>,
    names: Seq<Seq<char>>,
    i: int,
)
    requires
        names.len() == members.len(),
        0 <= i < members.len(),
        members[i].content.is_some(),
    ensures
        present_entries(members, names).contains((names[i], members[i].content.unwrap()@)),
    decreases members.len(),
{
    let entry = (names[i], members[i].content.unwrap()@);
    let before = present_entries(members.drop_last(), names.drop_last());
    if i == members.len() - 1 {
        assert(before.push(entry)[before.len() as int] == entry);
    } else {
        assert(members.drop_last()[i] == members[i]);
        assert(names.drop_last()[i] == names[i]);
        lemma_present_member_is_written(members.drop_last(), names.drop_last(), i);
        let at = choose|at: int| 0 <= at < before.len() && before[at] == entry;
        assert(present_entries(members, names)[at] == entry);
    }
}

/// Each entry is that of a member that exists: nothing else is written.
pub proof fn lemma_entry_is_a_present_member(
    members: Seq<MemberFile>,
    names: Seq<Seq<char>>,
    j: int,
)
    requires
        names.len() == members.len(),
        0 <= j < present_entries(members, names).len(),
    ensures
        exists|i: int|
            0 <= i < members.len() && (#[trigger] members[i]).content.is_some() && present_entries(
                members,
                names,
            )[j] == (names[i], members[i].content.unwrap()@),
    decreases members.len(),
{
    let shorter = members.drop_last();
    let fewer = names.drop_last();
    let before = present_entries(shorter, fewer);
    if j < before.len() {
        lemma_entry_is_a_present_member(shorter, fewer, j);
        let i = choose|i: int|
            0 <= i < shorter.len() && (#[trigger] shorter[i]).content.is_some() && before[j] == (
                fewer[i],
                shorter[i].content.unwrap()@,
            );
        assert(members[i] == shorter[i]);
        assert(names[i] == fewer[i]);
    } else {
        assert(members[members.len() - 1].content.is_some());
    }
}

/// Building is repeatable: two archives built for one directory key from
/// the same members below the same root have the same place, the same
/// member names in the same order, and the same bytes.
pub proof fn lemma_build_repeats(
    first: Archive,
    second: Archive,
    key: Seq<char>,
    members: Seq<MemberFile>,
    root: Seq<char>,
)
    requires
        records(first.job, key, members, root),
        records(second.job, key, members, root),
        first.bytes@ == stored_archive(entries_of(members, root)),
        second.bytes@ == stored_archive(entries_of(members, root)),
    ensures
        first.job.path@ == second.job.path@,
        texts(first.job.members@) == texts(second.job.members@),
        first.bytes@ == second.bytes@,
{
}

/// The name of each member in the archive: its path behind the repository
/// root. Fails on the first member that does not lie below the root.
pub fn member_names(members: &Vec<MemberFile>, repo_root: &str) -> (result: Result<
    Vec<String>,
    ArchiveError,
>)
    ensures
        match result {
            Ok(names) => {
                &&& resolves(members@, repo_root@)
                &&& names@.len() == members@.len()
                &&& texts(names@) == resolved_names(members@, repo_root@)
            },
            Err(e) => e matches ArchiveError::OutsideRoot(i) && first_unresolved(
                members@,
                repo_root@,
                i as int,
            ),
        },
{
    let mut names: Vec<String> = Vec::new();
    let mut i: usize = 0;
    while i < members.len()
        invariant
            i <= members.len(),
            names@.len() == i,
            forall|j: int|
                0 <= j < i ==> path_after_prefix((#[trigger] members@[j]).path@, repo_root@)
                    == Some(names@[j]@),
        decreases members.len() - i,
    {
        match after_prefix(members[i].path.as_str(), repo_root) {
            Some(name) => {
                names.push(name);
            },
            None => {
                return Err(ArchiveError::OutsideRoot(i));
            },
        }
        i = i + 1;
    }
    assert(texts(names@) =~= resolved_names(members@, repo_root@));
    Ok(names)
}

/// The names of the members that exist, in order, where `names` holds the
/// name of each member.
pub fn written_names(members: &Vec<MemberFile>, names: &Vec<String>) -> (written: Vec<String>)
    requires
        names@.len() == members@.len(),
    ensures
        texts(written@) == names_of(present_entries(members@, texts(names@))),
{
    let mut written: Vec<String> = Vec::new();
    let mut i: usize = 0;
    let ghost all = texts(names@);
    assert(members@.take(0) =~= Seq::<MemberFile>::empty());
    assert(texts(written@) =~= names_of(present_entries(members@.take(0), all.take(0))));
    while i < members.len()
        invariant
            i <= members.len(),
            names@.len() == members@.len(),
            all == texts(names@),
            texts(written@) == names_of(
                present_entries(members@.take(i as int), all.take(i as int)),
            ),
        decreases members.len() - i,
    {
        let ghost seen = present_entries(members@.take(i as int), all.take(i as int));
        proof {
            assert(members@.take(i + 1).drop_last() =~= members@.take(i as int));
            assert(all.take(i + 1).drop_last() =~= all.take(i as int));
        }
        if members[i].content.is_some() {
            let name = names[i].clone();
            proof {
                lemma_texts_push(written@, name);
                let bytes = members@[i as int].content.unwrap()@;
                assert(names_of(seen.push((name@, bytes))) =~= names_of(seen).push(name@));
            }
            written.push(name);
        }
        i = i + 1;
    }
    proof {
        assert(members@.take(members.len() as int) =~= members@);
        assert(all.take(members.len() as int) =~= all);
    }
    written
}

/// Packs the members that exist into an archive in memory, each stored,
/// uncompressed, under its name from `names`, and finishes the archive.
///
/// Succeeds exactly when every member that exists is within
/// `entry_limit()` bytes; the bytes are then those of the archive of
/// exactly these entries. Otherwise fails with `Write`, at the first member
/// that is larger.
pub fn pack(members: &Vec<MemberFile>, names: &Vec<String>) -> (result: Result<
    Vec<u8>,
    ArchiveError,
>)
    requires
        names@.len() == members@.len(),
    ensures
        fits(members@) ==> result.is_ok(),
        match result {
            Ok(bytes) => fits(members@) && bytes@ == stored_archive(
                present_entries(members@, texts(names@)),
            ),
            Err(e) => e matches ArchiveError::Write(i) && first_oversize(members@, i as int),
        },
{
    let mut writer = open_writer();
    let mut i: usize = 0;
    let ghost all = texts(names@);
    assert(members@.take(0) =~= Seq::<MemberFile>::empty());
    while i < members.len()
        invariant
            i <= members.len(),
            names@.len() == members@.len(),
            all == texts(names@),
            writer_open(writer),
            archive_entries(writer) == present_entries(
                members@.take(i as int),
                all.take(i as int),
            ),
            forall|j: int|
                0 <= j < i && (#[trigger] members@[j]).content.is_some()
                    ==> members@[j].content.unwrap()@.len() <= entry_limit(),
        decreases members.len() - i,
    {
        proof {
            assert(members@.take(i + 1).drop_last() =~= members@.take(i as int));
            assert(all.take(i + 1).drop_last() =~= all.take(i as int));
        }
        match &members[i].content {
            Some(bytes) => {
                let ghost before = archive_entries(writer);
                if start_entry(&mut writer, names[i].as_str()).is_err() {
                    return Err(ArchiveError::Start(i));
                }
                if write_entry(&mut writer, bytes).is_err() {
                    return Err(ArchiveError::Write(i));
                }
                proof {
                    assert(Seq::<u8>::empty() + bytes@ =~= bytes@);
                    assert(archive_entries(writer) =~= before.push((names@[i as int]@, bytes@)));
                }
            },
            None => {},
        }
        i = i + 1;
    }
    proof {
        assert(members@.take(members.len() as int) =~= members@);
        assert(all.take(members.len() as int) =~= all);
    }
    match finish_writer(&mut writer) {
        Ok(bytes) => Ok(bytes),
        Err(_) => Err(ArchiveError::Finish),
    }
}

/// Plans the archive of one directory group without writing it: where it
/// will be stored and which members it will hold. Members that do not
/// exist are left out. Fails exactly when some member does not lie below
/// the repository root, and names the first such member.
pub fn plan(directory_key: &str, members: &Vec<MemberFile>, repo_root: &str) -> (result: Result<
    ArchiveJob,
    ArchiveError,
>)
    ensures
        match result {
            Ok(job) => resolves(members@, repo_root@) && records(
                job,
                directory_key@,
                members@,
                repo_root@,
            ),
            Err(e) => e matches ArchiveError::OutsideRoot(i) && first_unresolved(
                members@,
                repo_root@,
                i as int,
            ),
        },
{
    match member_names(members, repo_root) {
        Ok(names) => {
            let written = written_names(members, &names);
            Ok(ArchiveJob { path: archive_path(directory_key), members: written })
        },
        Err(e) => Err(e),
    }
}

/// Builds the archive of one directory group in memory. Each member that
/// exists is stored, uncompressed, under its path behind the repository
/// root; a member that does not exist is left out. The archive is finished
/// before it is handed back, together with its record.
///
/// Succeeds exactly when every member lies below the repository root and
/// every member that exists is within `entry_limit()` bytes. Fails with
/// `OutsideRoot` at the first member that does not lie below the root,
/// before anything is written; otherwise with `Write` at the first member
/// that is too large.
pub fn build(directory_key: &str, members: &Vec<MemberFile>, repo_root: &str) -> (result: Result<
    Archive,
    ArchiveError,
>)
    ensures
        resolves(members@, repo_root@) && fits(members@) ==> result.is_ok(),
        match result {
            Ok(archive) => {
                &&& resolves(members@, repo_root@)
                &&& fits(members@)
                &&& records(archive.job, directory_key@, members@, repo_root@)
                &&& archive.bytes@ == stored_archive(entries_of(members@, repo_root@))
            },
            Err(ArchiveError::OutsideRoot(i)) => first_unresolved(members@, repo_root@, i as int),
            Err(ArchiveError::Write(i)) => resolves(members@, repo_root@) && first_oversize(
                members@,
                i as int,
            ),
            Err(ArchiveError::Start(_)) | Err(ArchiveError::Finish) => false,
        },
{
    let names = match member_names(members, repo_root) {
        Ok(names) => names,
        Err(e) => {
            return Err(e);
        },
    };
    let written = written_names(members, &names);
    let job = ArchiveJob { path: archive_path(directory_key), members: written };
    match pack(members, &names) {
        Ok(bytes) => Ok(Archive { job, bytes }),
        Err(e) => Err(e),
    }
}

} // verus!

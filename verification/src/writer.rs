//! The archive writer of the `zip` crate, writing into memory.
//!
//! Nothing in this file is proved: the contracts record what the writer
//! does to the entries it holds and when its calls succeed, and the archive
//! builder is verified against them.

use std::io::Cursor;
use std::io::Write;
use vstd::prelude::*;
use zip::result::ZipError;
use zip::write::FileOptions;
use zip::CompressionMethod;
use zip::ZipWriter;

verus! {

/// An archive writer of the `zip` crate, `zip::ZipWriter`, over a file held
/// in memory. The verifier does not look inside it; what it holds is spoken
/// of through `archive_entries`.
#[verifier::external_body]
pub struct ArchiveWriter {
    inner: ZipWriter<Cursor<Vec<u8>>>,
}

/// `zip::result::ZipError`, what the writer fails with.
#[verifier::external_type_specification]
#[verifier::external_body]
pub struct ExZipError(ZipError);

/// The entries that a writer has taken so far, oldest first: each with its
/// name and the bytes written to it.
pub uninterp spec fn archive_entries(writer: ArchiveWriter) -> Seq<
    (Seq<char>, Seq<u8>),
>;

/// Whether a writer still takes entries and bytes: it has not been finished
/// and no call on it has failed.
pub uninterp spec fn writer_open(writer: ArchiveWriter) -> bool;

/// The bytes of the finished archive that holds `entries`, each stored
/// without compression under the writer's default options. The `zip` crate
/// is built here without its clock feature, so every entry carries the
/// crate's fixed default date and the bytes depend on the entries alone.
pub uninterp spec fn stored_archive(entries: Seq<(Seq<char>, Seq<u8>)>) -> Seq<u8>;

/// The most bytes that one entry takes: beyond this the writer asks for its
/// large-file option, which is not set here.
pub open spec fn entry_limit() -> int {
    u32::MAX as int
}

/// Calls `zip::ZipWriter::new` on an empty in-memory file. The new writer
/// is open and holds no entry.
#[verifier::external_body]
pub(crate) fn open_writer() -> (writer: ArchiveWriter)
    ensures
        archive_entries(writer) == Seq::<(Seq<char>, Seq<u8>)>::empty(),
        writer_open(writer),
{
    ArchiveWriter { inner: ZipWriter::new(Cursor::new(Vec::new())) }
}

/// Calls `zip::ZipWriter::start_file` with the default options and the
/// stored (non-compressing) method. Where the call succeeds, the writer has
/// one more entry, named `name` and still empty. On an open writer the
/// call succeeds and leaves the writer open: it closes the entry before and
/// writes a header, and the in-memory file refuses neither. Of a failed
/// call nothing is claimed.
#[verifier::external_body]
pub(crate) fn start_entry(writer: &mut ArchiveWriter, name: &str) -> (outcome: Result<
    (),
    ZipError,
>)
    ensures
        outcome.is_ok() ==> archive_entries(*final(writer)) == archive_entries(*old(writer)).push(
            (name@, Seq::<u8>::empty()),
        ),
        writer_open(*old(writer)) ==> outcome.is_ok() && writer_open(*final(writer)),
{
    writer.inner.start_file(name, FileOptions::default().compression_method(CompressionMethod::Stored))
}

/// Calls `write_all` of the writer's `std::io::Write`. Where the call
/// succeeds on a writer that holds an entry, `data` now stands at the end
/// of the newest entry. On an open writer that holds an entry, the call
/// succeeds exactly when the newest entry stays within `entry_limit()`
/// bytes, and then leaves the writer open. Of a failed call nothing else is
/// claimed, nor of a call on a writer without an entry, which succeeds on
/// empty `data`.
#[verifier::external_body]
pub(crate) fn write_entry(writer: &mut ArchiveWriter, data: &Vec<u8>) -> (outcome:
    Result<(), ZipError>)
    ensures
        ({
            let before = archive_entries(*old(writer));
            &&& outcome.is_ok() && before.len() > 0 ==> archive_entries(*final(writer))
                == before.update(before.len() - 1, (before.last().0, before.last().1 + data@))
            &&& writer_open(*old(writer)) && before.len() > 0 ==> outcome.is_ok() == (
            before.last().1.len() + data@.len() <= entry_limit())
            &&& writer_open(*old(writer)) && outcome.is_ok() ==> writer_open(*final(writer))
        }),
{
    writer.inner.write_all(data).map_err(ZipError::Io)
}

/// Calls `zip::ZipWriter::finish` and takes the bytes out of the in-memory
/// file. Where the call succeeds, the bytes are the archive of the entries
/// that the writer held. On an open writer the call succeeds. Of a failed
/// call nothing is claimed.
#[verifier::external_body]
pub(crate) fn finish_writer(writer: &mut ArchiveWriter) -> (outcome: Result<
    Vec<u8>,
    ZipError,
>)
    ensures
        match outcome {
            Ok(bytes) => bytes@ == stored_archive(archive_entries(*old(writer))),
            Err(_) => !writer_open(*old(writer)),
        },
{
    writer.inner.finish().map(|file| file.into_inner())
}

} // verus!

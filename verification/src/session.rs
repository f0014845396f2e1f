use vstd::prelude::*;

use crate::stamp::{spec_dos_stamp, spec_stamp_valid, ZipTimestamp};
use crate::tree::{spec_dir_entry_name, ArchiveEntry};

verus! {

/// The open, append-only output archive: the incremental writer state of
/// the outside archive library over an in-memory buffer, finalized exactly
/// once. What it holds is described by `session_entries`.
#[verifier::external_body]
pub struct ArchiveSession {
    writer: zip::ZipWriter<std::io::Cursor<Vec<u8>>>,
}

/// The sequence of entries appended to the session so far, each with its
/// name, kind, timestamp and contents. The trusted wrappers below say how
/// each call of the outside archive writer changes it. The timestamp held
/// is the one the format stores: the DOS rounding of what was handed in.
pub uninterp spec fn session_entries(s: ArchiveSession) -> Seq<ArchiveEntry>;

/// No failed call of the archive writer has touched the session. A failed
/// write can leave a partial entry's bytes behind in the buffer (the
/// writer seeks back but does not truncate), after which the finished
/// bytes carry a junk tail; only a clean session's output is the plain
/// encoding of its entries. A fresh session is clean, and every successful
/// wrapper call keeps it so.
pub uninterp spec fn session_clean(s: ArchiveSession) -> bool;

/// The byte encoding the outside archive library produces for a sequence
/// of entries and a trailing comment: every file entry compressed with the
/// fixed method and level, directory entries stored without compression,
/// then the central directory and the comment. For a given build of this
/// library the encoding depends on the entries and the comment alone (the
/// format's version bytes are fixed per target, so no one program can
/// observe a difference).
pub uninterp spec fn zip_encoding(entries: Seq<ArchiveEntry>, comment: Seq<char>) -> Seq<u8>;

/// A failure of the outside archive writer while one file entry was being
/// written: either the entry could not be started, or its contents could
/// not be copied in. Carries the writer's message.
pub enum SessionWriteError {
    Mark(String),
    Copy(String),
}

/// Relies on zip::ZipWriter::new over a fresh in-memory cursor: a newly
/// initialized writer holds no entries and nothing has failed in it.
#[verifier::external_body]
pub fn session_new() -> (s: ArchiveSession)
    ensures
        session_entries(s) == Seq::<ArchiveEntry>::empty(),
        session_clean(s),
{
    ArchiveSession { writer: zip::ZipWriter::new(std::io::Cursor::new(Vec::new())) }
}

/// Relies on zip::ZipWriter::add_directory: on success it appends exactly
/// one directory entry, named with a trailing slash appended unless the
/// name already ends in a slash, with no contents, stamped with the DOS
/// rounding of the given time (the given time is representable, so the
/// conversion cannot fail; the format then floors the second to even,
/// capped at 58). A successful call keeps a clean session clean.
#[verifier::external_body]
pub fn session_add_directory(s: &mut ArchiveSession, name: &String, stamp: &ZipTimestamp) -> (r:
    Result<(), String>)
    requires
        spec_stamp_valid(*stamp),
    ensures
        r is Ok ==> session_entries(*final(s)) == session_entries(*old(s)).push(
            ArchiveEntry {
                name: spec_dir_entry_name(name@),
                is_dir: true,
                stamp: spec_dos_stamp(*stamp),
                content: Seq::empty(),
            },
        ),
        r is Ok && session_clean(*old(s)) ==> session_clean(*final(s)),
{
    let dt = zip::DateTime::from_date_and_time(stamp.year, stamp.month, stamp.day, stamp.hour, stamp.minute, stamp.second).unwrap_or_default();
    let opts = zip::write::SimpleFileOptions::default().compression_method(zip::CompressionMethod::Bzip2).compression_level(Some(9)).last_modified_time(dt);
    match s.writer.add_directory(name.as_str(), opts) {
        Ok(()) => Ok(()),
        Err(e) => Err(format!("{}", e)),
    }
}

/// Relies on zip::ZipWriter::start_file and std::io::Write::write_all: on
/// success they append exactly one file entry with the given name, the DOS
/// rounding of the given representable timestamp, and the given bytes as
/// its compressed contents; a successful call keeps a clean session clean.
/// On failure the error says which of the two calls failed.
#[verifier::external_body]
pub fn session_write_file(
    s: &mut ArchiveSession,
    name: &String,
    stamp: &ZipTimestamp,
    content: &Vec<u8>,
) -> (r: Result<(), SessionWriteError>)
    requires
        spec_stamp_valid(*stamp),
    ensures
        r is Ok ==> session_entries(*final(s)) == session_entries(*old(s)).push(
            ArchiveEntry {
                name: name@,
                is_dir: false,
                stamp: spec_dos_stamp(*stamp),
                content: content@,
            },
        ),
        r is Ok && session_clean(*old(s)) ==> session_clean(*final(s)),
{
    let dt = zip::DateTime::from_date_and_time(stamp.year, stamp.month, stamp.day, stamp.hour, stamp.minute, stamp.second).unwrap_or_default();
    let opts = zip::write::SimpleFileOptions::default().compression_method(zip::CompressionMethod::Bzip2).compression_level(Some(9)).last_modified_time(dt);
    if let Err(e) = s.writer.start_file(name.as_str(), opts) {
        return Err(SessionWriteError::Mark(format!("{}", e)));
    }
    if let Err(e) = std::io::Write::write_all(&mut s.writer, content.as_slice()) {
        return Err(SessionWriteError::Copy(format!("{}", e)));
    }
    Ok(())
}

/// Relies on zip::ZipWriter::set_comment and finish: on success, and for a
/// clean session (one a failed write may have left a partial entry's bytes
/// in), the returned bytes are the archive encoding of the session's
/// entries with the given trailing comment, flushed and closed.
#[verifier::external_body]
pub fn session_finish(s: ArchiveSession, comment: &String) -> (r: Result<Vec<u8>, String>)
    ensures
        r is Ok && session_clean(s) ==> r->Ok_0@ == zip_encoding(session_entries(s), comment@),
{
    let mut writer = s.writer;
    if let Err(e) = writer.set_comment(comment.as_str()) {
        return Err(format!("{}", e));
    }
    match writer.finish() {
        Ok(cursor) => Ok(cursor.into_inner()),
        Err(e) => Err(format!("{}", e)),
    }
}

} // verus!

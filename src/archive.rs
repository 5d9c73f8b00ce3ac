//! Packaging of the finished tree into one zip archive held in memory.
use vstd::prelude::*;

verus! {

#[verifier::external_type_specification]
#[verifier::external_body]
pub struct ExZipError(zip::result::ZipError);

/// A zip archive being written into memory.
#[verifier::external_body]
pub struct ArchiveWriter {
    inner: zip::ZipWriter<std::io::Cursor<Vec<u8>>>,
}

/// The files started in the archive so far, each with the bytes written to it.
pub uninterp spec fn written_entries(w: ArchiveWriter) -> Seq<(Seq<char>, Seq<u8>)>;

/// The bytes of the archive that `finish` closes.
pub uninterp spec fn archive_bytes(w: ArchiveWriter) -> Seq<u8>;

/// Whether the writer is still open: made by `new`, not finished, and not closed
/// by an error.
pub uninterp spec fn writer_open(w: ArchiveWriter) -> bool;

/// The largest file that is stored without the zip64 extension, less a margin for
/// what compression may add to incompressible data.
pub open spec fn entry_limit() -> nat {
    0xF000_0000
}

/// Whether the file started last (if any) is within the size limit.
pub open spec fn last_within_limit(w: ArchiveWriter) -> bool {
    written_entries(w).len() == 0 || written_entries(w).last().1.len() <= entry_limit()
}

impl ArchiveWriter {
    /// Relies on `zip::ZipWriter::new`: an open writer with no file in it.
    #[verifier::external_body]
    fn new() -> (r: ArchiveWriter)
        ensures
            written_entries(r) == Seq::<(Seq<char>, Seq<u8>)>::empty(),
            writer_open(r),
    {
        ArchiveWriter { inner: zip::ZipWriter::new(std::io::Cursor::new(Vec::new())) }
    }

    /// Relies on `zip::ZipWriter::start_file` with default options: a new file of
    /// that exact name, empty so far, follows the earlier ones. Writing into memory
    /// cannot fail, so on an open writer it fails only when the file it closes is
    /// too large for a plain (non-zip64) entry.
    #[verifier::external_body]
    fn start_file(&mut self, name: &str) -> (r: Result<(), zip::result::ZipError>)
        ensures
            writer_open(*old(self)) && last_within_limit(*old(self)) ==> r is Ok && writer_open(
                *final(self),
            ),
            r is Ok ==> written_entries(*final(self)) == written_entries(*old(self)).push(
                (name@, Seq::<u8>::empty()),
            ),
    {
        self.inner.start_file(name, zip::write::FileOptions::default())
    }

    /// Relies on `Write::write_all` of `zip::ZipWriter`: the bytes go to the file
    /// started last, and writing bytes with no file started fails (an empty
    /// buffer is not handed to the writer at all). On an open writer with a file
    /// started it fails only when that file outgrows a plain entry.
    #[verifier::external_body]
    fn write_all(&mut self, data: &[u8]) -> (r: Result<(), zip::result::ZipError>)
        ensures
            writer_open(*old(self)) && written_entries(*old(self)).len() > 0
                && written_entries(*old(self)).last().1.len() + data@.len() <= entry_limit() ==> r is Ok
                && writer_open(*final(self)),
            r is Ok && data@.len() > 0 ==> written_entries(*old(self)).len() > 0,
            r is Ok && written_entries(*old(self)).len() > 0 ==> written_entries(*final(self))
                == written_entries(*old(self)).update(
                written_entries(*old(self)).len() - 1,
                (
                    written_entries(*old(self)).last().0,
                    written_entries(*old(self)).last().1 + data@,
                ),
            ),
    {
        std::io::Write::write_all(&mut self.inner, data).map_err(zip::result::ZipError::Io)
    }

    /// Relies on `zip::ZipWriter::finish`: the central directory is written and the
    /// archive's bytes are handed back; on an open writer it fails only when the
    /// file it closes is too large for a plain entry.
    #[verifier::external_body]
    fn finish(&mut self) -> (r: Result<Vec<u8>, zip::result::ZipError>)
        ensures
            writer_open(*old(self)) && last_within_limit(*old(self)) ==> r is Ok,
            r is Ok ==> r->Ok_0@ == archive_bytes(*old(self)),
    {
        self.inner.finish().map(|c| c.into_inner())
    }
}

/// One file to store: its path inside the archive and its bytes.
pub struct ArchiveEntry {
    pub name: String,
    pub contents: Vec<u8>,
}

impl ArchiveEntry {
    pub open spec fn view(&self) -> (Seq<char>, Seq<u8>) {
        (self.name@, self.contents@)
    }
}

/// Writing the archive failed.
#[derive(Debug, Clone, Copy, PartialEq, Eq, Structural)]
pub enum ArchiveError {
    Write,
}

/// The (name, bytes) view of each entry.
pub open spec fn entries_view(entries: Seq<ArchiveEntry>) -> Seq<(Seq<char>, Seq<u8>)> {
    entries.map_values(|e: ArchiveEntry| e@)
}

/// Whether every entry is small enough to be stored as a plain entry.
pub open spec fn entries_within_limit(entries: Seq<ArchiveEntry>) -> bool {
    forall|k: int| 0 <= k < entries.len() ==> (#[trigger] entries[k]).contents@.len() <= entry_limit()
}

/// Stores each entry, in order, as one file of a new archive, and returns the
/// archive's bytes: on success they are those of an archive holding exactly the
/// given entries, with the given names and bytes, and nothing else. It succeeds
/// whenever every entry is within the size limit.
pub fn build_archive(entries: &Vec<ArchiveEntry>) -> (r: Result<Vec<u8>, ArchiveError>)
    ensures
        entries_within_limit(entries@) ==> r is Ok,
        r is Ok ==> exists|w: ArchiveWriter|
            written_entries(w) == entries_view(entries@) && #[trigger] archive_bytes(w)
                == r->Ok_0@,
        r is Err ==> r == Err::<Vec<u8>, ArchiveError>(ArchiveError::Write),
{
    let mut w = ArchiveWriter::new();
    let mut i: usize = 0;
    while i < entries.len()
        invariant
            i <= entries@.len(),
            written_entries(w) == entries_view(entries@.subrange(0, i as int)),
            entries_within_limit(entries@) ==> writer_open(w) && last_within_limit(w),
        decreases entries@.len() - i,
    {
        let e = &entries[i];
        proof {
            if entries_within_limit(entries@) {
                assert(entries@[i as int].contents@.len() <= entry_limit());
            }
        }
        if w.start_file(e.name.as_str()).is_err() {
            return Err(ArchiveError::Write);
        }
        assert(written_entries(w).len() > 0);
        assert(written_entries(w).last().1 == Seq::<u8>::empty());
        if w.write_all(e.contents.as_slice()).is_err() {
            return Err(ArchiveError::Write);
        }
        assert(e@.1 =~= Seq::<u8>::empty() + e.contents@);
        i = i + 1;
        assert(entries_view(entries@.subrange(0, i as int)) =~= written_entries(w));
    }
    assert(entries@.subrange(0, entries@.len() as int) =~= entries@);
    let ghost before = w;
    match w.finish() {
        Ok(bytes) => {
            assert(archive_bytes(before) == bytes@);
            Ok(bytes)
        },
        Err(_) => Err(ArchiveError::Write),
    }
}

} // verus!

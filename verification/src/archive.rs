//! Reading ZIP archives held in memory, through the `zip` crate.
use std::io::Cursor;
use std::io::Read;
use vstd::prelude::*;
use zip::ZipArchive;

verus! {

#[verifier::external_type_specification]
#[verifier::external_body]
#[verifier::reject_recursive_types(R)]
pub struct ExZipArchive<R>(ZipArchive<R>);

#[verifier::external_type_specification]
#[verifier::external_body]
#[verifier::reject_recursive_types(T)]
pub struct ExCursor<T>(Cursor<T>);

/// The message of the error `ZipArchive::new` gives on these bytes, or
/// `None` when it reads them as an archive.
pub uninterp spec fn zip_open_error(bytes: Seq<u8>) -> Option<Seq<char>>;

/// The bytes an open archive holds.
pub uninterp spec fn archive_bytes(archive: ZipArchive<Cursor<Vec<u8>>>) -> Seq<u8>;

/// `ZipArchive::len` of the archive these bytes hold.
pub uninterp spec fn zip_entry_count(bytes: Seq<u8>) -> nat;

/// `ZipArchive::by_index` of the archive these bytes hold, read into an
/// `EntryView`, or the error's message. `ZipFile::enclosed_name` reads names
/// differently per target; this is its result on the build target.
pub uninterp spec fn zip_entry(bytes: Seq<u8>, index: int) -> Result<EntryView, Seq<char>>;

/// An archive entry as plain values.
pub struct ArchiveEntry {
    /// `ZipFile::name`, `None` when the name cannot be decoded.
    pub name: Option<String>,
    /// `ZipFile::enclosed_name` as text: the name as a relative path that
    /// stays inside the extraction directory, `None` when it would not.
    pub enclosed_name: Option<String>,
    /// `ZipFile::is_dir`.
    pub is_dir: bool,
    /// The decompressed contents, or the read error's message.
    pub contents: Result<Vec<u8>, String>,
}

pub struct EntryView {
    pub name: Option<Seq<char>>,
    pub enclosed_name: Option<Seq<char>>,
    pub is_dir: bool,
    pub contents: Result<Seq<u8>, Seq<char>>,
}

impl ArchiveEntry {
    pub open spec fn view(&self) -> EntryView {
        EntryView {
            name: crate::text::opt_string_view(self.name),
            enclosed_name: crate::text::opt_string_view(self.enclosed_name),
            is_dir: self.is_dir,
            contents: match self.contents {
                Ok(v) => Ok(v@),
                Err(e) => Err(e@),
            },
        }
    }
}

pub open spec fn entry_result_view(r: Result<ArchiveEntry, String>) -> Result<EntryView, Seq<char>> {
    match r {
        Ok(e) => Ok(e.view()),
        Err(m) => Err(m@),
    }
}

/// `ZipArchive::new` over a copy of the bytes; the error is turned into its
/// message. Claims only that the outcome is the one named for these bytes,
/// and that an opened archive holds them.
#[verifier::external_body]
pub(crate) fn open_archive(bytes: &[u8]) -> (r: Result<ZipArchive<Cursor<Vec<u8>>>, String>)
    ensures
        match r {
            Ok(a) => zip_open_error(bytes@) is None && archive_bytes(a) == bytes@,
            Err(m) => zip_open_error(bytes@) == Some(m@),
        },
{
    match ZipArchive::new(Cursor::new(bytes.to_vec())) {
        Ok(archive) => Ok(archive),
        Err(error) => Err(error.to_string()),
    }
}

/// `ZipArchive::len`: the number of entries, as named for the archive's
/// bytes.
#[verifier::external_body]
pub(crate) fn archive_len(archive: &ZipArchive<Cursor<Vec<u8>>>) -> (r: usize)
    ensures
        r == zip_entry_count(archive_bytes(*archive)),
{
    archive.len()
}

/// `ZipArchive::by_index`, with the entry it gives read into plain values
/// (its name, enclosed name, kind and decompressed contents) and errors
/// turned into their messages. The archive keeps its bytes; the result is the
/// one named for the bytes and the index.
#[verifier::external_body]
pub(crate) fn archive_entry(archive: &mut ZipArchive<Cursor<Vec<u8>>>, index: usize) -> (r: Result<
    ArchiveEntry,
    String,
>)
    ensures
        archive_bytes(*final(archive)) == archive_bytes(*old(archive)),
        entry_result_view(r) == zip_entry(archive_bytes(*old(archive)), index as int),
{
    match archive.by_index(index) {
        Ok(mut file) => {
            let name = file.name().ok().map(|n| n.into_owned());
            let enclosed_name = file.enclosed_name().map(|p| p.to_string_lossy().into_owned());
            let is_dir = file.is_dir();
            let mut data = Vec::new();
            let contents = match file.read_to_end(&mut data) {
                Ok(_) => Ok(data),
                Err(error) => Err(error.to_string()),
            };
            Ok(ArchiveEntry { name, enclosed_name, is_dir, contents })
        },
        Err(error) => Err(error.to_string()),
    }
}

} // verus!

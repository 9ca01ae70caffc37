//! Artifacts: which format one is in, and the files it holds.

pub mod bz2;
pub mod records;
pub mod tar_gz;
pub mod tar_xz;
pub mod zip;
pub mod zst;

use crate::failure::{Error, Failure, Fault};
use crate::gather::views;
use crate::text::{ends, ends_with, law_parts_of_texts, strip_back};
use vstd::prelude::*;

verus! {

/// A file in an artifact.
#[derive(Debug)]
pub struct ArchiveEntry {
    /// Its path in the artifact.
    pub archive_path: String,
    /// What it holds.
    pub contents: Vec<u8>,
    /// Its permissions, where the format records them.
    pub mode: Option<u32>,
}

/// A file of an artifact in a contract.
pub struct EntryView {
    pub path: Seq<char>,
    pub contents: Seq<u8>,
    pub mode: Option<u32>,
}

impl View for ArchiveEntry {
    type V = EntryView;

    open spec fn view(&self) -> EntryView {
        EntryView { path: self.archive_path@, contents: self.contents@, mode: self.mode }
    }
}

/// The files of a result.
pub open spec fn entries_outcome(r: Result<Vec<ArchiveEntry>, Error>) -> Result<
    Seq<EntryView>,
    Fault,
> {
    match r {
        Ok(v) => Ok(views(v@)),
        Err(e) => Err(e@),
    }
}

/// A reader of artifacts in one format.
pub trait Extractor {
    /// `r` is what reading an artifact of this name and these bytes can come to.
    spec fn extracts(
        &self,
        name: Seq<char>,
        bytes: Seq<u8>,
        r: Result<Seq<EntryView>, Fault>,
    ) -> bool;

    /// The files that an artifact holds.
    fn entries(&self, artifact_name: &str, bytes: &[u8]) -> (r: Result<Vec<ArchiveEntry>, Error>)
        ensures
            self.extracts(artifact_name@, bytes@, entries_outcome(r)),
    ;
}

/// `name` without the suffix, where it ends with it.
pub open spec fn without_suffix(name: Seq<char>, suffix: Seq<char>) -> Seq<char> {
    if ends(name, suffix) {
        name.take(name.len() - suffix.len())
    } else {
        name
    }
}

/// The only file of an artifact that is a compressed file, under the artifact's name without the
/// suffix.
pub open spec fn lone_entry(
    name: Seq<char>,
    suffix: Seq<char>,
    contents: Seq<u8>,
) -> Seq<EntryView> {
    seq![EntryView { path: without_suffix(name, suffix), contents, mode: None }]
}

/// The only file of an artifact that is a compressed file.
pub fn lone_file(artifact_name: &str, suffix: &str, contents: Vec<u8>) -> (r: Vec<ArchiveEntry>)
    ensures
        views(r@) == lone_entry(artifact_name@, suffix@, contents@),
{
    let archive_path = match strip_back(artifact_name, suffix) {
        Some(stem) => stem,
        None => artifact_name.to_owned(),
    };
    let ghost bytes = contents@;
    let mut out: Vec<ArchiveEntry> = Vec::new();
    out.push(ArchiveEntry { archive_path, contents, mode: None });
    assert(views(out@) =~= lone_entry(artifact_name@, suffix@, bytes));
    out
}

/// The formats of artifacts.
#[derive(Debug, Clone, Copy, PartialEq, Eq, Structural)]
pub enum Format {
    TarGz,
    TarXz,
    Zip,
    Bz2,
    Zst,
}

/// The format that the name of an artifact tells; none where it tells none.
pub open spec fn format_of(name: Seq<char>) -> Option<Format> {
    if ends(name, ".tar.gz"@) || ends(name, ".tgz"@) {
        Some(Format::TarGz)
    } else if ends(name, ".tar.xz"@) || ends(name, ".txz"@) {
        Some(Format::TarXz)
    } else if ends(name, ".zip"@) {
        Some(Format::Zip)
    } else if ends(name, ".bz2"@) {
        Some(Format::Bz2)
    } else if ends(name, ".zst"@) {
        Some(Format::Zst)
    } else {
        None
    }
}

/// The reader of artifacts in a given format.
#[derive(Debug)]
pub struct FormatExtractor {
    pub format: Format,
}

impl Extractor for FormatExtractor {
    open spec fn extracts(
        &self,
        name: Seq<char>,
        bytes: Seq<u8>,
        r: Result<Seq<EntryView>, Fault>,
    ) -> bool {
        match self.format {
            Format::TarGz => tar_gz::TarGzExtractor.extracts(name, bytes, r),
            Format::TarXz => tar_xz::TarXzExtractor.extracts(name, bytes, r),
            Format::Zip => zip::ZipExtractor.extracts(name, bytes, r),
            Format::Bz2 => bz2::Bz2Extractor.extracts(name, bytes, r),
            Format::Zst => zst::ZstExtractor.extracts(name, bytes, r),
        }
    }

    fn entries(&self, artifact_name: &str, bytes: &[u8]) -> (r: Result<Vec<ArchiveEntry>, Error>) {
        match self.format {
            Format::TarGz => tar_gz::TarGzExtractor.entries(artifact_name, bytes),
            Format::TarXz => tar_xz::TarXzExtractor.entries(artifact_name, bytes),
            Format::Zip => zip::ZipExtractor.entries(artifact_name, bytes),
            Format::Bz2 => bz2::Bz2Extractor.entries(artifact_name, bytes),
            Format::Zst => zst::ZstExtractor.entries(artifact_name, bytes),
        }
    }
}

/// The reader for an artifact, by its name.
pub fn select_extractor(artifact_name: &str) -> (r: Result<FormatExtractor, Error>)
    ensures
        match r {
            Ok(extractor) => format_of(artifact_name@) == Some(extractor.format),
            Err(e) => format_of(artifact_name@) is None && e@ == Failure::UnsupportedFormat(
                artifact_name@,
            ),
        },
{
    let format = if ends_with(artifact_name, ".tar.gz") || ends_with(artifact_name, ".tgz") {
        Format::TarGz
    } else if ends_with(artifact_name, ".tar.xz") || ends_with(artifact_name, ".txz") {
        Format::TarXz
    } else if ends_with(artifact_name, ".zip") {
        Format::Zip
    } else if ends_with(artifact_name, ".bz2") {
        Format::Bz2
    } else if ends_with(artifact_name, ".zst") {
        Format::Zst
    } else {
        return Err(Failure::UnsupportedFormat(artifact_name.to_owned()));
    };
    Ok(FormatExtractor { format })
}

/// The name of an artifact tells its format by its suffix, whatever stands before, and tells none
/// where it has none of the suffixes.
pub proof fn law_formats(stem: Seq<char>, name: Seq<char>)
    ensures
        format_of(stem + ".tar.gz"@) == Some(Format::TarGz),
        format_of(stem + ".tgz"@) == Some(Format::TarGz),
        format_of(stem + ".tar.xz"@) == Some(Format::TarXz),
        format_of(stem + ".txz"@) == Some(Format::TarXz),
        format_of(stem + ".zip"@) == Some(Format::Zip),
        format_of(stem + ".bz2"@) == Some(Format::Bz2),
        format_of(stem + ".zst"@) == Some(Format::Zst),
        format_of(name) is None <==> {
            &&& forall|s: Seq<char>| name != #[trigger] (s + ".tar.gz"@)
            &&& forall|s: Seq<char>| name != #[trigger] (s + ".tgz"@)
            &&& forall|s: Seq<char>| name != #[trigger] (s + ".tar.xz"@)
            &&& forall|s: Seq<char>| name != #[trigger] (s + ".txz"@)
            &&& forall|s: Seq<char>| name != #[trigger] (s + ".zip"@)
            &&& forall|s: Seq<char>| name != #[trigger] (s + ".bz2"@)
            &&& forall|s: Seq<char>| name != #[trigger] (s + ".zst"@)
        },
{
    lemma_suffix(stem, ".tar.gz"@, name);
    lemma_suffix(stem, ".tgz"@, name);
    lemma_suffix(stem, ".tar.xz"@, name);
    lemma_suffix(stem, ".txz"@, name);
    lemma_suffix(stem, ".zip"@, name);
    lemma_suffix(stem, ".bz2"@, name);
    lemma_suffix(stem, ".zst"@, name);
    lemma_other_suffixes(stem);
}

proof fn lemma_suffix(stem: Seq<char>, suffix: Seq<char>, name: Seq<char>)
    ensures
        ends(stem + suffix, suffix),
        ends(name, suffix) <==> exists|s: Seq<char>| name == #[trigger] (s + suffix),
{
    law_parts_of_texts(stem, suffix, Seq::empty(), name);
    if exists|s: Seq<char>| name == #[trigger] (s + suffix) {
        let s = choose|s: Seq<char>| name == #[trigger] (s + suffix);
        law_parts_of_texts(s, suffix, Seq::empty(), name);
    }
}

/// Texts with different characters at the same place from the back end differently.
proof fn lemma_other_end(stem: Seq<char>, suffix: Seq<char>, other: Seq<char>, back: int)
    requires
        1 <= back <= suffix.len(),
        back <= other.len(),
        suffix[suffix.len() - back] != other[other.len() - back],
    ensures
        !ends(stem + suffix, other),
{
    let name = stem + suffix;
    if ends(name, other) {
        let tail = name.subrange(name.len() - other.len(), name.len() as int);
        assert(tail[other.len() - back] == name[name.len() - back]);
        assert(name[name.len() - back] == suffix[suffix.len() - back]);
    }
}

proof fn lemma_other_suffixes(stem: Seq<char>)
    ensures
        !ends(stem + ".tar.xz"@, ".tar.gz"@),
        !ends(stem + ".tar.xz"@, ".tgz"@),
        !ends(stem + ".txz"@, ".tar.gz"@),
        !ends(stem + ".txz"@, ".tgz"@),
        !ends(stem + ".zip"@, ".tar.gz"@),
        !ends(stem + ".zip"@, ".tgz"@),
        !ends(stem + ".zip"@, ".tar.xz"@),
        !ends(stem + ".zip"@, ".txz"@),
        !ends(stem + ".bz2"@, ".tar.gz"@),
        !ends(stem + ".bz2"@, ".tgz"@),
        !ends(stem + ".bz2"@, ".tar.xz"@),
        !ends(stem + ".bz2"@, ".txz"@),
        !ends(stem + ".bz2"@, ".zip"@),
        !ends(stem + ".zst"@, ".tar.gz"@),
        !ends(stem + ".zst"@, ".tgz"@),
        !ends(stem + ".zst"@, ".tar.xz"@),
        !ends(stem + ".zst"@, ".txz"@),
        !ends(stem + ".zst"@, ".zip"@),
        !ends(stem + ".zst"@, ".bz2"@),
{
    reveal_strlit(".tar.gz");
    reveal_strlit(".tgz");
    reveal_strlit(".tar.xz");
    reveal_strlit(".txz");
    reveal_strlit(".zip");
    reveal_strlit(".bz2");
    reveal_strlit(".zst");
    lemma_other_end(stem, ".tar.xz"@, ".tar.gz"@, 2);
    lemma_other_end(stem, ".tar.xz"@, ".tgz"@, 2);
    lemma_other_end(stem, ".txz"@, ".tar.gz"@, 2);
    lemma_other_end(stem, ".txz"@, ".tgz"@, 2);
    lemma_other_end(stem, ".zip"@, ".tar.gz"@, 1);
    lemma_other_end(stem, ".zip"@, ".tgz"@, 1);
    lemma_other_end(stem, ".zip"@, ".tar.xz"@, 1);
    lemma_other_end(stem, ".zip"@, ".txz"@, 1);
    lemma_other_end(stem, ".bz2"@, ".tar.gz"@, 1);
    lemma_other_end(stem, ".bz2"@, ".tgz"@, 1);
    lemma_other_end(stem, ".bz2"@, ".tar.xz"@, 1);
    lemma_other_end(stem, ".bz2"@, ".txz"@, 1);
    lemma_other_end(stem, ".bz2"@, ".zip"@, 1);
    lemma_other_end(stem, ".zst"@, ".tar.gz"@, 1);
    lemma_other_end(stem, ".zst"@, ".tgz"@, 1);
    lemma_other_end(stem, ".zst"@, ".tar.xz"@, 1);
    lemma_other_end(stem, ".zst"@, ".txz"@, 1);
    lemma_other_end(stem, ".zst"@, ".zip"@, 1);
    lemma_other_end(stem, ".zst"@, ".bz2"@, 1);
}

/// A compressed file is the only file of its artifact, under the artifact's name without the suffix,
/// with what it was decompressed to, and without permissions.
pub proof fn law_lone_entry(
    stem: Seq<char>,
    suffix: Seq<char>,
    name: Seq<char>,
    contents: Seq<u8>,
)
    ensures
        lone_entry(stem + suffix, suffix, contents) == seq![
            EntryView { path: stem, contents, mode: None },
        ],
        (forall|s: Seq<char>| name != #[trigger] (s + suffix)) ==> lone_entry(
            name,
            suffix,
            contents,
        ) == seq![EntryView { path: name, contents, mode: None }],
{
    lemma_suffix(stem, suffix, name);
    let whole = stem + suffix;
    assert(whole.take(whole.len() - suffix.len()) =~= stem);
}

/// Artifacts are read by the decoder of their format: one compressed with bzip2 or Zstandard to the
/// only file that it is, or not at all; tar archives by what is behind gzip or xz, and zip archives
/// by their entries.
pub proof fn law_readers(
    name: Seq<char>,
    bytes: Seq<u8>,
    r: Result<Seq<EntryView>, Fault>,
    contents: Seq<u8>,
)
    ensures
        (FormatExtractor { format: Format::Bz2 }).extracts(name, bytes, r) ==> {
            &&& bz2::bz2_contents(bytes) == Some(contents) ==> r == Ok::<Seq<EntryView>, Fault>(
                lone_entry(name, ".bz2"@, contents),
            )
            &&& bz2::bz2_contents(bytes) is None ==> r matches Err(Failure::Bz2(_))
        },
        (FormatExtractor { format: Format::Zst }).extracts(name, bytes, r) ==> {
            &&& zst::zst_contents(bytes) == Some(contents) ==> r == Ok::<Seq<EntryView>, Fault>(
                lone_entry(name, ".zst"@, contents),
            )
            &&& zst::zst_contents(bytes) is None ==> r matches Err(Failure::Zstd(_))
        },
        (FormatExtractor { format: Format::TarGz }).extracts(name, bytes, r) <==> exists|
            list: records::Listing<records::TarRecordView>,
        | #[trigger]
            records::tar_list_tells(list, tar_gz::tar_gz_members(bytes)) && r
                == records::tar_entries(list),
        (FormatExtractor { format: Format::TarXz }).extracts(name, bytes, r) <==> exists|
            list: records::Listing<records::TarRecordView>,
        | #[trigger]
            records::tar_list_tells(list, tar_xz::tar_xz_members(bytes)) && r
                == records::tar_entries(list),
        (FormatExtractor { format: Format::Zip }).extracts(name, bytes, r) <==> exists|
            list: records::Listing<records::ZipRecordView>,
        | #[trigger]
            records::zip_list_tells(list, zip::zip_members(bytes)) && r == records::zip_entries(
                list,
            ),
{
}

/// Contracts speak of all that the file of an artifact holds.
pub proof fn law_entries_in_contracts(entry: ArchiveEntry, entries: Vec<ArchiveEntry>, e: Error)
    ensures
        entry@.path == entry.archive_path@,
        entry@.contents == entry.contents@,
        entry@.mode == entry.mode,
        entries_outcome(Ok(entries)) == Ok::<Seq<EntryView>, Fault>(views(entries@)),
        entries_outcome(Err(e)) == Err::<Seq<EntryView>, Fault>(e@),
{
}

} // verus!

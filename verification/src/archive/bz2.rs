//! Single files compressed with bzip2.

use crate::archive::records::contents_view;
use crate::archive::{entries_outcome, lone_entry, lone_file, ArchiveEntry, EntryView, Extractor};
use crate::failure::{Error, Failure, Fault};
use vstd::prelude::*;

verus! {

/// What `bzip2::read::BzDecoder` decompresses the bytes to; none where it fails.
pub uninterp spec fn bz2_contents(bytes: Seq<u8>) -> Option<Seq<u8>>;

/// Reads all that `bzip2::read::BzDecoder` gives for the bytes. The claim: this is what the name
/// `bz2_contents` stands for. Left open is the text that tells why it fails.
#[verifier::external_body]
fn read_bz2(bytes: &[u8]) -> (r: Result<Vec<u8>, String>)
    ensures
        match r {
            Ok(contents) => bz2_contents(bytes@) == Some(contents@),
            Err(_) => bz2_contents(bytes@) is None,
        },
{
    let mut reader = bzip2::read::BzDecoder::new(std::io::Cursor::new(bytes));
    let mut contents = Vec::new();
    let copied = std::io::copy(&mut reader, &mut contents);
    copied.map(|_| contents).map_err(|e| e.to_string())
}

/// The file of an artifact, by what its decompression came to.
pub open spec fn bz2_entries(name: Seq<char>, read: Result<Seq<u8>, Seq<char>>) -> Result<
    Seq<EntryView>,
    Fault,
> {
    match read {
        Ok(contents) => Ok(lone_entry(name, ".bz2"@, contents)),
        Err(detail) => Err(Failure::Bz2(detail)),
    }
}

/// The file of an artifact, by what its decompression came to.
pub fn bz2_file(artifact_name: &str, read: Result<Vec<u8>, String>) -> (r: Result<
    Vec<ArchiveEntry>,
    Error,
>)
    ensures
        entries_outcome(r) == bz2_entries(artifact_name@, contents_view(read)),
{
    match read {
        Ok(contents) => Ok(lone_file(artifact_name, ".bz2", contents)),
        Err(detail) => Err(Failure::Bz2(detail)),
    }
}

/// The reader of files compressed with bzip2.
#[derive(Debug)]
pub struct Bz2Extractor;

impl Extractor for Bz2Extractor {
    open spec fn extracts(
        &self,
        name: Seq<char>,
        bytes: Seq<u8>,
        r: Result<Seq<EntryView>, Fault>,
    ) -> bool {
        match bz2_contents(bytes) {
            Some(contents) => r == Ok::<Seq<EntryView>, Fault>(
                lone_entry(name, ".bz2"@, contents),
            ),
            None => r matches Err(Failure::Bz2(_)),
        }
    }

    fn entries(&self, artifact_name: &str, bytes: &[u8]) -> (r: Result<Vec<ArchiveEntry>, Error>) {
        bz2_file(artifact_name, read_bz2(bytes))
    }
}

/// An artifact that is decompressed is its only file; one that is not fails for the given reason.
pub proof fn law_bz2_entries(name: Seq<char>, contents: Seq<u8>, detail: Seq<char>)
    ensures
        bz2_entries(name, Ok(contents)) == Ok::<Seq<EntryView>, Fault>(
            lone_entry(name, ".bz2"@, contents),
        ),
        bz2_entries(name, Err(detail)) == Err::<Seq<EntryView>, Fault>(Failure::Bz2(detail)),
{
}

} // verus!

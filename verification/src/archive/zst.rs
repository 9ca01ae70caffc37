//! Single files compressed with Zstandard.

use crate::archive::records::contents_view;
use crate::archive::{entries_outcome, lone_entry, lone_file, ArchiveEntry, EntryView, Extractor};
use crate::failure::{Error, Failure, Fault};
use vstd::prelude::*;

verus! {

/// What `zstd::Decoder` decompresses the bytes to; none where it fails.
pub uninterp spec fn zst_contents(bytes: Seq<u8>) -> Option<Seq<u8>>;

/// Makes a `zstd::Decoder` for the bytes, and reads all that it gives. The claim: the decoder, which
/// has no dictionary to load, can always be made, and what it gives is what the name
/// `zst_contents` stands for. Left open is the text that tells why decompression fails.
#[verifier::external_body]
fn read_zst(bytes: &[u8]) -> (r: Result<Result<Vec<u8>, String>, String>)
    ensures
        match r {
            Ok(Ok(contents)) => zst_contents(bytes@) == Some(contents@),
            Ok(Err(_)) => zst_contents(bytes@) is None,
            Err(_) => false,
        },
{
    let made = zstd::Decoder::new(std::io::Cursor::new(bytes));
    let mut reader = made.map_err(|e| e.to_string())?;
    let mut contents = Vec::new();
    let copied = std::io::copy(&mut reader, &mut contents);
    Ok(copied.map(|_| contents).map_err(|e| e.to_string()))
}

/// What making the decoder, and then decompression, came to.
pub open spec fn zst_view(r: Result<Result<Vec<u8>, String>, String>) -> Result<
    Result<Seq<u8>, Seq<char>>,
    Seq<char>,
> {
    match r {
        Ok(read) => Ok(contents_view(read)),
        Err(detail) => Err(detail@),
    }
}

/// The file of an artifact, by what making the decoder, and then decompression, came to.
pub open spec fn zst_entries(
    name: Seq<char>,
    read: Result<Result<Seq<u8>, Seq<char>>, Seq<char>>,
) -> Result<Seq<EntryView>, Fault> {
    match read {
        Ok(Ok(contents)) => Ok(lone_entry(name, ".zst"@, contents)),
        Ok(Err(detail)) => Err(Failure::Zstd(detail)),
        Err(detail) => Err(Failure::ZstdDecoder(detail)),
    }
}

/// The file of an artifact, by what making the decoder, and then decompression, came to.
pub fn zst_file(artifact_name: &str, read: Result<Result<Vec<u8>, String>, String>) -> (r: Result<
    Vec<ArchiveEntry>,
    Error,
>)
    ensures
        entries_outcome(r) == zst_entries(artifact_name@, zst_view(read)),
{
    match read {
        Ok(Ok(contents)) => Ok(lone_file(artifact_name, ".zst", contents)),
        Ok(Err(detail)) => Err(Failure::Zstd(detail)),
        Err(detail) => Err(Failure::ZstdDecoder(detail)),
    }
}

/// The reader of files compressed with Zstandard.
#[derive(Debug)]
pub struct ZstExtractor;

impl Extractor for ZstExtractor {
    open spec fn extracts(
        &self,
        name: Seq<char>,
        bytes: Seq<u8>,
        r: Result<Seq<EntryView>, Fault>,
    ) -> bool {
        match zst_contents(bytes) {
            Some(contents) => r == Ok::<Seq<EntryView>, Fault>(
                lone_entry(name, ".zst"@, contents),
            ),
            None => r matches Err(Failure::Zstd(_)),
        }
    }

    fn entries(&self, artifact_name: &str, bytes: &[u8]) -> (r: Result<Vec<ArchiveEntry>, Error>) {
        zst_file(artifact_name, read_zst(bytes))
    }
}

/// An artifact that is decompressed is its only file; one that is not fails for the given reason, be
/// it that no decoder can be made or that decompression fails.
pub proof fn law_zst_entries(
    name: Seq<char>,
    contents: Seq<u8>,
    detail: Seq<char>,
    read: Result<Vec<u8>, String>,
    why: String,
)
    ensures
        zst_entries(name, Ok(Ok(contents))) == Ok::<Seq<EntryView>, Fault>(
            lone_entry(name, ".zst"@, contents),
        ),
        zst_entries(name, Ok(Err(detail))) == Err::<Seq<EntryView>, Fault>(Failure::Zstd(detail)),
        zst_entries(name, Err(detail)) == Err::<Seq<EntryView>, Fault>(
            Failure::ZstdDecoder(detail),
        ),
        zst_view(Ok(read)) == Ok::<Result<Seq<u8>, Seq<char>>, Seq<char>>(contents_view(read)),
        zst_view(Err(why)) == Err::<Result<Seq<u8>, Seq<char>>, Seq<char>>(why@),
{
}

} // verus!

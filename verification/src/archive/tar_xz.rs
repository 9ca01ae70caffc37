//! Tar archives compressed with xz.

use crate::archive::records::{
    contents_limits, listing_view, tar_entries, tar_files, tar_list_tells, Listing, TarMember, TarRecord,
    TarRecordView,
};
use crate::archive::{ArchiveEntry, EntryView, Extractor};
use crate::failure::{Error, Fault};
use std::io::{self, Read};
use vstd::prelude::*;
use xz2::read::XzDecoder;

verus! {

/// The entries that `tar::Archive::entries` finds, one after the other, in the stream that
/// `xz2::read::XzDecoder` decompresses from the bytes; none where it finds no archive, and none
/// in the place of an entry that it cannot read.
pub uninterp spec fn tar_xz_members(bytes: Seq<u8>) -> Option<Seq<Option<TarMember>>>;

/// Goes through the entries of `tar::Archive` over `xz2::read::XzDecoder`, and hands each out
/// with its type, path and mode, and with its contents up to the limit for its type: the first limit
/// is for other entries than regular files, the second for these. The claim: they are the entries
/// that the name `tar_xz_members` stands for. Left open are the contents of other entries than
/// regular files, the texts that tell why something cannot be read, and the path of an entry whose
/// name is no Unicode text, which the platform decides.
#[verifier::external_body]
fn read_tar_xz(bytes: &[u8], limits: &[u64; 2]) -> (r: Result<
    Vec<Result<TarRecord, String>>,
    String,
>)
    requires
        limits@ == contents_limits(),
    ensures
        tar_list_tells(listing_view(r), tar_xz_members(bytes@)),
{
    let told = |e: io::Error| e.to_string();
    let mut archive = tar::Archive::new(XzDecoder::new(bytes));
    let records = archive.entries().map_err(told)?.map(|entry| {
        let entry = entry.map_err(told)?;
        let path = entry.path().map(|path| path.to_string_lossy().to_string()).map_err(told);
        let is_file = entry.header().entry_type().is_file();
        let mode = entry.header().mode().ok();
        let mut contents = vec![];
        let read = entry.take(limits[is_file as usize]).read_to_end(&mut contents);
        Ok(TarRecord { is_file, path, mode, contents: read.map(|_| contents).map_err(told) })
    });
    Ok(records.collect())
}

/// The reader of tar archives compressed with xz.
#[derive(Debug)]
pub struct TarXzExtractor;

impl Extractor for TarXzExtractor {
    open spec fn extracts(
        &self,
        name: Seq<char>,
        bytes: Seq<u8>,
        r: Result<Seq<EntryView>, Fault>,
    ) -> bool {
        exists|list: Listing<TarRecordView>| #[trigger]
            tar_list_tells(list, tar_xz_members(bytes)) && r == tar_entries(list)
    }

    fn entries(&self, _artifact_name: &str, bytes: &[u8]) -> (r: Result<Vec<ArchiveEntry>, Error>) {
        let limits: [u64; 2] = [0, u64::MAX];
        assert(limits@ =~= contents_limits());
        let list = read_tar_xz(bytes, &limits);
        let ghost seen = listing_view(list);
        assert(tar_list_tells(seen, tar_xz_members(bytes@)));
        tar_files(list)
    }
}

} // verus!

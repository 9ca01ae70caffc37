//! Zip archives.

use crate::archive::records::{
    contents_limits, listing_view, zip_entries, zip_files, zip_list_tells, Listing, ZipMember, ZipRecord,
    ZipRecordView,
};
use crate::archive::{ArchiveEntry, EntryView, Extractor};
use crate::failure::{Error, Fault};
use std::io::{self, Read};
use vstd::prelude::*;

verus! {

/// The entries that `zip::ZipArchive` finds in the bytes, by their index; none where it finds no
/// archive, and none in the place of an entry that `by_index` cannot open.
pub uninterp spec fn zip_members(bytes: Seq<u8>) -> Option<Seq<Option<ZipMember>>>;

/// Goes through the entries of `zip::ZipArchive` with `by_index`, and hands each out with its kind,
/// name and mode, and with its contents up to the limit for its kind: the first limit is for
/// directories, the second for others. The claim: they are the entries that the name `zip_members`
/// stands for. Left open are the contents of directories, and the texts that tell why something
/// cannot be read.
#[verifier::external_body]
fn read_zip(bytes: &[u8], limits: &[u64; 2]) -> (r: Result<Vec<Result<ZipRecord, String>>, String>)
    requires
        limits@ == contents_limits(),
    ensures
        zip_list_tells(listing_view(r), zip_members(bytes@)),
{
    let opened = zip::ZipArchive::new(io::Cursor::new(bytes));
    let mut archive = opened.map_err(|e| e.to_string())?;
    let records = (0..archive.len()).map(|i| {
        let entry = archive.by_index(i).map_err(|e| e.to_string())?;
        let (is_dir, mode, path) = (entry.is_dir(), entry.unix_mode(), entry.name().to_string());
        let mut contents = Vec::new();
        let read = entry.take(limits[!is_dir as usize]).read_to_end(&mut contents);
        let contents = read.map(|_| contents).map_err(|e| e.to_string());
        Ok(ZipRecord { is_dir, path, mode, contents })
    });
    Ok(records.collect())
}

/// The reader of zip archives.
#[derive(Debug)]
pub struct ZipExtractor;

impl Extractor for ZipExtractor {
    open spec fn extracts(
        &self,
        name: Seq<char>,
        bytes: Seq<u8>,
        r: Result<Seq<EntryView>, Fault>,
    ) -> bool {
        exists|list: Listing<ZipRecordView>| #[trigger]
            zip_list_tells(list, zip_members(bytes)) && r == zip_entries(list)
    }

    fn entries(&self, _artifact_name: &str, bytes: &[u8]) -> (r: Result<Vec<ArchiveEntry>, Error>) {
        let limits: [u64; 2] = [0, u64::MAX];
        assert(limits@ =~= contents_limits());
        let list = read_zip(bytes, &limits);
        let ghost seen = listing_view(list);
        assert(zip_list_tells(seen, zip_members(bytes@)));
        zip_files(list)
    }
}

} // verus!

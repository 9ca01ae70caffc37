//! The records of tar and zip archives, and the files among them.

use crate::archive::{entries_outcome, ArchiveEntry, EntryView};
use crate::failure::{Error, Failure, Fault};
use crate::gather::{gather, lemma_gather_members, lemma_gather_next, views};
use vstd::prelude::*;

verus! {

/// An entry of a tar archive. A text in place of a value tells why there is none.
#[derive(Debug)]
pub struct TarRecord {
    /// Whether it is a regular file.
    pub is_file: bool,
    /// Its path.
    pub path: Result<String, String>,
    /// Its permissions, where they are well formed.
    pub mode: Option<u32>,
    /// What it holds, if it is a regular file.
    pub contents: Result<Vec<u8>, String>,
}

/// An entry of a zip archive. A text in place of a value tells why there is none.
#[derive(Debug)]
pub struct ZipRecord {
    /// Whether it is a directory.
    pub is_dir: bool,
    /// Its path.
    pub path: String,
    /// Its permissions, where it records them.
    pub mode: Option<u32>,
    /// What it holds, if it is no directory.
    pub contents: Result<Vec<u8>, String>,
}

/// A record of a tar archive in a contract.
pub struct TarRecordView {
    pub is_file: bool,
    pub path: Result<Seq<char>, Seq<char>>,
    pub mode: Option<u32>,
    pub contents: Result<Seq<u8>, Seq<char>>,
}

/// A record of a zip archive in a contract.
pub struct ZipRecordView {
    pub is_dir: bool,
    pub path: Seq<char>,
    pub mode: Option<u32>,
    pub contents: Result<Seq<u8>, Seq<char>>,
}

/// The list of the records of an archive, each of them readable or not.
pub type Listing<R> = Result<Seq<Result<R, Seq<char>>>, Seq<char>>;

/// The contents of a record.
pub open spec fn contents_view(r: Result<Vec<u8>, String>) -> Result<Seq<u8>, Seq<char>> {
    match r {
        Ok(bytes) => Ok(bytes@),
        Err(detail) => Err(detail@),
    }
}

impl View for TarRecord {
    type V = TarRecordView;

    open spec fn view(&self) -> TarRecordView {
        TarRecordView {
            is_file: self.is_file,
            path: match self.path {
                Ok(p) => Ok(p@),
                Err(detail) => Err(detail@),
            },
            mode: self.mode,
            contents: contents_view(self.contents),
        }
    }
}

impl View for ZipRecord {
    type V = ZipRecordView;

    open spec fn view(&self) -> ZipRecordView {
        ZipRecordView {
            is_dir: self.is_dir,
            path: self.path@,
            mode: self.mode,
            contents: contents_view(self.contents),
        }
    }
}

/// The records of an archive, each of them readable or not.
pub open spec fn records_view<T: View>(v: Seq<Result<T, String>>) -> Seq<Result<T::V, Seq<char>>> {
    Seq::new(v.len(), |i: int| record_view(v[i]))
}

/// The list of the records of an archive.
pub open spec fn listing_view<T: View>(r: Result<Vec<Result<T, String>>, String>) -> Listing<T::V> {
    match r {
        Ok(v) => Ok(records_view(v@)),
        Err(detail) => Err(detail@),
    }
}

/// How many bytes are read of an entry: none of one that is passed over, all of another.
pub open spec fn contents_limits() -> Seq<u64> {
    seq![0, u64::MAX]
}

/// What an entry of a tar archive is. It has no path where its name is no Unicode text, and no
/// contents where they cannot be read.
pub struct TarMember {
    pub is_file: bool,
    pub path: Option<Seq<char>>,
    pub mode: Option<u32>,
    pub contents: Option<Seq<u8>>,
}

/// What an entry of a zip archive is. It has no contents where they cannot be read.
pub struct ZipMember {
    pub is_dir: bool,
    pub path: Seq<char>,
    pub mode: Option<u32>,
    pub contents: Option<Seq<u8>>,
}

/// The record `r` tells what the entry `m` is. A name that is no Unicode text may come out in any
/// way, and so may the contents of other entries than regular files, which are passed over.
pub open spec fn tar_record_tells(r: TarRecordView, m: TarMember) -> bool {
    &&& r.is_file == m.is_file
    &&& r.mode == m.mode
    &&& m.path matches Some(p) ==> r.path == Ok::<Seq<char>, Seq<char>>(p)
    &&& m.is_file ==> {
        &&& r.contents is Ok <==> m.contents is Some
        &&& r.contents matches Ok(bytes) ==> m.contents == Some(bytes)
    }
}

/// The record `r` tells what the entry `m` is. The contents of directories, which are passed over, may
/// come out in any way.
pub open spec fn zip_record_tells(r: ZipRecordView, m: ZipMember) -> bool {
    &&& r.is_dir == m.is_dir
    &&& r.path == m.path
    &&& r.mode == m.mode
    &&& !m.is_dir ==> {
        &&& r.contents is Ok <==> m.contents is Some
        &&& r.contents matches Ok(bytes) ==> m.contents == Some(bytes)
    }
}

/// The list tells what the entries of a tar archive are; what cannot be read is left open only in
/// the text that tells why.
pub open spec fn tar_list_tells(
    list: Listing<TarRecordView>,
    members: Option<Seq<Option<TarMember>>>,
) -> bool {
    match (list, members) {
        (Ok(records), Some(all)) => {
            &&& records.len() == all.len()
            &&& forall|i: int|
                0 <= i < all.len() ==> match (#[trigger] records[i], all[i]) {
                    (Ok(r), Some(m)) => tar_record_tells(r, m),
                    (Err(_), None) => true,
                    _ => false,
                }
        },
        (Err(_), None) => true,
        _ => false,
    }
}

/// The list tells what the entries of a zip archive are; what cannot be read is left open only in
/// the text that tells why.
pub open spec fn zip_list_tells(
    list: Listing<ZipRecordView>,
    members: Option<Seq<Option<ZipMember>>>,
) -> bool {
    match (list, members) {
        (Ok(records), Some(all)) => {
            &&& records.len() == all.len()
            &&& forall|i: int|
                0 <= i < all.len() ==> match (#[trigger] records[i], all[i]) {
                    (Ok(r), Some(m)) => zip_record_tells(r, m),
                    (Err(_), None) => true,
                    _ => false,
                }
        },
        (Err(_), None) => true,
        _ => false,
    }
}

/// The file that a record of a tar archive is, if it is one.
pub open spec fn tar_step() -> spec_fn(Result<TarRecordView, Seq<char>>) -> Result<
    Seq<EntryView>,
    Fault,
> {
    |record: Result<TarRecordView, Seq<char>>|
        match record {
            Err(detail) => Err(Failure::TarEntry(detail)),
            Ok(r) => if !r.is_file {
                Ok(Seq::<EntryView>::empty())
            } else {
                match r.path {
                    Err(detail) => Err(Failure::TarPath(detail)),
                    Ok(path) => match r.contents {
                        Err(detail) => Err(Failure::Contents { path, detail }),
                        Ok(contents) => Ok(seq![EntryView { path, contents, mode: r.mode }]),
                    },
                }
            },
        }
}

/// The file that a record of a zip archive is, if it is one.
pub open spec fn zip_step() -> spec_fn(Result<ZipRecordView, Seq<char>>) -> Result<
    Seq<EntryView>,
    Fault,
> {
    |record: Result<ZipRecordView, Seq<char>>|
        match record {
            Err(detail) => Err(Failure::ZipEntry(detail)),
            Ok(r) => if r.is_dir {
                Ok(Seq::<EntryView>::empty())
            } else {
                match r.contents {
                    Err(detail) => Err(Failure::Contents { path: r.path, detail }),
                    Ok(contents) => Ok(seq![EntryView { path: r.path, contents, mode: r.mode }]),
                }
            },
        }
}

/// The files of a tar archive.
pub open spec fn tar_entries(list: Listing<TarRecordView>) -> Result<Seq<EntryView>, Fault> {
    match list {
        Err(detail) => Err(Failure::TarEntries(detail)),
        Ok(records) => gather(records, tar_step()),
    }
}

/// The files of a zip archive.
pub open spec fn zip_entries(list: Listing<ZipRecordView>) -> Result<Seq<EntryView>, Fault> {
    match list {
        Err(detail) => Err(Failure::ZipArchive(detail)),
        Ok(records) => gather(records, zip_step()),
    }
}

/// A record of an archive in a contract.
pub open spec fn record_view<T: View>(record: Result<T, String>) -> Result<T::V, Seq<char>> {
    match record {
        Ok(t) => Ok(t@),
        Err(detail) => Err(detail@),
    }
}

/// The file that a record of a tar archive is, if it is one.
fn tar_file(record: Result<TarRecord, String>) -> (r: Result<Vec<ArchiveEntry>, Error>)
    ensures
        entries_outcome(r) == tar_step()(record_view(record)),
{
    let mut out: Vec<ArchiveEntry> = Vec::new();
    let record = match record {
        Ok(record) => record,
        Err(detail) => {
            return Err(Failure::TarEntry(detail));
        },
    };
    if record.is_file {
        let mode = record.mode;
        let archive_path = match record.path {
            Ok(path) => path,
            Err(detail) => {
                return Err(Failure::TarPath(detail));
            },
        };
        let contents = match record.contents {
            Ok(contents) => contents,
            Err(detail) => {
                return Err(Failure::Contents { path: archive_path, detail });
            },
        };
        let ghost added = EntryView { path: archive_path@, contents: contents@, mode };
        out.push(ArchiveEntry { archive_path, contents, mode });
        assert(views(out@) =~= seq![added]);
    } else {
        assert(views(out@) =~= Seq::<EntryView>::empty());
    }
    Ok(out)
}

/// The files of a tar archive: its regular files, in order.
pub fn tar_files(list: Result<Vec<Result<TarRecord, String>>, String>) -> (r: Result<
    Vec<ArchiveEntry>,
    Error,
>)
    ensures
        entries_outcome(r) == tar_entries(listing_view(list)),
{
    let records = match list {
        Ok(records) => records,
        Err(detail) => {
            return Err(Failure::TarEntries(detail));
        },
    };
    let ghost all = records_view(records@);
    let ghost f = tar_step();
    let mut out: Vec<ArchiveEntry> = Vec::new();
    assert(gather(all.take(0), f) == Ok::<Seq<EntryView>, Fault>(views(out@))) by {
        assert(views(out@) =~= Seq::<EntryView>::empty());
    }
    for record in it: records
        invariant
            it.seq() == records@,
            all == records_view(records@),
            listing_view(list) == Ok::<_, Seq<char>>(all),
            f == tar_step(),
            gather(all.take(it.index()), f) == Ok::<Seq<EntryView>, Fault>(views(out@)),
    {
        proof {
            lemma_gather_next(all, f, it.index());
        }
        match tar_file(record) {
            Err(e) => {
                return Err(e);
            },
            Ok(mut more) => {
                let ghost before = views(out@);
                let ghost added = views(more@);
                out.append(&mut more);
                assert(views(out@) =~= before + added);
            },
        }
    }
    assert(all.take(all.len() as int) =~= all);
    Ok(out)
}

/// The file that a record of a zip archive is, if it is one.
fn zip_file(record: Result<ZipRecord, String>) -> (r: Result<Vec<ArchiveEntry>, Error>)
    ensures
        entries_outcome(r) == zip_step()(record_view(record)),
{
    let mut out: Vec<ArchiveEntry> = Vec::new();
    let record = match record {
        Ok(record) => record,
        Err(detail) => {
            return Err(Failure::ZipEntry(detail));
        },
    };
    if !record.is_dir {
        let mode = record.mode;
        let archive_path = record.path;
        let contents = match record.contents {
            Ok(contents) => contents,
            Err(detail) => {
                return Err(Failure::Contents { path: archive_path, detail });
            },
        };
        let ghost added = EntryView { path: archive_path@, contents: contents@, mode };
        out.push(ArchiveEntry { archive_path, contents, mode });
        assert(views(out@) =~= seq![added]);
    } else {
        assert(views(out@) =~= Seq::<EntryView>::empty());
    }
    Ok(out)
}

/// The files of a zip archive: its entries other than directories, in order.
pub fn zip_files(list: Result<Vec<Result<ZipRecord, String>>, String>) -> (r: Result<
    Vec<ArchiveEntry>,
    Error,
>)
    ensures
        entries_outcome(r) == zip_entries(listing_view(list)),
{
    let records = match list {
        Ok(records) => records,
        Err(detail) => {
            return Err(Failure::ZipArchive(detail));
        },
    };
    let ghost all = records_view(records@);
    let ghost f = zip_step();
    let mut out: Vec<ArchiveEntry> = Vec::new();
    assert(gather(all.take(0), f) == Ok::<Seq<EntryView>, Fault>(views(out@))) by {
        assert(views(out@) =~= Seq::<EntryView>::empty());
    }
    for record in it: records
        invariant
            it.seq() == records@,
            all == records_view(records@),
            listing_view(list) == Ok::<_, Seq<char>>(all),
            f == zip_step(),
            gather(all.take(it.index()), f) == Ok::<Seq<EntryView>, Fault>(views(out@)),
    {
        proof {
            lemma_gather_next(all, f, it.index());
        }
        match zip_file(record) {
            Err(e) => {
                return Err(e);
            },
            Ok(mut more) => {
                let ghost before = views(out@);
                let ghost added = views(more@);
                out.append(&mut more);
                assert(views(out@) =~= before + added);
            },
        }
    }
    assert(all.take(all.len() as int) =~= all);
    Ok(out)
}

/// The entry of a tar archive is the regular file `e`.
pub open spec fn is_tar_file(member: Option<TarMember>, e: EntryView) -> bool {
    member matches Some(m) && m.is_file && m.path == Some(e.path) && m.contents == Some(e.contents)
        && m.mode == e.mode
}

/// The entry of a zip archive is the file `e`.
pub open spec fn is_zip_file(member: Option<ZipMember>, e: EntryView) -> bool {
    member matches Some(m) && !m.is_dir && m.path == e.path && m.contents == Some(e.contents)
        && m.mode == e.mode
}

/// A tar archive all of whose entries can be read gives its regular files and nothing else, however
/// its entries are told.
pub proof fn law_tar_gives_its_files(
    list: Listing<TarRecordView>,
    members: Seq<Option<TarMember>>,
    e: EntryView,
)
    requires
        tar_list_tells(list, Some(members)),
        forall|i: int|
            0 <= i < members.len() ==> (#[trigger] members[i] matches Some(m) && (m.is_file
                ==> m.path is Some && m.contents is Some)),
    ensures
        tar_entries(list) matches Ok(entries) && (entries.contains(e) <==> exists|i: int|
            0 <= i < members.len() && #[trigger] is_tar_file(members[i], e)),
{
    let records = list->Ok_0;
    let f = tar_step();
    assert forall|i: int| 0 <= i < records.len() implies {
        &&& f(#[trigger] records[i]) is Ok
        &&& f(records[i])->Ok_0.contains(e) <==> is_tar_file(members[i], e)
    } by {
        assert(members[i] is Some);
        let r = records[i]->Ok_0;
        if r.is_file {
            let one = EntryView { path: r.path->Ok_0, contents: r.contents->Ok_0, mode: r.mode };
            assert(f(records[i]) == Ok::<Seq<EntryView>, Fault>(seq![one]));
            assert(seq![one].contains(e) <==> one == e) by {
                assert(seq![one][0] == one);
            }
        } else {
            assert(f(records[i]) == Ok::<Seq<EntryView>, Fault>(Seq::empty()));
        }
    }
    lemma_gather_members(records, f);
    if exists|i: int| 0 <= i < members.len() && #[trigger] is_tar_file(members[i], e) {
        let i = choose|i: int| 0 <= i < members.len() && #[trigger] is_tar_file(members[i], e);
        assert(f(records[i])->Ok_0.contains(e));
    }
}

/// A zip archive all of whose entries can be read gives its files and nothing else, however its
/// entries are told.
pub proof fn law_zip_gives_its_files(
    list: Listing<ZipRecordView>,
    members: Seq<Option<ZipMember>>,
    e: EntryView,
)
    requires
        zip_list_tells(list, Some(members)),
        forall|i: int|
            0 <= i < members.len() ==> (#[trigger] members[i] matches Some(m) && (!m.is_dir
                ==> m.contents is Some)),
    ensures
        zip_entries(list) matches Ok(entries) && (entries.contains(e) <==> exists|i: int|
            0 <= i < members.len() && #[trigger] is_zip_file(members[i], e)),
{
    let records = list->Ok_0;
    let f = zip_step();
    assert forall|i: int| 0 <= i < records.len() implies {
        &&& f(#[trigger] records[i]) is Ok
        &&& f(records[i])->Ok_0.contains(e) <==> is_zip_file(members[i], e)
    } by {
        assert(members[i] is Some);
        let r = records[i]->Ok_0;
        if !r.is_dir {
            let one = EntryView { path: r.path, contents: r.contents->Ok_0, mode: r.mode };
            assert(f(records[i]) == Ok::<Seq<EntryView>, Fault>(seq![one]));
            assert(seq![one].contains(e) <==> one == e) by {
                assert(seq![one][0] == one);
            }
        } else {
            assert(f(records[i]) == Ok::<Seq<EntryView>, Fault>(Seq::empty()));
        }
    }
    lemma_gather_members(records, f);
    if exists|i: int| 0 <= i < members.len() && #[trigger] is_zip_file(members[i], e) {
        let i = choose|i: int| 0 <= i < members.len() && #[trigger] is_zip_file(members[i], e);
        assert(f(records[i])->Ok_0.contains(e));
    }
}

/// One record more in a tar archive: a regular file comes behind the files before it, with its path,
/// contents and permissions; another entry comes not at all; and what cannot be read makes the
/// whole fail, unless something before it does.
pub proof fn law_one_tar_record_more(
    records: Seq<Result<TarRecordView, Seq<char>>>,
    record: Result<TarRecordView, Seq<char>>,
    detail: Seq<char>,
)
    ensures
        tar_entries(Ok(Seq::empty())) == Ok::<Seq<EntryView>, Fault>(Seq::empty()),
        tar_entries(Err(detail)) == Err::<Seq<EntryView>, Fault>(Failure::TarEntries(detail)),
        match tar_entries(Ok(records)) {
            Err(e) => tar_entries(Ok(records.push(record))) == Err::<Seq<EntryView>, Fault>(e),
            Ok(before) => tar_entries(Ok(records.push(record))) == match record {
                Err(why) => Err::<Seq<EntryView>, Fault>(Failure::TarEntry(why)),
                Ok(r) => if !r.is_file {
                    Ok(before)
                } else if r.path is Err {
                    Err(Failure::TarPath(r.path->Err_0))
                } else if r.contents is Err {
                    Err(Failure::Contents { path: r.path->Ok_0, detail: r.contents->Err_0 })
                } else {
                    Ok(
                        before.push(
                            EntryView {
                                path: r.path->Ok_0,
                                contents: r.contents->Ok_0,
                                mode: r.mode,
                            },
                        ),
                    )
                },
            },
        },
{
    let all = records.push(record);
    assert(all.drop_last() =~= records);
    if let Ok(before) = tar_entries(Ok(records)) {
        assert(before + Seq::<EntryView>::empty() =~= before);
        if let Ok(r) = record {
            let one = EntryView {
                path: r.path->Ok_0,
                contents: r.contents->Ok_0,
                mode: r.mode,
            };
            assert(before + seq![one] =~= before.push(one));
        }
    }
}

/// One record more in a zip archive: what is no directory comes behind the files before it, with its
/// path, contents and permissions; a directory comes not at all; and what cannot be read makes the
/// whole fail, unless something before it does.
pub proof fn law_one_zip_record_more(
    records: Seq<Result<ZipRecordView, Seq<char>>>,
    record: Result<ZipRecordView, Seq<char>>,
    detail: Seq<char>,
)
    ensures
        zip_entries(Ok(Seq::empty())) == Ok::<Seq<EntryView>, Fault>(Seq::empty()),
        zip_entries(Err(detail)) == Err::<Seq<EntryView>, Fault>(Failure::ZipArchive(detail)),
        match zip_entries(Ok(records)) {
            Err(e) => zip_entries(Ok(records.push(record))) == Err::<Seq<EntryView>, Fault>(e),
            Ok(before) => zip_entries(Ok(records.push(record))) == match record {
                Err(why) => Err::<Seq<EntryView>, Fault>(Failure::ZipEntry(why)),
                Ok(r) => if r.is_dir {
                    Ok(before)
                } else if r.contents is Err {
                    Err(Failure::Contents { path: r.path, detail: r.contents->Err_0 })
                } else {
                    Ok(
                        before.push(
                            EntryView { path: r.path, contents: r.contents->Ok_0, mode: r.mode },
                        ),
                    )
                },
            },
        },
{
    let all = records.push(record);
    assert(all.drop_last() =~= records);
    if let Ok(before) = zip_entries(Ok(records)) {
        assert(before + Seq::<EntryView>::empty() =~= before);
        if let Ok(r) = record {
            let one = EntryView { path: r.path, contents: r.contents->Ok_0, mode: r.mode };
            assert(before + seq![one] =~= before.push(one));
        }
    }
}

/// Files are read whole, and nothing is read of what is passed over.
pub proof fn law_contents_limits()
    ensures
        contents_limits().len() == 2,
        contents_limits()[0] == 0,
        contents_limits()[1] == 0xffff_ffff_ffff_ffffu64,
{
}

/// What is told of an entry of a tar archive is its type, its permissions, its path where that is
/// text, and, of a regular file, its contents, or that they cannot be read.
pub proof fn law_told_of_tar_entries(
    list: Listing<TarRecordView>,
    members: Seq<Option<TarMember>>,
    i: int,
)
    requires
        tar_list_tells(list, Some(members)),
        0 <= i < members.len(),
    ensures
        list matches Ok(records) && records.len() == members.len() && match members[i] {
            None => records[i] is Err,
            Some(m) => records[i] matches Ok(r) && r.is_file == m.is_file && r.mode == m.mode && (
            m.path matches Some(p) ==> r.path == Ok::<Seq<char>, Seq<char>>(p)) && (m.is_file ==> (
            match m.contents {
                Some(bytes) => r.contents == Ok::<Seq<u8>, Seq<char>>(bytes),
                None => r.contents is Err,
            })),
        },
{
    let records = list->Ok_0;
    assert(records.len() == members.len());
    let here = records[i];
}

/// What is told of an entry of a zip archive is its kind, its path, its permissions, and, unless it is
/// a directory, its contents, or that they cannot be read.
pub proof fn law_told_of_zip_entries(
    list: Listing<ZipRecordView>,
    members: Seq<Option<ZipMember>>,
    i: int,
)
    requires
        zip_list_tells(list, Some(members)),
        0 <= i < members.len(),
    ensures
        list matches Ok(records) && records.len() == members.len() && match members[i] {
            None => records[i] is Err,
            Some(m) => records[i] matches Ok(r) && r.is_dir == m.is_dir && r.mode == m.mode && r.path
                == m.path && (!m.is_dir ==> (match m.contents {
                Some(bytes) => r.contents == Ok::<Seq<u8>, Seq<char>>(bytes),
                None => r.contents is Err,
            })),
        },
{
    let records = list->Ok_0;
    assert(records.len() == members.len());
    let here = records[i];
}

/// Contracts speak of all that the records of an archive hold, one for one.
pub proof fn law_records_in_contracts<T: View>(
    tar: TarRecord,
    zip: ZipRecord,
    list: Vec<Result<T, String>>,
    bytes: Vec<u8>,
    why: String,
    i: int,
)
    ensures
        tar@.is_file == tar.is_file,
        tar@.mode == tar.mode,
        tar.path matches Ok(p) ==> tar@.path == Ok::<Seq<char>, Seq<char>>(p@),
        tar.path matches Err(d) ==> tar@.path == Err::<Seq<char>, Seq<char>>(d@),
        tar@.contents == contents_view(tar.contents),
        zip@.is_dir == zip.is_dir,
        zip@.mode == zip.mode,
        zip@.path == zip.path@,
        zip@.contents == contents_view(zip.contents),
        contents_view(Ok(bytes)) == Ok::<Seq<u8>, Seq<char>>(bytes@),
        contents_view(Err(why)) == Err::<Seq<u8>, Seq<char>>(why@),
        listing_view::<T>(Err(why)) == Err::<Seq<Result<T::V, Seq<char>>>, Seq<char>>(why@),
        listing_view::<T>(Ok(list)) matches Ok(all) && all.len() == list@.len() && (0 <= i
            < list@.len() ==> match list@[i] {
            Ok(t) => all[i] == Ok::<T::V, Seq<char>>(t@),
            Err(d) => all[i] == Err::<T::V, Seq<char>>(d@),
        }),
{
}

} // verus!

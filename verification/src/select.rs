//! Selecting: which files of an artifact are installed, and how.

use crate::archive::{ArchiveEntry, EntryView};
use crate::config::{FileView, RenderedFile};
use crate::failure::{Error, Failure, Fault};
use crate::gather::{
    gather, lemma_gather_first_failure, lemma_gather_next, lemma_gather_one_each, views,
};
use crate::paths::{safe_path, safe_relative_path, PathStyle};
use crate::pattern::{
    agreed, agreed_on, find_hit, first_hit, glob_accepts, glob_matches, hits_view, lemma_first_hit,
    literal, tried, try_pattern, Hits,
};
use crate::text::texts;
use vstd::prelude::*;

verus! {

/// A file to install as a program.
#[derive(Debug)]
pub struct SelectedFile {
    /// The name to install it under.
    pub name: String,
    /// What it holds.
    pub contents: Vec<u8>,
}

/// A whole artifact to install.
#[derive(Debug)]
pub struct SelectedPackage {
    /// The files, each at its path.
    pub files: Vec<SelectedPackageFile>,
    /// The links to some of the files.
    pub links: Vec<SelectedPackageLink>,
}

/// A file of an artifact to install.
#[derive(Debug)]
pub struct SelectedPackageFile {
    /// Its path below the directory of the package.
    pub relative_path: String,
    /// What it holds.
    pub contents: Vec<u8>,
    /// Its permissions, where the artifact records them.
    pub mode: Option<u32>,
}

/// A link to a file of an artifact.
#[derive(Debug)]
pub struct SelectedPackageLink {
    /// The path of the link below the directory of programs.
    pub name: String,
    /// The path of the file below the directory of the package.
    pub target: String,
}

/// A selected file in a contract.
pub struct SelectedView {
    pub name: Seq<char>,
    pub contents: Seq<u8>,
}

/// A link in a contract.
pub struct LinkView {
    pub name: Seq<char>,
    pub target: Seq<char>,
}

/// A whole artifact to install in a contract.
pub struct SelectedPackageView {
    pub files: Seq<EntryView>,
    pub links: Seq<LinkView>,
}

impl View for SelectedFile {
    type V = SelectedView;

    open spec fn view(&self) -> SelectedView {
        SelectedView { name: self.name@, contents: self.contents@ }
    }
}

impl View for SelectedPackageFile {
    type V = EntryView;

    open spec fn view(&self) -> EntryView {
        EntryView { path: self.relative_path@, contents: self.contents@, mode: self.mode }
    }
}

impl View for SelectedPackageLink {
    type V = LinkView;

    open spec fn view(&self) -> LinkView {
        LinkView { name: self.name@, target: self.target@ }
    }
}

impl View for SelectedPackage {
    type V = SelectedPackageView;

    open spec fn view(&self) -> SelectedPackageView {
        SelectedPackageView { files: views(self.files@), links: views(self.links@) }
    }
}

/// The paths of the files of an artifact.
pub open spec fn entry_paths(entries: Seq<EntryView>) -> Seq<Seq<char>> {
    Seq::new(entries.len(), |i: int| entries[i].path)
}

/// `hits` is, file for file, what trying its path on the paths in the artifact can come to.
pub open spec fn files_tried(
    files: Seq<FileView>,
    entries: Seq<EntryView>,
    hits: Seq<Hits>,
) -> bool {
    &&& hits.len() == files.len()
    &&& forall|i: int|
        0 <= i < files.len() ==> tried(
            (#[trigger] files[i]).path,
            entry_paths(entries),
            hits[i],
        )
}

/// The files, each with what trying its path came to.
pub open spec fn with_hits(files: Seq<FileView>, hits: Seq<Hits>) -> Seq<(FileView, Hits)> {
    Seq::new(files.len(), |i: int| (files[i], hits[i]))
}

/// The place in the artifact of a configured file: that of the first entry its path matches.
pub open spec fn place_of(file: FileView, hits: Hits) -> Result<int, Fault> {
    match hits {
        Err(detail) => Err(Failure::BadPattern { pattern: file.path, detail }),
        Ok(found) => match first_hit(found) {
            None => Err(Failure::MissingFile(file.path)),
            Some(i) => Ok(i),
        },
    }
}

/// The contents for a configured file.
pub open spec fn pick_step(entries: Seq<EntryView>) -> spec_fn((FileView, Hits)) -> Result<
    Seq<SelectedView>,
    Fault,
> {
    |x: (FileView, Hits)|
        match place_of(x.0, x.1) {
            Err(e) => Err(e),
            Ok(i) => Ok(seq![SelectedView { name: x.0.name, contents: entries[i].contents }]),
        }
}

/// The configured files, each with the contents of the first entry its path matches.
pub open spec fn picked(
    files: Seq<FileView>,
    entries: Seq<EntryView>,
    hits: Seq<Hits>,
) -> Result<Seq<SelectedView>, Fault> {
    gather(with_hits(files, hits), pick_step(entries))
}

/// A file of the artifact, at a path that stays below the directory of the package.
pub open spec fn tree_step(style: PathStyle) -> spec_fn(EntryView) -> Result<
    Seq<EntryView>,
    Fault,
> {
    |entry: EntryView|
        match safe_path(style, entry.path) {
            None => Err(Failure::UnsafePath(entry.path)),
            Some(path) => Ok(
                seq![EntryView { path, contents: entry.contents, mode: entry.mode }],
            ),
        }
}

/// The link for a configured file.
pub open spec fn link_step(
    style: PathStyle,
    entries: Seq<EntryView>,
) -> spec_fn((FileView, Hits)) -> Result<Seq<LinkView>, Fault> {
    |x: (FileView, Hits)|
        match place_of(x.0, x.1) {
            Err(e) => Err(e),
            Ok(i) => match safe_path(style, entries[i].path) {
                None => Err(Failure::UnsafePath(entries[i].path)),
                Some(target) => match safe_path(style, x.0.name) {
                    None => Err(Failure::UnsafePath(x.0.name)),
                    Some(name) => Ok(seq![LinkView { name, target }]),
                },
            },
        }
}

/// All files of the artifact, and a link for each configured file.
pub open spec fn package_picked(
    style: PathStyle,
    files: Seq<FileView>,
    entries: Seq<EntryView>,
    hits: Seq<Hits>,
) -> Result<SelectedPackageView, Fault> {
    match gather(entries, tree_step(style)) {
        Err(e) => Err(e),
        Ok(tree) => match gather(with_hits(files, hits), link_step(style, entries)) {
            Err(e) => Err(e),
            Ok(links) => Ok(SelectedPackageView { files: tree, links }),
        },
    }
}

/// The selected files of a result.
pub open spec fn selected_outcome(r: Result<Vec<SelectedFile>, Error>) -> Result<
    Seq<SelectedView>,
    Fault,
> {
    match r {
        Ok(v) => Ok(views(v@)),
        Err(e) => Err(e@),
    }
}

/// The selected package of a result.
pub open spec fn package_outcome(r: Result<SelectedPackage, Error>) -> Result<
    SelectedPackageView,
    Fault,
> {
    match r {
        Ok(p) => Ok(p@),
        Err(e) => Err(e@),
    }
}

/// What the tries came to.
pub open spec fn all_hits(hits: Seq<Result<Vec<bool>, String>>) -> Seq<Hits> {
    Seq::new(hits.len(), |i: int| hits_view(hits[i]))
}

/// The tries are about `files` files and `entries` entries.
pub open spec fn hits_fit(hits: Seq<Hits>, files: nat, entries: nat) -> bool {
    &&& hits.len() == files
    &&& forall|i: int|
        0 <= i < files ==> (#[trigger] hits[i] matches Ok(found) ==> found.len() == entries)
}

fn copy_bytes(bytes: &Vec<u8>) -> (r: Vec<u8>)
    ensures
        r@ == bytes@,
{
    let r = bytes.clone();
    assert(r@ =~= bytes@);
    r
}

fn copy_text(s: &String) -> (r: String)
    ensures
        r@ == s@,
{
    s.clone()
}

/// The place in the artifact of a configured file.
fn find_place(file: &RenderedFile, hits: &Result<Vec<bool>, String>) -> (r: Result<usize, Error>)
    ensures
        match r {
            Ok(i) => place_of(file@, hits_view(*hits)) == Ok::<int, Fault>(i as int) && (hits_view(
                *hits,
            ) matches Ok(found) && i < found.len()),
            Err(e) => place_of(file@, hits_view(*hits)) == Err::<int, Fault>(e@),
        },
{
    match hits {
        Err(detail) => Err(
            Failure::BadPattern { pattern: copy_text(&file.path), detail: copy_text(detail) },
        ),
        Ok(found) => match find_hit(found) {
            None => Err(Failure::MissingFile(copy_text(&file.path))),
            Some(i) => Ok(i),
        },
    }
}

/// Picks the contents for the configured files, by what trying their paths came to.
pub fn pick_files(
    configured_files: &Vec<RenderedFile>,
    extracted_entries: &Vec<ArchiveEntry>,
    hits: &Vec<Result<Vec<bool>, String>>,
) -> (r: Result<Vec<SelectedFile>, Error>)
    requires
        hits_fit(all_hits(hits@), configured_files@.len(), extracted_entries@.len()),
    ensures
        selected_outcome(r) == picked(
            views(configured_files@),
            views(extracted_entries@),
            all_hits(hits@),
        ),
{
    let ghost files = views(configured_files@);
    let ghost entries = views(extracted_entries@);
    let ghost all = with_hits(files, all_hits(hits@));
    let ghost f = pick_step(entries);
    let mut selected: Vec<SelectedFile> = Vec::new();
    assert(gather(all.take(0), f) == Ok::<Seq<SelectedView>, Fault>(views(selected@))) by {
        assert(views(selected@) =~= Seq::<SelectedView>::empty());
    }
    for i in 0..configured_files.len()
        invariant
            hits_fit(all_hits(hits@), configured_files@.len(), extracted_entries@.len()),
            files == views(configured_files@),
            entries == views(extracted_entries@),
            all == with_hits(files, all_hits(hits@)),
            f == pick_step(entries),
            gather(all.take(i as int), f) == Ok::<Seq<SelectedView>, Fault>(views(selected@)),
    {
        proof {
            lemma_gather_next(all, f, i as int);
            assert(all_hits(hits@)[i as int] == hits_view(hits@[i as int]));
        }
        match find_place(&configured_files[i], &hits[i]) {
            Err(e) => {
                return Err(e);
            },
            Ok(at) => {
                let name = copy_text(&configured_files[i].name);
                let contents = copy_bytes(&extracted_entries[at].contents);
                let ghost before = views(selected@);
                let ghost added = SelectedView { name: name@, contents: contents@ };
                selected.push(SelectedFile { name, contents });
                assert(views(selected@) =~= before + seq![added]);
            },
        }
    }
    assert(all.take(all.len() as int) =~= all);
    Ok(selected)
}

/// Picks all files of the artifact, and links for the configured files, by what trying their paths
/// came to.
pub fn pick_package(
    configured_files: &Vec<RenderedFile>,
    extracted_entries: &Vec<ArchiveEntry>,
    hits: &Vec<Result<Vec<bool>, String>>,
    style: PathStyle,
) -> (r: Result<SelectedPackage, Error>)
    requires
        hits_fit(all_hits(hits@), configured_files@.len(), extracted_entries@.len()),
    ensures
        package_outcome(r) == package_picked(
            style,
            views(configured_files@),
            views(extracted_entries@),
            all_hits(hits@),
        ),
{
    let ghost files = views(configured_files@);
    let ghost entries = views(extracted_entries@);
    let ghost g = tree_step(style);
    let mut tree: Vec<SelectedPackageFile> = Vec::new();
    assert(gather(entries.take(0), g) == Ok::<Seq<EntryView>, Fault>(views(tree@))) by {
        assert(views(tree@) =~= Seq::<EntryView>::empty());
    }
    for i in 0..extracted_entries.len()
        invariant
            entries == views(extracted_entries@),
            g == tree_step(style),
            gather(entries.take(i as int), g) == Ok::<Seq<EntryView>, Fault>(views(tree@)),
    {
        proof {
            lemma_gather_next(entries, g, i as int);
        }
        let entry = &extracted_entries[i];
        match safe_relative_path(entry.archive_path.as_str(), style) {
            Err(e) => {
                return Err(e);
            },
            Ok(relative_path) => {
                let contents = copy_bytes(&entry.contents);
                let mode = entry.mode;
                let ghost before = views(tree@);
                let ghost added = EntryView { path: relative_path@, contents: contents@, mode };
                tree.push(SelectedPackageFile { relative_path, contents, mode });
                assert(views(tree@) =~= before + seq![added]);
            },
        }
    }
    assert(entries.take(entries.len() as int) =~= entries);
    let ghost all = with_hits(files, all_hits(hits@));
    let ghost f = link_step(style, entries);
    let mut links: Vec<SelectedPackageLink> = Vec::new();
    assert(gather(all.take(0), f) == Ok::<Seq<LinkView>, Fault>(views(links@))) by {
        assert(views(links@) =~= Seq::<LinkView>::empty());
    }
    for i in 0..configured_files.len()
        invariant
            hits_fit(all_hits(hits@), configured_files@.len(), extracted_entries@.len()),
            files == views(configured_files@),
            entries == views(extracted_entries@),
            gather(entries, tree_step(style)) == Ok::<Seq<EntryView>, Fault>(views(tree@)),
            all == with_hits(files, all_hits(hits@)),
            f == link_step(style, entries),
            gather(all.take(i as int), f) == Ok::<Seq<LinkView>, Fault>(views(links@)),
    {
        proof {
            lemma_gather_next(all, f, i as int);
            assert(all_hits(hits@)[i as int] == hits_view(hits@[i as int]));
        }
        let at = match find_place(&configured_files[i], &hits[i]) {
            Err(e) => {
                return Err(e);
            },
            Ok(at) => at,
        };
        let target = match safe_relative_path(extracted_entries[at].archive_path.as_str(), style) {
            Err(e) => {
                return Err(e);
            },
            Ok(target) => target,
        };
        let name = match safe_relative_path(configured_files[i].name.as_str(), style) {
            Err(e) => {
                return Err(e);
            },
            Ok(name) => name,
        };
        let ghost before = views(links@);
        let ghost added = LinkView { name: name@, target: target@ };
        links.push(SelectedPackageLink { name, target });
        assert(views(links@) =~= before + seq![added]);
    }
    assert(all.take(all.len() as int) =~= all);
    Ok(SelectedPackage { files: tree, links })
}

/// Tries the paths of the configured files on the paths in the artifact.
fn try_files(configured_files: &Vec<RenderedFile>, extracted_entries: &Vec<ArchiveEntry>) -> (r:
    Vec<Result<Vec<bool>, String>>)
    ensures
        files_tried(views(configured_files@), views(extracted_entries@), all_hits(r@)),
        hits_fit(all_hits(r@), configured_files@.len(), extracted_entries@.len()),
{
    let mut paths: Vec<String> = Vec::new();
    for i in 0..extracted_entries.len()
        invariant
            texts(paths@) == entry_paths(views(extracted_entries@)).take(i as int),
    {
        let ghost before = texts(paths@);
        paths.push(copy_text(&extracted_entries[i].archive_path));
        assert(texts(paths@) =~= before.push(extracted_entries@[i as int].archive_path@));
    }
    assert(texts(paths@) =~= entry_paths(views(extracted_entries@)));
    let mut hits: Vec<Result<Vec<bool>, String>> = Vec::new();
    for i in 0..configured_files.len()
        invariant
            texts(paths@) == entry_paths(views(extracted_entries@)),
            hits@.len() == i,
            forall|j: int|
                0 <= j < i ==> tried(
                    configured_files@[j].path@,
                    texts(paths@),
                    #[trigger] all_hits(hits@)[j],
                ),
    {
        let found = try_pattern(configured_files[i].path.as_str(), &paths);
        let ghost before = all_hits(hits@);
        let ghost seen = hits_view(found);
        hits.push(found);
        assert(all_hits(hits@) =~= before.push(seen));
    }
    proof {
        let files = views(configured_files@);
        assert forall|i: int| 0 <= i < files.len() implies tried(
            (#[trigger] files[i]).path,
            entry_paths(views(extracted_entries@)),
            all_hits(hits@)[i],
        ) by {
            assert(tried(configured_files@[i].path@, texts(paths@), all_hits(hits@)[i]));
        }
        assert forall|i: int| 0 <= i < files.len() implies (#[trigger] all_hits(
            hits@,
        )[i] matches Ok(found) ==> found.len() == extracted_entries@.len()) by {
            assert(tried(configured_files@[i].path@, texts(paths@), all_hits(hits@)[i]));
        }
    }
    hits
}

/// Selects the configured files, each with the contents of the first entry its path matches.
pub fn select_extracted_files(
    configured_files: &Vec<RenderedFile>,
    extracted_entries: &Vec<ArchiveEntry>,
) -> (r: Result<Vec<SelectedFile>, Error>)
    ensures
        exists|hits: Seq<Hits>| #[trigger]
            files_tried(views(configured_files@), views(extracted_entries@), hits)
                && selected_outcome(r) == picked(
                views(configured_files@),
                views(extracted_entries@),
                hits,
            ),
{
    let hits = try_files(configured_files, extracted_entries);
    pick_files(configured_files, extracted_entries, &hits)
}

/// Selects all files of the artifact, and a link for each configured file.
pub fn select_package_install(
    configured_files: &Vec<RenderedFile>,
    extracted_entries: &Vec<ArchiveEntry>,
    style: PathStyle,
) -> (r: Result<SelectedPackage, Error>)
    ensures
        exists|hits: Seq<Hits>| #[trigger]
            files_tried(views(configured_files@), views(extracted_entries@), hits)
                && package_outcome(r) == package_picked(
                style,
                views(configured_files@),
                views(extracted_entries@),
                hits,
            ),
{
    let hits = try_files(configured_files, extracted_entries);
    pick_package(configured_files, extracted_entries, &hits, style)
}

/// The place of a configured file is that of an entry that its path matches, and its path matches
/// no entry before.
pub open spec fn is_first_match(hits: Hits, at: int) -> bool {
    hits matches Ok(found) && 0 <= at < found.len() && found[at] && forall|j: int|
        0 <= j < at ==> !found[j]
}

proof fn lemma_place_of(file: FileView, hits: Hits)
    ensures
        match place_of(file, hits) {
            Ok(at) => is_first_match(hits, at),
            Err(_) => forall|at: int| !is_first_match(hits, at),
        },
{
    if let Ok(found) = hits {
        lemma_first_hit(found);
    }
}

/// A selection has, file for file, the configured name and the contents of the first entry that the
/// configured path matches.
pub proof fn law_each_file_is_picked(
    files: Seq<FileView>,
    entries: Seq<EntryView>,
    hits: Seq<Hits>,
    i: int,
)
    requires
        picked(files, entries, hits) is Ok,
        0 <= i < files.len(),
    ensures
        picked(files, entries, hits)->Ok_0.len() == files.len(),
        picked(files, entries, hits)->Ok_0[i].name == files[i].name,
        exists|at: int| #[trigger]
            is_first_match(hits[i], at) && picked(files, entries, hits)->Ok_0[i].contents
                == entries[at].contents,
{
    let all = with_hits(files, hits);
    let f = pick_step(entries);
    lemma_gather_one_each(all, f);
    let one = picked(files, entries, hits)->Ok_0[i];
    assert(f(all[i]) == Ok::<Seq<SelectedView>, Fault>(seq![one]));
    assert(seq![one][0] == one);
    lemma_place_of(files[i], hits[i]);
    let at = place_of(files[i], hits[i])->Ok_0;
    assert(is_first_match(hits[i], at));
}

/// A configured path without wildcards stands for the first entry at that very path: that entry is
/// its place, and where there is none the file is missing.
pub proof fn law_plain_path_is_exact(file: FileView, entries: Seq<EntryView>, hits: Hits)
    requires
        tried(file.path, entry_paths(entries), hits),
        literal(file.path),
        forall|i: int|
            0 <= i < entries.len() ==> agreed_on(file.path, (#[trigger] entries[i]).path),
    ensures
        match place_of(file, hits) {
            Ok(at) => {
                &&& 0 <= at < entries.len()
                &&& entries[at].path == file.path
                &&& forall|j: int| 0 <= j < at ==> (#[trigger] entries[j]).path != file.path
            },
            Err(e) => {
                &&& e == Failure::MissingFile(file.path)
                &&& forall|j: int|
                    0 <= j < entries.len() ==> (#[trigger] entries[j]).path != file.path
            },
        },
{
    let paths = entry_paths(entries);
    let found = hits->Ok_0;
    lemma_first_hit(found);
    assert forall|j: int| 0 <= j < entries.len() implies found[j] == ((#[trigger] entries[j]).path
        == file.path) by {
        assert(agreed_on(file.path, paths[j]));
    }
}

/// A whole artifact is selected file for file, each at a path found safe; there is a link for each
/// configured file, by a path found safe; and each link leads to the first of the files that the
/// configured path matches.
pub proof fn law_package_is_whole(
    style: PathStyle,
    files: Seq<FileView>,
    entries: Seq<EntryView>,
    hits: Seq<Hits>,
)
    requires
        hits_fit(hits, files.len(), entries.len()),
        package_picked(style, files, entries, hits) is Ok,
    ensures
        ({
            let package = package_picked(style, files, entries, hits)->Ok_0;
            &&& package.files.len() == entries.len()
            &&& forall|i: int|
                0 <= i < entries.len() ==> {
                    &&& safe_path(style, entries[i].path) == Some((#[trigger] package.files[i]).path)
                    &&& package.files[i].contents == entries[i].contents
                    &&& package.files[i].mode == entries[i].mode
                }
            &&& package.links.len() == files.len()
            &&& forall|i: int|
                0 <= i < files.len() ==> {
                    &&& safe_path(style, files[i].name) == Some((#[trigger] package.links[i]).name)
                    &&& exists|k: int| #[trigger]
                        is_first_match(hits[i], k) && 0 <= k < entries.len()
                            && package.files[k].path == package.links[i].target
                }
        }),
{
    let package = package_picked(style, files, entries, hits)->Ok_0;
    let g = tree_step(style);
    lemma_gather_one_each(entries, g);
    assert forall|i: int| 0 <= i < entries.len() implies {
        &&& safe_path(style, entries[i].path) == Some((#[trigger] package.files[i]).path)
        &&& package.files[i].contents == entries[i].contents
        &&& package.files[i].mode == entries[i].mode
    } by {
        assert(g(entries[i]) == Ok::<Seq<EntryView>, Fault>(seq![package.files[i]]));
        assert(seq![package.files[i]][0] == package.files[i]);
    }
    let all = with_hits(files, hits);
    let f = link_step(style, entries);
    lemma_gather_one_each(all, f);
    assert forall|i: int| 0 <= i < files.len() implies {
        &&& safe_path(style, files[i].name) == Some((#[trigger] package.links[i]).name)
        &&& exists|k: int| #[trigger]
            is_first_match(hits[i], k) && 0 <= k < entries.len() && package.files[k].path
                == package.links[i].target
    } by {
        assert(f(all[i]) == Ok::<Seq<LinkView>, Fault>(seq![package.links[i]]));
        assert(seq![package.links[i]][0] == package.links[i]);
        lemma_place_of(files[i], hits[i]);
        let at = place_of(files[i], hits[i])->Ok_0;
        assert(is_first_match(hits[i], at));
        assert(package.files[at].path == package.links[i].target);
    }
}

/// Trying the paths of configured files speaks, file for file, of its own path and of the paths in
/// the artifact, in their order.
pub proof fn law_files_tried(
    files: Seq<FileView>,
    entries: Seq<EntryView>,
    hits: Seq<Hits>,
    i: int,
    k: int,
)
    requires
        files_tried(files, entries, hits),
        0 <= i < files.len(),
        0 <= k < entries.len(),
    ensures
        hits.len() == files.len(),
        agreed(files[i].path) ==> (hits[i] is Ok <==> glob_accepts(files[i].path)),
        hits[i] matches Ok(found) ==> (agreed_on(files[i].path, entries[k].path) ==> found[k]
            == glob_matches(files[i].path, entries[k].path)),
{
    let paths = entry_paths(entries);
    assert(tried(files[i].path, paths, hits[i]));
    assert(paths[k] == entries[k].path);
}

/// Why a configured file has no place: its path is no pattern, for the reason that was given, or it
/// matches nothing.
proof fn lemma_no_place(file: FileView, hits: Hits)
    ensures
        match hits {
            Err(detail) => place_of(file, hits) == Err::<int, Fault>(
                Failure::BadPattern { pattern: file.path, detail },
            ),
            Ok(found) => place_of(file, hits) is Err ==> place_of(file, hits) == Err::<int, Fault>(
                Failure::MissingFile(file.path),
            ) && forall|at: int| 0 <= at < found.len() ==> !found[at],
        },
{
    if let Ok(found) = hits {
        lemma_first_hit(found);
    }
}

/// The configured file cannot be picked, and this is why.
pub open spec fn cannot_be_picked(file: FileView, hits: Hits, e: Fault) -> bool {
    ||| hits matches Err(detail) && e == Failure::BadPattern { pattern: file.path, detail }
    ||| hits matches Ok(found) && e == Failure::MissingFile(file.path) && forall|at: int|
        0 <= at < found.len() ==> !found[at]
}

/// The path of a configured file is a pattern, and matches something.
pub open spec fn can_be_picked(hits: Hits) -> bool {
    hits matches Ok(found) && exists|at: int| 0 <= at < found.len() && found[at]
}

/// A selection fails for the first configured file that cannot be picked, and only then.
pub proof fn law_failed_selection(files: Seq<FileView>, entries: Seq<EntryView>, hits: Seq<Hits>)
    ensures
        match picked(files, entries, hits) {
            Err(e) => exists|i: int|
                0 <= i < files.len() && #[trigger] cannot_be_picked(files[i], hits[i], e)
                    && forall|j: int| 0 <= j < i ==> #[trigger] can_be_picked(hits[j]),
            Ok(_) => forall|j: int| 0 <= j < files.len() ==> #[trigger] can_be_picked(hits[j]),
        },
{
    let all = with_hits(files, hits);
    let f = pick_step(entries);
    lemma_gather_first_failure(all, f);
    assert forall|j: int|
        0 <= j < files.len() && f(all[j]) is Ok implies #[trigger] can_be_picked(hits[j]) by {
        lemma_place_of(files[j], hits[j]);
        let at = place_of(files[j], hits[j])->Ok_0;
        assert(is_first_match(hits[j], at));
    }
    match picked(files, entries, hits) {
        Err(e) => {
            let i = choose|i: int|
                0 <= i < all.len() && f(#[trigger] all[i]) == Err::<Seq<SelectedView>, Fault>(e)
                    && forall|j: int| 0 <= j < i ==> f(#[trigger] all[j]) is Ok;
            lemma_no_place(files[i], hits[i]);
            assert(cannot_be_picked(files[i], hits[i], e));
            assert forall|j: int| 0 <= j < i implies #[trigger] can_be_picked(hits[j]) by {
                assert(f(all[j]) is Ok);
            }
        },
        Ok(_) => {
            assert forall|j: int| 0 <= j < files.len() implies #[trigger] can_be_picked(
                hits[j],
            ) by {
                assert(f(all[j]) is Ok);
            }
        },
    }
}

/// A package fails for the first file of the artifact whose path is not safe; and where all are, for
/// the first configured file that cannot be picked or whose name is not safe.
pub proof fn law_failed_package(
    style: PathStyle,
    files: Seq<FileView>,
    entries: Seq<EntryView>,
    hits: Seq<Hits>,
)
    requires
        hits_fit(hits, files.len(), entries.len()),
    ensures
        package_picked(style, files, entries, hits) matches Err(e) ==> {
            ||| exists|i: int|
                0 <= i < entries.len() && safe_path(style, (#[trigger] entries[i]).path) is None && e
                    == Failure::UnsafePath(entries[i].path) && forall|j: int|
                    0 <= j < i ==> safe_path(style, (#[trigger] entries[j]).path) is Some
            ||| (forall|j: int|
                0 <= j < entries.len() ==> safe_path(style, (#[trigger] entries[j]).path) is Some)
                && exists|i: int|
                0 <= i < files.len() && (cannot_be_picked(#[trigger] files[i], hits[i], e) || (
                safe_path(style, files[i].name) is None && e == Failure::UnsafePath(
                    files[i].name,
                ))) && forall|j: int|
                    0 <= j < i ==> safe_path(style, (#[trigger] files[j]).name) is Some
        },
{
    let g = tree_step(style);
    lemma_gather_first_failure(entries, g);
    if package_picked(style, files, entries, hits) is Err {
        match gather(entries, g) {
            Err(e) => {
                let i = choose|i: int|
                    0 <= i < entries.len() && g(#[trigger] entries[i]) == Err::<
                        Seq<EntryView>,
                        Fault,
                    >(e) && forall|j: int| 0 <= j < i ==> g(#[trigger] entries[j]) is Ok;
                assert forall|j: int| 0 <= j < i implies safe_path(
                    style,
                    (#[trigger] entries[j]).path,
                ) is Some by {
                    assert(g(entries[j]) is Ok);
                }
            },
            Ok(_) => {
                assert forall|j: int| 0 <= j < entries.len() implies safe_path(
                    style,
                    (#[trigger] entries[j]).path,
                ) is Some by {
                    assert(g(entries[j]) is Ok);
                }
                let all = with_hits(files, hits);
                let f = link_step(style, entries);
                lemma_gather_first_failure(all, f);
                let e = gather(all, f)->Err_0;
                let i = choose|i: int|
                    0 <= i < all.len() && f(#[trigger] all[i]) == Err::<Seq<LinkView>, Fault>(e)
                        && forall|j: int| 0 <= j < i ==> f(#[trigger] all[j]) is Ok;
                lemma_no_place(files[i], hits[i]);
                lemma_place_of(files[i], hits[i]);
                if let Ok(at) = place_of(files[i], hits[i]) {
                    assert(is_first_match(hits[i], at));
                    assert(safe_path(style, entries[at].path) is Some);
                } else {
                    assert(cannot_be_picked(files[i], hits[i], e));
                }
                assert forall|j: int| 0 <= j < i implies safe_path(
                    style,
                    (#[trigger] files[j]).name,
                ) is Some by {
                    assert(f(all[j]) is Ok);
                }
            },
        }
    }
}

/// Contracts speak of all that a selection holds.
pub proof fn law_selection_in_contracts(
    file: SelectedFile,
    package: SelectedPackage,
    i: int,
    files: Vec<SelectedFile>,
    e: Error,
)
    ensures
        file@.name == file.name@,
        file@.contents == file.contents@,
        package@.files.len() == package.files@.len(),
        0 <= i < package.files@.len() ==> {
            &&& package@.files[i].path == package.files@[i].relative_path@
            &&& package@.files[i].contents == package.files@[i].contents@
            &&& package@.files[i].mode == package.files@[i].mode
        },
        package@.links.len() == package.links@.len(),
        0 <= i < package.links@.len() ==> {
            &&& package@.links[i].name == package.links@[i].name@
            &&& package@.links[i].target == package.links@[i].target@
        },
        selected_outcome(Ok(files)) == Ok::<Seq<SelectedView>, Fault>(views(files@)),
        selected_outcome(Err(e)) == Err::<Seq<SelectedView>, Fault>(e@),
        package_outcome(Ok(package)) == Ok::<SelectedPackageView, Fault>(package@),
        package_outcome(Err(e)) == Err::<SelectedPackageView, Fault>(e@),
{
}

/// Contracts speak of what tries came to one for one.
pub proof fn law_hits_in_contracts(
    hits: Seq<Result<Vec<bool>, String>>,
    found: Vec<bool>,
    why: String,
    i: int,
)
    ensures
        all_hits(hits).len() == hits.len(),
        0 <= i < hits.len() ==> all_hits(hits)[i] == hits_view(hits[i]),
        hits_view(Ok(found)) == Ok::<Seq<bool>, Seq<char>>(found@),
        hits_view(Err(why)) == Err::<Seq<bool>, Seq<char>>(why@),
{
}

} // verus!

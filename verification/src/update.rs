//! Updating: which packages, by which assets, and what is done for each.

use crate::archive::{
    entries_outcome, format_of, select_extractor, ArchiveEntry, EntryView, Extractor, Format,
    FormatExtractor,
};
use crate::config::{
    package_names, Config, InstallMode, Package, PackageView, RenderedPackage, RenderedView,
};
use crate::failure::{Error, Failure, Fault};
use crate::gather::views;
use crate::install::{
    is_locked_latest, locked_latest, package_dir, package_install_dir, record_successful_install,
    recorded, LockFile,
};
use crate::order::{in_order, lemma_in_order_of, precedes, TextSet};
use crate::paths::{join_path, path_below, PathStyle};
use crate::pattern::{
    agreed, agreed_on, find_hit, first_hit, glob_accepts, glob_matches, hits_view, lemma_first_hit,
    tried, try_pattern, Hits,
};
use crate::render::{candidates, render_package_candidates, style_of, Platform};
use crate::select::{
    all_hits, files_tried, hits_fit, is_first_match, package_picked, picked, select_extracted_files,
    select_package_install, SelectedFile, SelectedPackage, SelectedPackageView, SelectedView,
};
use crate::source::{ArtifactView, AssetView, Release, ReleaseView, ResolvedArtifact};
use crate::text::{join, joined, texts};
use vstd::prelude::*;

verus! {

/// The names that were asked for; none where all packages are meant.
pub fn requested_packages(package_names: &Vec<String>) -> (r: Option<TextSet>)
    ensures
        r is None <==> package_names@.len() == 0,
        r matches Some(names) ==> names@ == texts(package_names@).to_set(),
{
    if package_names.len() == 0 {
        return None;
    }
    let ghost all = texts(package_names@);
    let mut names = TextSet::new();
    assert(names@ =~= all.take(0).to_set());
    for i in 0..package_names.len()
        invariant
            all == texts(package_names@),
            names@ == all.take(i as int).to_set(),
    {
        let _ = names.insert(package_names[i].clone());
        proof {
            let done = all.take(i as int);
            let next = all.take(i + 1);
            assert(next =~= done.push(all[i as int]));
            assert(next.to_set() =~= done.to_set().insert(all[i as int])) by {
                broadcast use vstd::seq_lib::group_seq_properties;

                assert forall|x: Seq<char>|
                    next.to_set().contains(x) <==> done.to_set().insert(all[i as int]).contains(
                        x,
                    ) by {}
            }
        }
    }
    assert(all.take(all.len() as int) =~= all);
    Some(names)
}

/// The package is asked for.
pub open spec fn wanted(requested: Option<Set<Seq<char>>>) -> spec_fn(PackageView) -> bool {
    |package: PackageView|
        match requested {
            Some(names) => names.contains(package.name),
            None => true,
        }
}

/// The names that were asked for and that no package has.
pub open spec fn unknown(requested: Option<Set<Seq<char>>>, packages: Seq<PackageView>) -> Set<
    Seq<char>,
> {
    match requested {
        Some(names) => names.difference(package_names(packages).to_set()),
        None => Set::empty(),
    }
}

/// The packages to update: those that are asked for, if all that is asked for is there.
pub open spec fn selection(
    packages: Seq<PackageView>,
    requested: Option<Set<Seq<char>>>,
) -> Result<Seq<PackageView>, Fault> {
    if unknown(requested, packages) == Set::<Seq<char>>::empty() {
        Ok(packages.filter(wanted(requested)))
    } else {
        Err(Failure::UnknownPackages(joined(in_order(unknown(requested, packages)), ", "@)))
    }
}

/// What was asked for.
pub open spec fn requested_view(requested: Option<&TextSet>) -> Option<Set<Seq<char>>> {
    match requested {
        Some(names) => Some(names@),
        None => None,
    }
}

/// The packages of a result.
pub open spec fn packages_outcome(r: Result<Vec<&Package>, Error>) -> Result<
    Seq<PackageView>,
    Fault,
> {
    match r {
        Ok(packages) => Ok(views(packages@)),
        Err(e) => Err(e@),
    }
}

/// Whether a package has this name.
fn has_package(config: &Config, name: &str) -> (r: bool)
    ensures
        r == package_names(views(config.packages@)).contains(name@),
{
    let ghost names = package_names(views(config.packages@));
    for i in 0..config.packages.len()
        invariant
            names == package_names(views(config.packages@)),
            forall|j: int| 0 <= j < i ==> names[j] != name@,
    {
        assert(names[i as int] == config.packages@[i as int].name@);
        if *config.packages[i].name.as_str() == *name {
            return true;
        }
    }
    false
}

/// The names that were asked for and that no package has, in order.
fn find_unknown(config: &Config, names: &TextSet) -> (r: Vec<String>)
    ensures
        texts(r@) == in_order(unknown(Some(names@), views(config.packages@))),
        r@.len() == 0 <==> unknown(Some(names@), views(config.packages@)) == Set::<
            Seq<char>,
        >::empty(),
{
    let items = names.items();
    let ghost all = texts(items@);
    let ghost there = package_names(views(config.packages@)).to_set();
    let mut missing = TextSet::new();
    assert(missing@ =~= all.take(0).to_set().difference(there));
    for i in 0..items.len()
        invariant
            all == texts(items@),
            there == package_names(views(config.packages@)).to_set(),
            missing@ == all.take(i as int).to_set().difference(there),
    {
        let name = items[i].as_str();
        proof {
            let done = all.take(i as int);
            let next = all.take(i + 1);
            assert(all[i as int] == name@);
            assert(next =~= done.push(name@));
            assert(next.to_set() =~= done.to_set().insert(name@)) by {
                broadcast use vstd::seq_lib::group_seq_properties;

                assert forall|x: Seq<char>|
                    next.to_set().contains(x) <==> done.to_set().insert(name@).contains(x) by {}
            }
            assert(there.contains(name@) ==> done.to_set().insert(name@).difference(there)
                =~= done.to_set().difference(there));
            assert(!there.contains(name@) ==> done.to_set().insert(name@).difference(there)
                =~= done.to_set().difference(there).insert(name@));
        }
        if !has_package(config, name) {
            let _ = missing.insert(name.to_owned());
        }
    }
    assert(all.take(all.len() as int) =~= all);
    let out = missing.into_items();
    proof {
        let found = unknown(Some(names@), views(config.packages@));
        assert(missing@ == found);
        if out@.len() == 0 {
            assert(texts(out@).to_set() =~= Set::<Seq<char>>::empty());
        } else {
            assert(texts(out@).to_set().contains(texts(out@)[0]));
        }
    }
    out
}

/// The packages to update, in the order of the configuration.
pub fn select_packages<'a>(config: &'a Config, requested: Option<&TextSet>) -> (r: Result<
    Vec<&'a Package>,
    Error,
>)
    ensures
        packages_outcome(r) == selection(views(config.packages@), requested_view(requested)),
{
    match requested {
        Some(names) => {
            let missing = find_unknown(config, names);
            if missing.len() > 0 {
                return Err(Failure::UnknownPackages(join(&missing, ", ")));
            }
        },
        None => {},
    }
    let ghost all = views(config.packages@);
    let ghost keep = wanted(requested_view(requested));
    let mut packages: Vec<&'a Package> = Vec::new();
    assert(views(packages@) =~= all.take(0).filter(keep)) by {
        reveal(Seq::filter);
    }
    for i in 0..config.packages.len()
        invariant
            all == views(config.packages@),
            keep == wanted(requested_view(requested)),
            views(packages@) == all.take(i as int).filter(keep),
    {
        proof {
            reveal(Seq::filter);
            assert(all.take(i + 1).drop_last() =~= all.take(i as int));
            assert(all.take(i + 1).last() == config.packages@[i as int]@);
        }
        let package = &config.packages[i];
        let take = match requested {
            Some(names) => names.contains(package.name.as_str()),
            None => true,
        };
        if take {
            let ghost before = views(packages@);
            packages.push(package);
            assert(views(packages@) =~= before.push(package@));
        }
    }
    assert(all.take(all.len() as int) =~= all);
    Ok(packages)
}

/// An asset that was picked for a package.
#[derive(Debug)]
pub struct MatchedAsset {
    /// The form of the package that it was picked for.
    pub rendered: RenderedPackage,
    /// The address to download it from.
    pub download_url: String,
    /// The tag of its release.
    pub tag_name: String,
    /// Its name, as opposed to the pattern that it matches.
    pub asset_name: String,
}

/// A picked asset in a contract.
pub struct MatchedView {
    pub rendered: RenderedView,
    pub download_url: Seq<char>,
    pub tag_name: Seq<char>,
    pub asset_name: Seq<char>,
}

impl View for MatchedAsset {
    type V = MatchedView;

    open spec fn view(&self) -> MatchedView {
        MatchedView {
            rendered: self.rendered@,
            download_url: self.download_url@,
            tag_name: self.tag_name@,
            asset_name: self.asset_name@,
        }
    }
}

/// The names of the assets.
pub open spec fn asset_names(assets: Seq<AssetView>) -> Seq<Seq<char>> {
    Seq::new(assets.len(), |i: int| assets[i].name)
}

/// `hits` is, form for form, what trying its artifact on the names of the assets can come to.
pub open spec fn forms_tried(
    forms: Seq<RenderedView>,
    assets: Seq<AssetView>,
    hits: Seq<Hits>,
) -> bool {
    &&& hits.len() == forms.len()
    &&& forall|i: int|
        0 <= i < forms.len() ==> tried(
            (#[trigger] forms[i]).artifact,
            asset_names(assets),
            hits[i],
        )
}

/// The first asset that matches; none also where the pattern is none.
pub open spec fn asset_hit(hits: Hits) -> Option<int> {
    match hits {
        Ok(found) => first_hit(found),
        Err(_) => None,
    }
}

/// The first form of the package that some asset matches, and the first of these assets.
pub open spec fn first_match(hits: Seq<Hits>) -> Option<(int, int)>
    decreases hits.len(),
{
    if hits.len() == 0 {
        None
    } else {
        match first_match(hits.drop_last()) {
            Some(found) => Some(found),
            None => match asset_hit(hits.last()) {
                Some(asset) => Some((hits.len() - 1, asset)),
                None => None,
            },
        }
    }
}

/// The asset for a package: the first that matches the first form that any matches.
pub open spec fn matched(
    package: Seq<char>,
    forms: Seq<RenderedView>,
    release: ReleaseView,
    hits: Seq<Hits>,
) -> Result<MatchedView, Fault> {
    match first_match(hits) {
        Some((form, asset)) => Ok(
            MatchedView {
                rendered: forms[form],
                download_url: release.assets[asset].download_url,
                tag_name: release.tag_name,
                asset_name: release.assets[asset].name,
            },
        ),
        None => Err(
            Failure::NoAsset { package, available: joined(asset_names(release.assets), ", "@) },
        ),
    }
}

/// The picked asset of a result.
pub open spec fn matched_outcome(r: Result<MatchedAsset, Error>) -> Result<MatchedView, Fault> {
    match r {
        Ok(m) => Ok(m@),
        Err(e) => Err(e@),
    }
}

proof fn lemma_first_match_early(hits: Seq<Hits>, i: int)
    requires
        0 <= i <= hits.len(),
        first_match(hits.take(i)) is Some,
    ensures
        first_match(hits) == first_match(hits.take(i)),
    decreases hits.len() - i,
{
    if i < hits.len() {
        assert(hits.take(i + 1).drop_last() =~= hits.take(i));
        lemma_first_match_early(hits, i + 1);
    } else {
        assert(hits.take(i) =~= hits);
    }
}

/// The names of the assets.
fn names_of_assets(release: &Release) -> (r: Vec<String>)
    ensures
        texts(r@) == asset_names(release@.assets),
{
    let ghost all = asset_names(release@.assets);
    let mut names: Vec<String> = Vec::new();
    assert(texts(names@) =~= all.take(0));
    for i in 0..release.assets.len()
        invariant
            all == asset_names(release@.assets),
            texts(names@) == all.take(i as int),
    {
        let ghost before = texts(names@);
        names.push(release.assets[i].name.clone());
        proof {
            assert(all[i as int] == release.assets@[i as int].name@);
            assert(texts(names@) =~= before.push(all[i as int]));
            assert(all.take(i + 1) =~= all.take(i as int).push(all[i as int]));
        }
    }
    assert(all.take(all.len() as int) =~= all);
    names
}

/// Picks the asset for a package, by what trying the artifacts of its forms came to.
pub fn pick_asset(
    package: &Package,
    forms: Vec<RenderedPackage>,
    release: &Release,
    hits: &Vec<Result<Vec<bool>, String>>,
) -> (r: Result<MatchedAsset, Error>)
    requires
        hits_fit(all_hits(hits@), forms@.len(), release.assets@.len()),
    ensures
        matched_outcome(r) == matched(package@.name, views(forms@), release@, all_hits(hits@)),
{
    let ghost all = all_hits(hits@);
    let ghost given = forms@;
    let total: usize = hits.len();
    let mut i: usize = 0;
    for rendered in it: forms
        invariant
            it.seq() == given,
            given == forms@,
            i == it.index(),
            total == given.len(),
            all == all_hits(hits@),
            hits_fit(all, given.len(), release.assets@.len()),
            first_match(all.take(i as int)) is None,
    {
        proof {
            assert(all.take(i + 1).drop_last() =~= all.take(i as int));
            assert(all.take(i + 1).last() == hits_view(hits@[i as int]));
            assert(all[i as int] == hits_view(hits@[i as int]));
        }
        match &hits[i] {
            Ok(found) => match find_hit(found) {
                Some(at) => {
                    proof {
                        lemma_first_match_early(all, i + 1);
                        assert(views(given)[i as int] == rendered@);
                        assert(release@.assets[at as int] == release.assets@[at as int]@);
                    }
                    let asset = &release.assets[at];
                    return Ok(
                        MatchedAsset {
                            rendered,
                            download_url: asset.download_url.clone(),
                            tag_name: release.tag_name.clone(),
                            asset_name: asset.name.clone(),
                        },
                    );
                },
                None => {},
            },
            Err(_) => {},
        }
        i = i + 1;
    }
    assert(all.take(all.len() as int) =~= all);
    let names = names_of_assets(release);
    Err(Failure::NoAsset { package: package.name.clone(), available: join(&names, ", ") })
}

/// Tries the artifacts of the forms of a package on the names of the assets.
fn try_forms(forms: &Vec<RenderedPackage>, release: &Release) -> (r: Vec<
    Result<Vec<bool>, String>,
>)
    ensures
        forms_tried(views(forms@), release@.assets, all_hits(r@)),
        hits_fit(all_hits(r@), forms@.len(), release.assets@.len()),
{
    let names = names_of_assets(release);
    let mut hits: Vec<Result<Vec<bool>, String>> = Vec::new();
    for i in 0..forms.len()
        invariant
            texts(names@) == asset_names(release@.assets),
            hits@.len() == i,
            forall|j: int|
                0 <= j < i ==> tried(
                    forms@[j].artifact@,
                    texts(names@),
                    #[trigger] all_hits(hits@)[j],
                ),
    {
        let found = try_pattern(forms[i].artifact.as_str(), &names);
        let ghost before = all_hits(hits@);
        let ghost seen = hits_view(found);
        hits.push(found);
        assert(all_hits(hits@) =~= before.push(seen));
    }
    proof {
        assert forall|i: int| 0 <= i < forms@.len() implies tried(
            (#[trigger] views(forms@)[i]).artifact,
            asset_names(release@.assets),
            all_hits(hits@)[i],
        ) by {
            assert(tried(forms@[i].artifact@, texts(names@), all_hits(hits@)[i]));
        }
        assert forall|i: int| 0 <= i < forms@.len() implies (#[trigger] all_hits(
            hits@,
        )[i] matches Ok(found) ==> found.len() == release.assets@.len()) by {
            assert(tried(forms@[i].artifact@, texts(names@), all_hits(hits@)[i]));
        }
    }
    hits
}

/// Picking the asset for a package from a release can come to `r`.
pub open spec fn matching(
    package: PackageView,
    forms: Result<Seq<RenderedView>, Fault>,
    release: ReleaseView,
    r: Result<MatchedView, Fault>,
) -> bool {
    match forms {
        Err(e) => r == Err::<MatchedView, Fault>(e),
        Ok(forms) => exists|hits: Seq<Hits>| #[trigger]
            forms_tried(forms, release.assets, hits) && r == matched(
                package.name,
                forms,
                release,
                hits,
            ),
    }
}

/// Picks the asset for a package from a release.
pub fn match_asset(package: &Package, config: &Config, release: &Release, platform: &Platform) -> (r:
    Result<MatchedAsset, Error>)
    ensures
        matching(
            package@,
            candidates(package@, config.definitions.by_os@, platform.os@, platform.arch@),
            release@,
            matched_outcome(r),
        ),
{
    match render_package_candidates(package, config, platform) {
        Err(e) => Err(e),
        Ok(forms) => {
            let hits = try_forms(&forms, release);
            pick_asset(package, forms, release, &hits)
        },
    }
}

/// The artifact to download for a picked asset.
pub fn resolve_artifact(matched: &MatchedAsset) -> (r: ResolvedArtifact)
    ensures
        r@ == (ArtifactView {
            download_url: matched@.download_url,
            artifact_name: matched@.rendered.artifact,
            tag_name: matched@.tag_name,
        }),
{
    ResolvedArtifact {
        download_url: matched.download_url.clone(),
        artifact_name: matched.rendered.artifact.clone(),
        tag_name: matched.tag_name.clone(),
    }
}

/// What to install of an artifact.
#[derive(Debug)]
pub enum Unpacked {
    /// These files, as programs.
    Files(Vec<SelectedFile>),
    /// The whole artifact.
    Package(SelectedPackage),
}

/// What to install of an artifact, in a contract.
pub enum UnpackedView {
    Files(Seq<SelectedView>),
    Package(SelectedPackageView),
}

impl View for Unpacked {
    type V = UnpackedView;

    open spec fn view(&self) -> UnpackedView {
        match *self {
            Unpacked::Files(files) => UnpackedView::Files(views(files@)),
            Unpacked::Package(package) => UnpackedView::Package(package@),
        }
    }
}

/// What to install of a result.
pub open spec fn unpacked_outcome(r: Result<Unpacked, Error>) -> Result<UnpackedView, Fault> {
    match r {
        Ok(u) => Ok(u@),
        Err(e) => Err(e@),
    }
}

/// What to install of the files of an artifact, by what trying the configured paths came to.
pub open spec fn chosen(
    style: PathStyle,
    rendered: RenderedView,
    entries: Seq<EntryView>,
    hits: Seq<Hits>,
) -> Result<UnpackedView, Fault> {
    match rendered.install {
        InstallMode::Bin => match picked(rendered.files, entries, hits) {
            Ok(files) => Ok(UnpackedView::Files(files)),
            Err(e) => Err(e),
        },
        InstallMode::Package => match package_picked(style, rendered.files, entries, hits) {
            Ok(package) => Ok(UnpackedView::Package(package)),
            Err(e) => Err(e),
        },
    }
}

/// Choosing what to install of the files of an artifact can come to `r`.
pub open spec fn choosing(
    style: PathStyle,
    rendered: RenderedView,
    entries: Seq<EntryView>,
    r: Result<UnpackedView, Fault>,
) -> bool {
    exists|hits: Seq<Hits>| #[trigger]
        files_tried(rendered.files, entries, hits) && r == chosen(style, rendered, entries, hits)
}

/// Reading the files of a downloaded artifact can come to `r`.
pub open spec fn extracting(
    matched: MatchedView,
    bytes: Seq<u8>,
    r: Result<Seq<EntryView>, Fault>,
) -> bool {
    match format_of(matched.asset_name) {
        None => r == Err::<Seq<EntryView>, Fault>(Failure::UnsupportedFormat(matched.asset_name)),
        Some(format) => (FormatExtractor { format }).extracts(matched.asset_name, bytes, r),
    }
}

/// Chooses what to install of the files of an artifact.
pub fn choose_files(
    rendered: &RenderedPackage,
    entries: &Vec<ArchiveEntry>,
    style: PathStyle,
) -> (r: Result<Unpacked, Error>)
    ensures
        choosing(
            style,
            rendered@,
            views(entries@),
            unpacked_outcome(r),
        ),
{
    match rendered.install {
        InstallMode::Bin => match select_extracted_files(&rendered.files, entries) {
            Ok(files) => Ok(Unpacked::Files(files)),
            Err(e) => Err(e),
        },
        InstallMode::Package => match select_package_install(&rendered.files, entries, style) {
            Ok(package) => Ok(Unpacked::Package(package)),
            Err(e) => Err(e),
        },
    }
}

/// Reads the files of a downloaded artifact.
pub fn extract_entries(matched: &MatchedAsset, bytes: &[u8]) -> (r: Result<
    Vec<ArchiveEntry>,
    Error,
>)
    ensures
        extracting(matched@, bytes@, entries_outcome(r)),
{
    match select_extractor(matched.asset_name.as_str()) {
        Ok(extractor) => extractor.entries(matched.asset_name.as_str(), bytes),
        Err(e) => Err(e),
    }
}

/// The line of a plan that says where something goes.
pub open spec fn goes_to(from: Seq<char>, to: Seq<char>) -> Seq<char> {
    "  "@ + from + " -> "@ + to
}

/// The lines that tell what is installed where.
pub open spec fn plan_lines(
    style: PathStyle,
    package: Seq<char>,
    rendered: RenderedView,
    install_dir: Seq<char>,
) -> Seq<Seq<char>> {
    let dir = package_dir(style, install_dir, package);
    match rendered.install {
        InstallMode::Bin => Seq::new(
            rendered.files.len(),
            |i: int|
                goes_to(
                    rendered.files[i].path,
                    path_below(style, install_dir, rendered.files[i].name),
                ),
        ),
        InstallMode::Package => seq![goes_to("package"@, dir)] + Seq::new(
            rendered.files.len(),
            |i: int|
                goes_to(
                    path_below(style, install_dir, rendered.files[i].name),
                    path_below(style, dir, rendered.files[i].path),
                ),
        ),
    }
}

/// The line of a plan that says where something goes.
fn goes_to_line(from: &str, to: &str) -> (r: String)
    ensures
        r@ == goes_to(from@, to@),
{
    let mut line = "  ".to_owned();
    line.append(from);
    line.append(" -> ");
    line.append(to);
    line
}

/// The lines that tell what is installed where.
pub fn install_plan(
    package: &Package,
    matched: &MatchedAsset,
    install_dir: &str,
    style: PathStyle,
) -> (r: Vec<String>)
    ensures
        texts(r@) == plan_lines(style, package@.name, matched@.rendered, install_dir@),
{
    let files = &matched.rendered.files;
    let ghost all = plan_lines(style, package@.name, matched@.rendered, install_dir@);
    let mut lines: Vec<String> = Vec::new();
    match matched.rendered.install {
        InstallMode::Bin => {
            assert(texts(lines@) =~= all.take(0));
            for i in 0..files.len()
                invariant
                    matched@.rendered.install == InstallMode::Bin,
                    files@ == matched.rendered.files@,
                    all == plan_lines(style, package@.name, matched@.rendered, install_dir@),
                    texts(lines@) == all.take(i as int),
            {
                let to = join_path(install_dir, files[i].name.as_str(), style);
                let line = goes_to_line(files[i].path.as_str(), to.as_str());
                let ghost before = texts(lines@);
                let ghost added = line@;
                lines.push(line);
                proof {
                    assert(matched@.rendered.files[i as int] == files@[i as int]@);
                    assert(texts(lines@) =~= before.push(added));
                    assert(all.take(i + 1) =~= all.take(i as int).push(all[i as int]));
                }
            }
        },
        InstallMode::Package => {
            let dir = package_install_dir(install_dir, package.name.as_str(), style);
            lines.push(goes_to_line("package", dir.as_str()));
            assert(texts(lines@) =~= all.take(1));
            for i in 0..files.len()
                invariant
                    matched@.rendered.install == InstallMode::Package,
                    files@ == matched.rendered.files@,
                    dir@ == package_dir(style, install_dir@, package@.name),
                    all == plan_lines(style, package@.name, matched@.rendered, install_dir@),
                    texts(lines@) == all.take(i + 1),
            {
                let from = join_path(install_dir, files[i].name.as_str(), style);
                let to = join_path(dir.as_str(), files[i].path.as_str(), style);
                let line = goes_to_line(from.as_str(), to.as_str());
                let ghost before = texts(lines@);
                let ghost added = line@;
                lines.push(line);
                proof {
                    assert(matched@.rendered.files[i as int] == files@[i as int]@);
                    assert(texts(lines@) =~= before.push(added));
                    assert(all[i + 1] == added);
                    assert(all.take(i + 2) =~= all.take(i + 1).push(all[i + 1]));
                }
            }
        },
    }
    assert(all.take(all.len() as int) =~= all);
    lines
}

/// The line that says that the latest release of a package is installed.
pub open spec fn latest_line(package: Seq<char>, tag: Seq<char>) -> Seq<char> {
    package + " "@ + tag + " is already latest"@
}

/// The line that says by which artifact a package is updated, or would be.
pub open spec fn update_line(
    package: Seq<char>,
    tag: Seq<char>,
    artifact: Seq<char>,
    dry: bool,
) -> Seq<char> {
    package + " "@ + tag + (if dry {
        " would update -> "@
    } else {
        " -> "@
    }) + artifact
}

/// What is to be done for a package, its latest release being known.
#[derive(Debug)]
pub enum ReleaseStep {
    /// Nothing: the release is installed, as this line says.
    Skip(String),
    /// Download the asset; these lines say what for.
    Download { matched: MatchedAsset, lines: Vec<String> },
}

/// A run of the updater.
#[derive(Debug)]
pub struct Update {
    /// Whether nothing is to be installed.
    pub dry: bool,
    /// Whether what is recorded as installed is to be installed again.
    pub force: bool,
    /// What is installed.
    pub lock: LockFile,
    /// How many packages are done.
    pub done: usize,
}

/// A run of the updater in a contract.
pub struct RunView {
    pub dry: bool,
    pub force: bool,
    pub lock: Map<Seq<char>, Seq<char>>,
    pub done: nat,
}

impl View for Update {
    type V = RunView;

    open spec fn view(&self) -> RunView {
        RunView {
            dry: self.dry,
            force: self.force,
            lock: self.lock.packages@,
            done: self.done as nat,
        }
    }
}

/// What came of a package.
pub enum PackageOutcome {
    /// The release with this tag was recorded as installed, and nothing was done.
    Skipped(Seq<char>),
    /// Its artifact was downloaded and unpacked, and nothing was installed.
    Checked,
    /// The release with this tag was installed.
    Installed(Seq<char>),
}

/// A run after one package more.
pub open spec fn run_step(s: RunView, package: Seq<char>, outcome: PackageOutcome) -> RunView {
    RunView {
        lock: match outcome {
            PackageOutcome::Installed(tag) => s.lock.insert(package, tag),
            _ => s.lock,
        },
        done: s.done + 1,
        ..s
    }
}

/// This can come of a package in a run.
pub open spec fn can_come(s: RunView, package: Seq<char>, outcome: PackageOutcome) -> bool {
    match outcome {
        PackageOutcome::Skipped(tag) => locked_latest(s.lock, package, tag, s.force),
        PackageOutcome::Checked => s.dry,
        PackageOutcome::Installed(_) => !s.dry,
    }
}

impl Update {
    /// A run at its beginning.
    pub fn new(dry: bool, force: bool, lock: LockFile) -> (r: Update)
        ensures
            r@ == (RunView { dry, force, lock: lock.packages@, done: 0 }),
    {
        Update { dry, force, lock, done: 0 }
    }

    /// Decides what to do for the next package, by its latest release: nothing more, where it is
    /// recorded as installed and that is to be heeded.
    pub fn take_release(
        &mut self,
        package: &Package,
        config: &Config,
        platform: &Platform,
        install_dir: &str,
        release: &Release,
    ) -> (r: Result<ReleaseStep, Error>)
        requires
            old(self).done < usize::MAX,
        ensures
            ({
                let skipped = PackageOutcome::Skipped(release@.tag_name);
                let skip = can_come(old(self)@, package@.name, skipped);
                let forms = candidates(
                    package@,
                    config.definitions.by_os@,
                    platform.os@,
                    platform.arch@,
                );
                match r {
                    Ok(ReleaseStep::Skip(line)) => {
                        &&& skip
                        &&& line@ == latest_line(package@.name, release@.tag_name)
                        &&& final(self)@ == run_step(old(self)@, package@.name, skipped)
                    },
                    Ok(ReleaseStep::Download { matched, lines }) => {
                        &&& !skip
                        &&& matching(
                            package@,
                            forms,
                            release@,
                            Ok::<MatchedView, Fault>(matched@),
                        )
                        &&& texts(lines@) == seq![
                            update_line(
                                package@.name,
                                matched@.tag_name,
                                matched@.rendered.artifact,
                                old(self).dry,
                            ),
                        ] + plan_lines(
                            style_of(platform.os@),
                            package@.name,
                            matched@.rendered,
                            install_dir@,
                        )
                        &&& final(self)@ == old(self)@
                    },
                    Err(e) => {
                        &&& !skip
                        &&& matching(package@, forms, release@, Err::<MatchedView, Fault>(e@))
                        &&& final(self)@ == old(self)@
                    },
                }
            }),
    {
        let name = package.name.as_str();
        if is_locked_latest(&self.lock, name, release.tag_name.as_str(), self.force) {
            let mut line = package.name.clone();
            line.append(" ");
            line.append(release.tag_name.as_str());
            line.append(" is already latest");
            self.done = self.done + 1;
            return Ok(ReleaseStep::Skip(line));
        }
        let matched = match match_asset(package, config, release, platform) {
            Ok(matched) => matched,
            Err(e) => {
                return Err(e);
            },
        };
        let mut line = package.name.clone();
        line.append(" ");
        line.append(matched.tag_name.as_str());
        if self.dry {
            line.append(" would update -> ");
        } else {
            line.append(" -> ");
        }
        line.append(matched.rendered.artifact.as_str());
        let ghost first = line@;
        let mut lines: Vec<String> = Vec::new();
        lines.push(line);
        let mut plan = install_plan(package, &matched, install_dir, platform.path_style());
        let ghost rest = texts(plan@);
        lines.append(&mut plan);
        assert(texts(lines@) =~= seq![first] + rest);
        Ok(ReleaseStep::Download { matched, lines })
    }

    /// Chooses what to install of the files of the artifact for the next package, and hands it out;
    /// in a dry run nothing: the package is done then.
    pub fn take_entries(
        &mut self,
        package: &Package,
        matched: &MatchedAsset,
        entries: &Vec<ArchiveEntry>,
        platform: &Platform,
    ) -> (r: Result<Option<Unpacked>, Error>)
        requires
            old(self).done < usize::MAX,
        ensures
            ({
                let style = style_of(platform.os@);
                let files = views(entries@);
                match r {
                    Ok(Some(unpacked)) => {
                        &&& !old(self).dry
                        &&& choosing(
                            style,
                            matched@.rendered,
                            files,
                            Ok::<UnpackedView, Fault>(unpacked@),
                        )
                        &&& final(self)@ == old(self)@
                    },
                    Ok(None) => {
                        &&& can_come(old(self)@, package@.name, PackageOutcome::Checked)
                        &&& exists|unpacked: UnpackedView| #[trigger]
                            choosing(
                                style,
                                matched@.rendered,
                                files,
                                Ok::<UnpackedView, Fault>(unpacked),
                            )
                        &&& final(self)@ == run_step(
                            old(self)@,
                            package@.name,
                            PackageOutcome::Checked,
                        )
                    },
                    Err(e) => {
                        &&& choosing(
                            style,
                            matched@.rendered,
                            files,
                            Err::<UnpackedView, Fault>(e@),
                        )
                        &&& final(self)@ == old(self)@
                    },
                }
            }),
    {
        match choose_files(&matched.rendered, entries, platform.path_style()) {
            Err(e) => Err(e),
            Ok(unpacked) => {
                if self.dry {
                    assert(choosing(
                        style_of(platform.os@),
                        matched@.rendered,
                        views(entries@),
                        Ok::<UnpackedView, Fault>(unpacked@),
                    ));
                    self.done = self.done + 1;
                    Ok(None)
                } else {
                    Ok(Some(unpacked))
                }
            },
        }
    }

    /// Records that the next package was installed, and tells whether the record has to be saved.
    /// In a dry run nothing is installed, and so nothing is recorded.
    pub fn take_installed(&mut self, package: &Package, matched: &MatchedAsset) -> (r: bool)
        requires
            !old(self).dry,
            old(self).done < usize::MAX,
        ensures
            final(self)@ == run_step(
                old(self)@,
                package@.name,
                PackageOutcome::Installed(matched@.tag_name),
            ),
            r == !recorded(old(self)@.lock, package@.name, matched@.tag_name),
    {
        self.done = self.done + 1;
        record_successful_install(
            &mut self.lock,
            package.name.as_str(),
            matched.tag_name.as_str(),
        )
    }
}

proof fn lemma_push_contains(s: Seq<PackageView>, last: PackageView, p: PackageView)
    ensures
        s.push(last).contains(p) <==> s.contains(p) || p == last,
{
    let all = s.push(last);
    if s.contains(p) {
        let k = choose|k: int| 0 <= k < s.len() && s[k] == p;
        assert(all[k] == p);
    }
    if all.contains(p) && p != last {
        let k = choose|k: int| 0 <= k < all.len() && all[k] == p;
        assert(s[k] == p);
    }
    assert(all[s.len() as int] == last);
}

proof fn lemma_filter_members(s: Seq<PackageView>, keep: spec_fn(PackageView) -> bool)
    ensures
        forall|p: PackageView| #[trigger]
            s.filter(keep).contains(p) <==> s.contains(p) && keep(p),
        (forall|i: int| 0 <= i < s.len() ==> keep(#[trigger] s[i])) ==> s.filter(keep) == s,
    decreases s.len(),
{
    reveal(Seq::filter);
    if s.len() > 0 {
        let head = s.drop_last();
        let last = s.last();
        lemma_filter_members(head, keep);
        assert(s =~= head.push(last));
        assert forall|p: PackageView| #[trigger]
            s.filter(keep).contains(p) <==> s.contains(p) && keep(p) by {
            lemma_push_contains(head, last, p);
            lemma_push_contains(head.filter(keep), last, p);
        }
        if forall|i: int| 0 <= i < s.len() ==> keep(#[trigger] s[i]) {
            assert forall|i: int| 0 <= i < head.len() implies keep(#[trigger] head[i]) by {
                assert(head[i] == s[i]);
            }
            assert(keep(s[s.len() - 1]));
        }
    }
}

/// Where no names are given, all packages are selected, in their order. Where names are given, all of
/// them have to be names of packages, and exactly the packages with these names are selected.
pub proof fn law_selection(packages: Seq<PackageView>, names: Set<Seq<char>>)
    ensures
        selection(packages, None) == Ok::<Seq<PackageView>, Fault>(packages),
        selection(packages, Some(names)) is Ok <==> forall|name: Seq<char>|
            names.contains(name) ==> #[trigger] package_names(packages).contains(name),
        selection(packages, Some(names)) matches Ok(selected) ==> forall|p: PackageView| #[trigger]
            selected.contains(p) <==> packages.contains(p) && names.contains(p.name),
{
    lemma_filter_members(packages, wanted(None));
    lemma_filter_members(packages, wanted(Some(names)));
    let missing = unknown(Some(names), packages);
    if forall|name: Seq<char>|
        names.contains(name) ==> #[trigger] package_names(packages).contains(name) {
        assert(missing =~= Set::<Seq<char>>::empty());
    }
    if missing == Set::<Seq<char>>::empty() {
        assert forall|name: Seq<char>| names.contains(name) implies #[trigger] package_names(
            packages,
        ).contains(name) by {
            assert(!missing.contains(name));
        }
    }
}

/// The asset for a package is of the first form that any asset matches, and the first of the assets
/// that match it: where a form is picked, no asset matches a form before; where none is, no asset
/// matches any form.
pub proof fn law_preferred_form_wins(hits: Seq<Hits>)
    ensures
        match first_match(hits) {
            Some((form, asset)) => {
                &&& 0 <= form < hits.len()
                &&& is_first_match(hits[form], asset)
                &&& forall|i: int, at: int| 0 <= i < form ==> !#[trigger] is_first_match(hits[i], at)
            },
            None => forall|i: int, at: int|
                0 <= i < hits.len() ==> !#[trigger] is_first_match(hits[i], at),
        },
    decreases hits.len(),
{
    if hits.len() > 0 {
        let head = hits.drop_last();
        law_preferred_form_wins(head);
        assert(forall|i: int| 0 <= i < head.len() ==> head[i] == #[trigger] hits[i]);
        if let Ok(found) = hits.last() {
            lemma_first_hit(found);
        }
        match first_match(head) {
            Some((form, asset)) => {
                assert(head[form] == hits[form]);
                assert forall|i: int, at: int| 0 <= i < form implies !#[trigger] is_first_match(
                    hits[i],
                    at,
                ) by {
                    assert(!is_first_match(head[i], at));
                }
            },
            None => {
                assert forall|i: int, at: int|
                    0 <= i < head.len() implies !#[trigger] is_first_match(hits[i], at) by {
                    assert(!is_first_match(head[i], at));
                }
                assert(hits[hits.len() - 1] == hits.last());
            },
        }
    }
}

/// What is recorded after these packages, each with its tag, were installed one after the other.
pub open spec fn lock_after(
    lock: Map<Seq<char>, Seq<char>>,
    installed: Seq<(Seq<char>, Seq<char>)>,
) -> Map<Seq<char>, Seq<char>>
    decreases installed.len(),
{
    if installed.len() == 0 {
        lock
    } else {
        lock_after(lock, installed.drop_last()).insert(installed.last().0, installed.last().1)
    }
}

/// A run after these packages, of each of which this came.
pub open spec fn ran(s: RunView, steps: Seq<(Seq<char>, PackageOutcome)>) -> RunView
    decreases steps.len(),
{
    if steps.len() == 0 {
        s
    } else {
        run_step(ran(s, steps.drop_last()), steps.last().0, steps.last().1)
    }
}

/// This can come of these packages, one after the other.
pub open spec fn run_can_come(s: RunView, steps: Seq<(Seq<char>, PackageOutcome)>) -> bool
    decreases steps.len(),
{
    steps.len() > 0 ==> run_can_come(s, steps.drop_last()) && can_come(
        ran(s, steps.drop_last()),
        steps.last().0,
        steps.last().1,
    )
}

/// The packages that were installed, each with its tag.
pub open spec fn installed_in(steps: Seq<(Seq<char>, PackageOutcome)>) -> Seq<
    (Seq<char>, Seq<char>),
>
    decreases steps.len(),
{
    if steps.len() == 0 {
        Seq::empty()
    } else {
        match steps.last().1 {
            PackageOutcome::Installed(tag) => installed_in(steps.drop_last()).push(
                (steps.last().0, tag),
            ),
            _ => installed_in(steps.drop_last()),
        }
    }
}

/// Over a run, the record gains exactly what was installed, in that order, and each package counts
/// as done. A dry run installs nothing and leaves the record as it is.
pub proof fn law_run_records_what_it_installs(
    s: RunView,
    steps: Seq<(Seq<char>, PackageOutcome)>,
)
    requires
        run_can_come(s, steps),
    ensures
        ran(s, steps).lock == lock_after(s.lock, installed_in(steps)),
        ran(s, steps).done == s.done + steps.len(),
        ran(s, steps).dry == s.dry,
        ran(s, steps).force == s.force,
        s.dry ==> installed_in(steps).len() == 0 && ran(s, steps).lock == s.lock,
    decreases steps.len(),
{
    if steps.len() > 0 {
        let head = steps.drop_last();
        law_run_records_what_it_installs(s, head);
        if let PackageOutcome::Installed(tag) = steps.last().1 {
            let before = installed_in(head);
            assert(before.push((steps.last().0, tag)).drop_last() =~= before);
        }
    }
}

/// What was installed is not installed again: however far a run came, a next run skips the packages
/// that it installed or skipped, as long as their releases are the same, unless it is told to
/// install all the same.
pub proof fn law_next_run_skips_installed(
    s: RunView,
    steps: Seq<(Seq<char>, PackageOutcome)>,
    i: int,
    tag: Seq<char>,
)
    requires
        run_can_come(s, steps),
        forall|j: int, k: int|
            0 <= j < k < steps.len() ==> (#[trigger] steps[j]).0 != (#[trigger] steps[k]).0,
        0 <= i < steps.len(),
        steps[i].1 == PackageOutcome::Installed(tag) || steps[i].1 == PackageOutcome::Skipped(tag),
    ensures
        locked_latest(ran(s, steps).lock, steps[i].0, tag, false),
        !locked_latest(ran(s, steps).lock, steps[i].0, tag, true),
    decreases steps.len(),
{
    let head = steps.drop_last();
    let n = steps.len() - 1;
    if i < n {
        assert forall|j: int, k: int| 0 <= j < k < head.len() implies (#[trigger] head[j]).0 != (
        #[trigger] head[k]).0 by {
            assert(steps[j].0 != steps[k].0);
        }
        assert(head[i] == steps[i]);
        law_next_run_skips_installed(s, head, i, tag);
        assert(steps[i].0 != steps[n].0);
    }
}

/// The asset for a package is one and the same asset of the release by its name and by its address:
/// the first that matches the picked form, before which no form is matched by any. Where no form is
/// matched, the failure names the package and lists the names of all assets.
pub proof fn law_picked_asset(
    package: Seq<char>,
    forms: Seq<RenderedView>,
    release: ReleaseView,
    hits: Seq<Hits>,
)
    requires
        hits_fit(hits, forms.len(), release.assets.len()),
    ensures
        match matched(package, forms, release, hits) {
            Ok(m) => exists|form: int, k: int|
                {
                    &&& 0 <= form < forms.len()
                    &&& 0 <= k < release.assets.len()
                    &&& #[trigger] is_first_match(hits[form], k)
                    &&& forall|i: int, at: int|
                        0 <= i < form ==> !#[trigger] is_first_match(hits[i], at)
                    &&& m.rendered == forms[form]
                    &&& m.asset_name == release.assets[k].name
                    &&& m.download_url == release.assets[k].download_url
                    &&& m.tag_name == release.tag_name
                },
            Err(e) => {
                &&& forall|i: int, at: int|
                    0 <= i < forms.len() ==> !#[trigger] is_first_match(hits[i], at)
                &&& exists|names: Seq<Seq<char>>|
                    {
                        &&& names.len() == release.assets.len()
                        &&& forall|i: int|
                            0 <= i < names.len() ==> #[trigger] names[i] == release.assets[i].name
                        &&& e == Failure::NoAsset {
                            package,
                            available: #[trigger] joined(names, ", "@),
                        }
                    }
            },
        },
{
    law_preferred_form_wins(hits);
    match first_match(hits) {
        Some((form, k)) => {
            assert(hits[form] matches Ok(found) ==> found.len() == release.assets.len());
            assert(is_first_match(hits[form], k));
        },
        None => {
            let names = asset_names(release.assets);
            assert(names.len() == release.assets.len());
        },
    }
}

/// What trying the forms can come to speaks, form for form, of its artifact and of the names of the
/// assets, in their order.
pub proof fn law_forms_tried(
    forms: Seq<RenderedView>,
    assets: Seq<AssetView>,
    hits: Seq<Hits>,
    form: int,
    k: int,
)
    requires
        forms_tried(forms, assets, hits),
        0 <= form < forms.len(),
        0 <= k < assets.len(),
    ensures
        hits.len() == forms.len(),
        agreed(forms[form].artifact) ==> (hits[form] is Ok <==> glob_accepts(forms[form].artifact)),
        hits[form] matches Ok(found) ==> (agreed_on(forms[form].artifact, assets[k].name)
            ==> found[k] == glob_matches(forms[form].artifact, assets[k].name)),
{
    let names = asset_names(assets);
    assert(tried(forms[form].artifact, names, hits[form]));
    assert(names[k] == assets[k].name);
}

/// The packages that are selected by names stand in their order, each that has one of the names and
/// no other. The failure lists the names that no package has, in order and each once.
pub proof fn law_selection_by_names(packages: Seq<PackageView>, names: Set<Seq<char>>)
    requires
        names.finite(),
    ensures
        match selection(packages, Some(names)) {
            Ok(selected) => selected == packages.filter(
                |p: PackageView| names.contains(p.name),
            ),
            Err(e) => exists|missing: Seq<Seq<char>>|
                {
                    &&& missing.len() > 0
                    &&& forall|i: int, j: int|
                        0 <= i < j < missing.len() ==> precedes(
                            #[trigger] missing[i],
                            #[trigger] missing[j],
                        )
                    &&& forall|name: Seq<char>| #[trigger]
                        missing.contains(name) <==> names.contains(name) && forall|i: int|
                            0 <= i < packages.len() ==> (#[trigger] packages[i]).name != name
                    &&& e == Failure::UnknownPackages(#[trigger] joined(missing, ", "@))
                },
        },
{
    assert(wanted(Some(names)) =~= (|p: PackageView| names.contains(p.name)));
    let left = unknown(Some(names), packages);
    if selection(packages, Some(names)) is Err {
        lemma_in_order_of(left);
        let missing = in_order(left);
        let there = package_names(packages);
        assert(missing.len() > 0) by {
            if missing.len() == 0 {
                assert(missing.to_set() =~= Set::<Seq<char>>::empty());
            }
        }
        assert forall|name: Seq<char>| #[trigger]
            missing.contains(name) <==> names.contains(name) && forall|i: int|
                0 <= i < packages.len() ==> (#[trigger] packages[i]).name != name by {
            assert(missing.contains(name) <==> missing.to_set().contains(name));
            if there.contains(name) {
                let k = choose|k: int| 0 <= k < there.len() && there[k] == name;
                assert(packages[k].name == name);
            } else {
                assert forall|i: int| 0 <= i < packages.len() implies (
                #[trigger] packages[i]).name != name by {
                    assert(there[i] == packages[i].name);
                }
            }
        }
    }
}

/// The lines of a plan: for programs one for each file, from its path to its name in the directory
/// of programs; for a package its directory, and then for each file one from its name in the
/// directory of programs to its path in the directory of the package.
pub proof fn law_plan_lines(
    style: PathStyle,
    package: Seq<char>,
    rendered: RenderedView,
    install_dir: Seq<char>,
    i: int,
)
    requires
        0 <= i < rendered.files.len(),
    ensures
        ({
            let lines = plan_lines(style, package, rendered, install_dir);
            let file = rendered.files[i];
            let dir = path_below(style, path_below(style, install_dir, "packages"@), package);
            match rendered.install {
                InstallMode::Bin => {
                    &&& lines.len() == rendered.files.len()
                    &&& lines[i] == "  "@ + file.path + " -> "@ + path_below(
                        style,
                        install_dir,
                        file.name,
                    )
                },
                InstallMode::Package => {
                    &&& lines.len() == rendered.files.len() + 1
                    &&& lines[0] == "  "@ + "package"@ + " -> "@ + dir
                    &&& lines[i + 1] == "  "@ + path_below(style, install_dir, file.name)
                        + " -> "@ + path_below(style, dir, file.path)
                },
            }
        }),
{
}

/// The lines that are shown for a package name it and the tag of its release; that of an update
/// names the artifact, and says in a dry run that the package would be updated.
pub proof fn law_package_lines(package: Seq<char>, tag: Seq<char>, artifact: Seq<char>)
    ensures
        latest_line(package, tag) == package + " "@ + tag + " is already latest"@,
        update_line(package, tag, artifact, false) == package + " "@ + tag + " -> "@ + artifact,
        update_line(package, tag, artifact, true) == package + " "@ + tag + " would update -> "@
            + artifact,
{
}

/// What is installed of an artifact: of a package of programs the picked files, of another the
/// picked package; and neither where picking fails.
pub proof fn law_chosen(
    style: PathStyle,
    rendered: RenderedView,
    entries: Seq<EntryView>,
    hits: Seq<Hits>,
)
    ensures
        rendered.install == InstallMode::Bin ==> match picked(rendered.files, entries, hits) {
            Ok(files) => chosen(style, rendered, entries, hits) == Ok::<UnpackedView, Fault>(
                UnpackedView::Files(files),
            ),
            Err(e) => chosen(style, rendered, entries, hits) == Err::<UnpackedView, Fault>(e),
        },
        rendered.install == InstallMode::Package ==> match package_picked(
            style,
            rendered.files,
            entries,
            hits,
        ) {
            Ok(package) => chosen(style, rendered, entries, hits) == Ok::<UnpackedView, Fault>(
                UnpackedView::Package(package),
            ),
            Err(e) => chosen(style, rendered, entries, hits) == Err::<UnpackedView, Fault>(e),
        },
{
}

/// A package is skipped only where its latest release is recorded and nothing is forced; only a dry
/// run checks without installing; and a dry run never installs. What came of a package changes
/// nothing but the record, which gains what was installed, and the count.
pub proof fn law_package_outcomes(s: RunView, package: Seq<char>, tag: Seq<char>, other: Seq<char>)
    ensures
        can_come(s, package, PackageOutcome::Skipped(tag)) <==> !s.force
            && s.lock.dom().contains(package) && s.lock[package] == tag,
        can_come(s, package, PackageOutcome::Checked) <==> s.dry,
        can_come(s, package, PackageOutcome::Installed(tag)) <==> !s.dry,
        run_step(s, package, PackageOutcome::Skipped(tag)).lock == s.lock,
        run_step(s, package, PackageOutcome::Checked).lock == s.lock,
        ({
            let t = run_step(s, package, PackageOutcome::Installed(tag));
            &&& t.lock.dom().contains(package) && t.lock[package] == tag
            &&& other != package ==> {
                &&& t.lock.dom().contains(other) <==> s.lock.dom().contains(other)
                &&& s.lock.dom().contains(other) ==> t.lock[other] == s.lock[other]
            }
            &&& t.done == s.done + 1
            &&& t.dry == s.dry
            &&& t.force == s.force
        }),
{
}

/// A downloaded artifact is read in the format that its name tells.
pub proof fn law_extracting(
    matched: MatchedView,
    bytes: Seq<u8>,
    format: Format,
    r: Result<Seq<EntryView>, Fault>,
)
    ensures
        format_of(matched.asset_name) == Some(format) ==> (extracting(matched, bytes, r) <==> (
        FormatExtractor { format }).extracts(matched.asset_name, bytes, r)),
        format_of(matched.asset_name) is None ==> (extracting(matched, bytes, r) <==> r == Err::<
            Seq<EntryView>,
            Fault,
        >(Failure::UnsupportedFormat(matched.asset_name))),
{
}

/// Contracts speak of all that a picked asset and a run hold.
pub proof fn law_update_in_contracts(
    asset: MatchedAsset,
    run: Update,
    files: Vec<SelectedFile>,
    package: SelectedPackage,
    e: Error,
)
    ensures
        asset@.rendered == asset.rendered@,
        asset@.download_url == asset.download_url@,
        asset@.tag_name == asset.tag_name@,
        asset@.asset_name == asset.asset_name@,
        run@.dry == run.dry,
        run@.force == run.force,
        run@.lock == run.lock.packages@,
        run@.done == run.done,
        Unpacked::Files(files)@ == UnpackedView::Files(views(files@)),
        Unpacked::Package(package)@ == UnpackedView::Package(package@),
        matched_outcome(Ok(asset)) == Ok::<MatchedView, Fault>(asset@),
        matched_outcome(Err(e)) == Err::<MatchedView, Fault>(e@),
        unpacked_outcome(Err(e)) == Err::<UnpackedView, Fault>(e@),
        unpacked_outcome(Ok(Unpacked::Package(package))) == Ok::<UnpackedView, Fault>(
            UnpackedView::Package(package@),
        ),
{
}

/// Picking the asset for a package comes to what trying its forms on the assets can come to, and
/// fails as its forms do where there are none.
pub proof fn law_matching(
    package: PackageView,
    forms: Seq<RenderedView>,
    e: Fault,
    release: ReleaseView,
    r: Result<MatchedView, Fault>,
)
    ensures
        matching(package, Err(e), release, r) <==> r == Err::<MatchedView, Fault>(e),
        matching(package, Ok(forms), release, r) <==> exists|hits: Seq<Hits>| #[trigger]
            forms_tried(forms, release.assets, hits) && r == matched(
                package.name,
                forms,
                release,
                hits,
            ),
{
}

/// What is installed of an artifact comes of trying the configured paths on the paths in it.
pub proof fn law_choosing(
    style: PathStyle,
    rendered: RenderedView,
    entries: Seq<EntryView>,
    r: Result<UnpackedView, Fault>,
)
    ensures
        choosing(style, rendered, entries, r) <==> exists|hits: Seq<Hits>| #[trigger]
            files_tried(rendered.files, entries, hits) && r == chosen(
                style,
                rendered,
                entries,
                hits,
            ),
{
}

} // verus!

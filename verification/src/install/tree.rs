//! Installing a whole artifact: what is written where.

use super::{
    package_dir, package_file_mode, package_install_dir, plain_name, validate_package_name,
};
use crate::archive::EntryView;
use crate::config::FileView;
use crate::failure::{Error, Failure};
use crate::gather::views;
use crate::paths::{
    drive_free, join_path, law_safe_path_lies_below, leading_parts, lies_below, path_below, safe_path,
    PathStyle,
};
use crate::pattern::Hits;
use crate::select::{
    hits_fit, is_first_match, law_package_is_whole, package_picked, SelectedPackage, SelectedPackageView,
};
use crate::text::{is_char, pieces};
use vstd::prelude::*;

verus! {

/// Where the parts of an installation stand.
#[derive(Debug)]
pub struct TreePlan {
    /// The directory of packages.
    pub packages_dir: String,
    /// The directory of the package, in the end.
    pub package_dir: String,
    /// What the name of the directory begins with that the package is put together in.
    pub temp_prefix: String,
    /// What the name of the directory begins with that the old package is moved to.
    pub backup_prefix: String,
}

/// Plans where the parts of an installation stand.
pub fn plan_tree(package_name: &str, install_dir: &str, style: PathStyle) -> (r: Result<
    TreePlan,
    Error,
>)
    ensures
        match r {
            Ok(plan) => {
                &&& plain_name(package_name@)
                &&& plan.packages_dir@ == path_below(style, install_dir@, "packages"@)
                &&& plan.package_dir@ == package_dir(style, install_dir@, package_name@)
                &&& plan.temp_prefix@ == "."@ + package_name@ + "-"@
                &&& plan.backup_prefix@ == "."@ + package_name@ + "-old-"@
            },
            Err(e) => !plain_name(package_name@) && e@ == Failure::UnsafeName(package_name@),
        },
{
    match validate_package_name(package_name) {
        Err(e) => {
            return Err(e);
        },
        Ok(_) => {},
    }
    let packages_dir = join_path(install_dir, "packages", style);
    let package_dir = package_install_dir(install_dir, package_name, style);
    let mut temp_prefix = ".".to_owned();
    temp_prefix.append(package_name);
    temp_prefix.append("-");
    let mut backup_prefix = ".".to_owned();
    backup_prefix.append(package_name);
    backup_prefix.append("-old-");
    Ok(TreePlan { packages_dir, package_dir, temp_prefix, backup_prefix })
}

/// A file to write.
#[derive(Debug)]
pub struct StagedFile {
    /// Where to write it.
    pub destination: String,
    /// The permissions to give it, if any.
    pub mode: Option<u32>,
}

/// A link to make.
#[derive(Debug)]
pub struct StagedLink {
    /// Where to make it.
    pub link_path: String,
    /// Where it leads.
    pub target: String,
}

/// A file to write, in a contract.
pub struct StagedFileView {
    pub destination: Seq<char>,
    pub mode: Option<u32>,
}

/// A link to make, in a contract.
pub struct StagedLinkView {
    pub link_path: Seq<char>,
    pub target: Seq<char>,
}

impl View for StagedFile {
    type V = StagedFileView;

    open spec fn view(&self) -> StagedFileView {
        StagedFileView { destination: self.destination@, mode: self.mode }
    }
}

impl View for StagedLink {
    type V = StagedLinkView;

    open spec fn view(&self) -> StagedLinkView {
        StagedLinkView { link_path: self.link_path@, target: self.target@ }
    }
}

/// The files of a package, each below a directory.
pub open spec fn files_below(
    style: PathStyle,
    package: SelectedPackageView,
    dir: Seq<char>,
) -> Seq<StagedFileView> {
    Seq::new(
        package.files.len(),
        |i: int|
            StagedFileView {
                destination: path_below(style, dir, package.files[i].path),
                mode: match package.files[i].mode {
                    Some(bits) => Some(bits & 0o777u32),
                    None => None,
                },
            },
    )
}

/// The links of a package, from the directory of programs to the directory of the package.
pub open spec fn links_between(
    style: PathStyle,
    package: SelectedPackageView,
    install_dir: Seq<char>,
    package_dir: Seq<char>,
) -> Seq<StagedLinkView> {
    Seq::new(
        package.links.len(),
        |i: int|
            StagedLinkView {
                link_path: path_below(style, install_dir, package.links[i].name),
                target: path_below(style, package_dir, package.links[i].target),
            },
    )
}

/// The files of a package, each below a directory, in the order of the package.
pub fn stage_files(package: &SelectedPackage, dir: &str, style: PathStyle) -> (r: Vec<StagedFile>)
    ensures
        views(r@) == files_below(style, package@, dir@),
{
    let ghost all = files_below(style, package@, dir@);
    let mut out: Vec<StagedFile> = Vec::new();
    assert(views(out@) =~= all.take(0));
    for i in 0..package.files.len()
        invariant
            all == files_below(style, package@, dir@),
            views(out@) == all.take(i as int),
    {
        let file = &package.files[i];
        let destination = join_path(dir, file.relative_path.as_str(), style);
        let mode = package_file_mode(file.mode);
        let ghost before = views(out@);
        let ghost added = StagedFileView { destination: destination@, mode };
        out.push(StagedFile { destination, mode });
        proof {
            assert(package@.files[i as int] == file@);
            assert(views(out@) =~= before.push(added));
            assert(all.take(i + 1) =~= all.take(i as int).push(all[i as int]));
        }
    }
    assert(all.take(all.len() as int) =~= all);
    out
}

/// The links of a package, in the order of the package.
pub fn stage_links(
    package: &SelectedPackage,
    install_dir: &str,
    package_dir: &str,
    style: PathStyle,
) -> (r: Vec<StagedLink>)
    ensures
        views(r@) == links_between(style, package@, install_dir@, package_dir@),
{
    let ghost all = links_between(style, package@, install_dir@, package_dir@);
    let mut out: Vec<StagedLink> = Vec::new();
    assert(views(out@) =~= all.take(0));
    for i in 0..package.links.len()
        invariant
            all == links_between(style, package@, install_dir@, package_dir@),
            views(out@) == all.take(i as int),
    {
        let link = &package.links[i];
        let link_path = join_path(install_dir, link.name.as_str(), style);
        let target = join_path(package_dir, link.target.as_str(), style);
        let ghost before = views(out@);
        let ghost added = StagedLinkView { link_path: link_path@, target: target@ };
        out.push(StagedLink { link_path, target });
        proof {
            assert(package@.links[i as int] == link@);
            assert(views(out@) =~= before.push(added));
            assert(all.take(i + 1) =~= all.take(i as int).push(all[i as int]));
        }
    }
    assert(all.take(all.len() as int) =~= all);
    out
}

/// The path, with slashes between its parts, has no drive of the platform among them.
pub open spec fn without_drives(style: PathStyle, raw: Seq<char>) -> bool {
    drive_free(style, leading_parts(pieces(raw, is_char('/'))))
}

/// The files of a selected artifact are all written below the directory that they are meant for, and
/// the links of it are all made below the directory of programs and lead below the directory of the
/// package. Left aside are paths with a drive among their parts, where drives have a meaning.
pub proof fn law_tree_stays_below(
    style: PathStyle,
    files: Seq<FileView>,
    entries: Seq<EntryView>,
    hits: Seq<Hits>,
    dir: Seq<char>,
    install_dir: Seq<char>,
    target_dir: Seq<char>,
)
    requires
        hits_fit(hits, files.len(), entries.len()),
        package_picked(style, files, entries, hits) is Ok,
        forall|i: int| 0 <= i < files.len() ==> without_drives(style, (#[trigger] files[i]).name),
        forall|i: int|
            0 <= i < entries.len() ==> without_drives(style, (#[trigger] entries[i]).path),
    ensures
        ({
            let package = package_picked(style, files, entries, hits)->Ok_0;
            let written = files_below(style, package, dir);
            let links = links_between(style, package, install_dir, target_dir);
            &&& forall|i: int|
                0 <= i < written.len() ==> lies_below(
                    style,
                    dir,
                    (#[trigger] written[i]).destination,
                )
            &&& forall|i: int|
                0 <= i < links.len() ==> {
                    &&& lies_below(style, install_dir, (#[trigger] links[i]).link_path)
                    &&& lies_below(style, target_dir, links[i].target)
                }
        }),
{
    let package = package_picked(style, files, entries, hits)->Ok_0;
    let written = files_below(style, package, dir);
    let links = links_between(style, package, install_dir, target_dir);
    law_package_is_whole(style, files, entries, hits);
    assert forall|i: int| 0 <= i < written.len() implies lies_below(
        style,
        dir,
        (#[trigger] written[i]).destination,
    ) by {
        assert(safe_path(style, entries[i].path) == Some(package.files[i].path));
        law_safe_path_lies_below(style, dir, entries[i].path);
    }
    assert forall|i: int| 0 <= i < links.len() implies {
        &&& lies_below(style, install_dir, (#[trigger] links[i]).link_path)
        &&& lies_below(style, target_dir, links[i].target)
    } by {
        assert(safe_path(style, files[i].name) == Some(package.links[i].name));
        law_safe_path_lies_below(style, install_dir, files[i].name);
        let k = choose|k: int| #[trigger]
            is_first_match(hits[i], k) && 0 <= k < entries.len() && package.files[k].path
                == package.links[i].target;
        assert(safe_path(style, entries[k].path) == Some(package.files[k].path));
        law_safe_path_lies_below(style, target_dir, entries[k].path);
    }
}

/// Each file of a selected artifact is written where its own path leads below the directory, with the
/// permissions for owner, group and others that it had.
pub proof fn law_files_are_written(
    style: PathStyle,
    files: Seq<FileView>,
    entries: Seq<EntryView>,
    hits: Seq<Hits>,
    dir: Seq<char>,
    i: int,
)
    requires
        hits_fit(hits, files.len(), entries.len()),
        package_picked(style, files, entries, hits) is Ok,
        0 <= i < entries.len(),
    ensures
        ({
            let written = files_below(
                style,
                package_picked(style, files, entries, hits)->Ok_0,
                dir,
            );
            &&& written.len() == entries.len()
            &&& safe_path(style, entries[i].path) matches Some(path) && written[i].destination
                == path_below(style, dir, path)
            &&& match entries[i].mode {
                Some(bits) => written[i].mode == Some(bits & 0o777u32),
                None => written[i].mode is None,
            }
        }),
{
    law_package_is_whole(style, files, entries, hits);
    let package = package_picked(style, files, entries, hits)->Ok_0;
    assert(safe_path(style, entries[i].path) == Some(package.files[i].path));
}

/// There is a link for each configured file. It stands at the configured name below the directory of
/// programs, and leads to where the first file that the configured path matches is written, below
/// the directory of the package.
pub proof fn law_links_lead_to_their_files(
    style: PathStyle,
    files: Seq<FileView>,
    entries: Seq<EntryView>,
    hits: Seq<Hits>,
    install_dir: Seq<char>,
    target_dir: Seq<char>,
    i: int,
)
    requires
        hits_fit(hits, files.len(), entries.len()),
        package_picked(style, files, entries, hits) is Ok,
        0 <= i < files.len(),
    ensures
        ({
            let package = package_picked(style, files, entries, hits)->Ok_0;
            let links = links_between(style, package, install_dir, target_dir);
            &&& links.len() == files.len()
            &&& safe_path(style, files[i].name) matches Some(name) && links[i].link_path
                == path_below(style, install_dir, name)
            &&& exists|k: int|
                {
                    &&& 0 <= k < entries.len()
                    &&& #[trigger] is_first_match(hits[i], k)
                    &&& links[i].target == files_below(style, package, target_dir)[k].destination
                    &&& safe_path(style, entries[k].path) matches Some(path) && links[i].target
                        == path_below(style, target_dir, path)
                }
        }),
{
    law_package_is_whole(style, files, entries, hits);
    let package = package_picked(style, files, entries, hits)->Ok_0;
    assert(safe_path(style, files[i].name) == Some(package.links[i].name));
    let k = choose|k: int| #[trigger]
        is_first_match(hits[i], k) && 0 <= k < entries.len() && package.files[k].path
            == package.links[i].target;
    assert(safe_path(style, entries[k].path) == Some(package.files[k].path));
    assert(is_first_match(hits[i], k));
}

/// Whatever package is staged, its links and files go one for one where their own paths lead, seen
/// from the directories.
pub proof fn law_staged_one_for_one(
    style: PathStyle,
    package: SelectedPackageView,
    dir: Seq<char>,
    install_dir: Seq<char>,
    target_dir: Seq<char>,
    i: int,
)
    ensures
        files_below(style, package, dir).len() == package.files.len(),
        links_between(style, package, install_dir, target_dir).len() == package.links.len(),
        0 <= i < package.files.len() ==> files_below(style, package, dir)[i].destination
            == path_below(style, dir, package.files[i].path),
        0 <= i < package.links.len() ==> ({
            let link = links_between(style, package, install_dir, target_dir)[i];
            &&& link.link_path == path_below(style, install_dir, package.links[i].name)
            &&& link.target == path_below(style, target_dir, package.links[i].target)
        }),
{
}

/// Contracts speak of all that is staged.
pub proof fn law_staged_in_contracts(file: StagedFile, link: StagedLink)
    ensures
        file@.destination == file.destination@,
        file@.mode == file.mode,
        link@.link_path == link.link_path@,
        link@.target == link.target@,
{
}

} // verus!

//! The configuration: packages, and the values that templates draw on.

use crate::failure::{Error, Failure, Fault};
use crate::gather::views;
use crate::order::{TextSet, TextTable};
use crate::text::{texts, trim, trimmed};
use vstd::prelude::*;

verus! {

/// The configuration.
#[derive(Debug)]
pub struct Config {
    /// What the templates can refer to.
    pub definitions: Definitions,
    /// The packages to keep up to date.
    pub packages: Vec<Package>,
}

/// The sets of definitions, by operating system.
#[derive(Debug)]
pub struct Definitions {
    /// Each system with its sets, in their order.
    pub by_os: TextTable<Vec<DefinitionSet>>,
}

/// Definitions that hold together.
#[derive(Debug)]
pub struct DefinitionSet {
    /// Each variable with its values.
    pub values: TextTable<DefinitionValueList>,
}

/// The values of a variable, the preferred one first.
#[derive(Debug, Clone, PartialEq, Eq)]
pub struct DefinitionValueList(pub Vec<String>);

/// How the files of a package are installed.
#[derive(Debug, Clone, Copy, PartialEq, Eq, Structural)]
pub enum InstallMode {
    /// The configured files alone, as programs.
    Bin,
    /// The whole artifact, with links to the configured files.
    Package,
}

/// A package to keep up to date.
#[derive(Debug)]
pub struct Package {
    /// Its name.
    pub name: String,
    /// The address of its repository.
    pub repo: String,
    /// The template of its artifact's name.
    pub artifact: String,
    /// How it is installed.
    pub install: InstallMode,
    /// Its files.
    pub file: Vec<FileEntry>,
}

/// A file of a package.
#[derive(Debug)]
pub struct FileEntry {
    /// The template of the name under which it is installed.
    pub name: String,
    /// The template of its path in the artifact.
    pub path: String,
}

/// A package with its templates expanded.
#[derive(Debug, Clone, PartialEq, Eq)]
pub struct RenderedPackage {
    /// The name of the artifact, a glob pattern.
    pub artifact: String,
    /// How the package is installed.
    pub install: InstallMode,
    /// The files of the package.
    pub files: Vec<RenderedFile>,
}

/// A file of a package with its templates expanded.
#[derive(Debug, Clone, PartialEq, Eq)]
pub struct RenderedFile {
    /// The name under which it is installed.
    pub name: String,
    /// Its path in the artifact, a glob pattern.
    pub path: String,
}

/// A file in a contract.
pub struct FileView {
    pub name: Seq<char>,
    pub path: Seq<char>,
}

/// A package in a contract.
pub struct PackageView {
    pub name: Seq<char>,
    pub repo: Seq<char>,
    pub artifact: Seq<char>,
    pub install: InstallMode,
    pub files: Seq<FileView>,
}

/// A rendered package in a contract.
pub struct RenderedView {
    pub artifact: Seq<char>,
    pub install: InstallMode,
    pub files: Seq<FileView>,
}

impl View for FileEntry {
    type V = FileView;

    open spec fn view(&self) -> FileView {
        FileView { name: self.name@, path: self.path@ }
    }
}

impl View for RenderedFile {
    type V = FileView;

    open spec fn view(&self) -> FileView {
        FileView { name: self.name@, path: self.path@ }
    }
}

impl View for Package {
    type V = PackageView;

    open spec fn view(&self) -> PackageView {
        PackageView {
            name: self.name@,
            repo: self.repo@,
            artifact: self.artifact@,
            install: self.install,
            files: views(self.file@),
        }
    }
}

impl View for RenderedPackage {
    type V = RenderedView;

    open spec fn view(&self) -> RenderedView {
        RenderedView {
            artifact: self.artifact@,
            install: self.install,
            files: views(self.files@),
        }
    }
}

impl View for DefinitionSet {
    type V = Map<Seq<char>, Seq<Seq<char>>>;

    open spec fn view(&self) -> Map<Seq<char>, Seq<Seq<char>>> {
        self.values@.map_values(|list: DefinitionValueList| texts(list.0@))
    }
}

/// What is wrong with a package that comes after `earlier` ones.
pub open spec fn package_fault(earlier: Seq<PackageView>, p: PackageView) -> Option<Fault> {
    if trimmed(p.name).len() == 0 {
        Some(Failure::EmptyName)
    } else if exists|i: int| 0 <= i < earlier.len() && (#[trigger] earlier[i]).name == p.name {
        Some(Failure::DuplicateName(p.name))
    } else if p.files.len() == 0 {
        Some(Failure::NoFiles(p.name))
    } else {
        None
    }
}

/// What is wrong with the first package with which something is wrong.
pub open spec fn first_fault(packages: Seq<PackageView>) -> Option<Fault>
    decreases packages.len(),
{
    if packages.len() == 0 {
        None
    } else {
        match first_fault(packages.drop_last()) {
            Some(e) => Some(e),
            None => package_fault(packages.drop_last(), packages.last()),
        }
    }
}

/// What is wrong with a configuration of these packages.
pub open spec fn config_fault(packages: Seq<PackageView>) -> Option<Fault> {
    if packages.len() == 0 {
        Some(Failure::NoPackages)
    } else {
        first_fault(packages)
    }
}

/// The failure of a check, if it failed.
pub open spec fn fault_of(r: Result<(), Error>) -> Option<Fault> {
    match r {
        Ok(_) => None,
        Err(e) => Some(e@),
    }
}

proof fn lemma_first_fault(packages: Seq<PackageView>, i: int)
    requires
        0 <= i <= packages.len(),
        first_fault(packages.take(i)) is Some,
    ensures
        first_fault(packages) == first_fault(packages.take(i)),
    decreases packages.len() - i,
{
    if i < packages.len() {
        assert(packages.take(i + 1).drop_last() =~= packages.take(i));
        lemma_first_fault(packages, i + 1);
    } else {
        assert(packages.take(i) =~= packages);
    }
}

/// The names of the packages.
pub open spec fn package_names(packages: Seq<PackageView>) -> Seq<Seq<char>> {
    Seq::new(packages.len(), |i: int| packages[i].name)
}

/// Checks that the configuration has packages, and that each has a name of its own and files.
pub fn validate_config(config: &Config) -> (r: Result<(), Error>)
    ensures
        fault_of(r) == config_fault(views(config.packages@)),
{
    let packages = &config.packages;
    if packages.len() == 0 {
        return Err(Failure::NoPackages);
    }
    let ghost all = views(packages@);
    let mut names = TextSet::new();
    assert(package_names(all.take(0)).to_set() =~= names@);
    for i in 0..packages.len()
        invariant
            packages@ == config.packages@,
            packages@.len() > 0,
            all == views(packages@),
            first_fault(all.take(i as int)) is None,
            names@ == package_names(all.take(i as int)).to_set(),
    {
        let package = &packages[i];
        proof {
            let before = all.take(i as int);
            let next = all.take(i + 1);
            assert(next.drop_last() =~= before);
            assert(next.last() == package@);
            assert(package_fault(before, package@) is Some ==> first_fault(all) == package_fault(
                before,
                package@,
            )) by {
                if package_fault(before, package@) is Some {
                    lemma_first_fault(all, i + 1);
                }
            }
            assert(package_names(next) =~= package_names(before).push(package@.name));
            assert(package_names(next).to_set() =~= package_names(before).to_set().insert(
                package@.name,
            )) by {
                assert forall|x: Seq<char>|
                    package_names(next).to_set().contains(x) <==> package_names(
                        before,
                    ).to_set().insert(package@.name).contains(x) by {
                    let a = package_names(before);
                    let b = package_names(next);
                    if a.contains(x) {
                        let k = choose|k: int| 0 <= k < a.len() && a[k] == x;
                        assert(b[k] == x);
                    }
                    if b.contains(x) {
                        let k = choose|k: int| 0 <= k < b.len() && b[k] == x;
                        assert(k < i ==> a[k] == x);
                    }
                    assert(b[i as int] == package@.name);
                }
            }
            let a = package_names(before);
            assert(a.contains(package@.name) <==> exists|k: int|
                0 <= k < before.len() && (#[trigger] before[k]).name == package@.name) by {
                if a.contains(package@.name) {
                    let k = choose|k: int| 0 <= k < a.len() && a[k] == package@.name;
                    assert(before[k].name == package@.name);
                }
                if exists|k: int|
                    0 <= k < before.len() && (#[trigger] before[k]).name == package@.name {
                    let k = choose|k: int|
                        0 <= k < before.len() && (#[trigger] before[k]).name == package@.name;
                    assert(a[k] == package@.name);
                }
            }
        }
        if trim(package.name.as_str()).as_str().is_empty() {
            return Err(Failure::EmptyName);
        }
        if !names.insert(package.name.clone()) {
            return Err(Failure::DuplicateName(package.name.clone()));
        }
        if package.file.len() == 0 {
            return Err(Failure::NoFiles(package.name.clone()));
        }
    }
    assert(all.take(all.len() as int) =~= all);
    Ok(())
}

/// The packages of a configuration are in order: each has a name that is more than white space and
/// that no other has, and each has files.
pub open spec fn in_good_order(packages: Seq<PackageView>) -> bool {
    &&& forall|i: int| 0 <= i < packages.len() ==> trimmed((#[trigger] packages[i]).name).len() > 0
    &&& forall|i: int| 0 <= i < packages.len() ==> (#[trigger] packages[i]).files.len() > 0
    &&& package_names(packages).no_duplicates()
}

proof fn lemma_no_fault(packages: Seq<PackageView>)
    ensures
        first_fault(packages) is None <==> in_good_order(packages),
    decreases packages.len(),
{
    let names = package_names(packages);
    if packages.len() > 0 {
        let earlier = packages.drop_last();
        let last = packages.last();
        let n = packages.len() - 1;
        lemma_no_fault(earlier);
        assert(forall|i: int| 0 <= i < n ==> #[trigger] earlier[i] == packages[i]);
        assert(packages[n] == last);
        let before = package_names(earlier);
        assert(forall|i: int| 0 <= i < n ==> #[trigger] before[i] == names[i]);
        if in_good_order(packages) {
            assert forall|i: int| 0 <= i < n implies trimmed((#[trigger] earlier[i]).name).len()
                > 0 by {
                assert(trimmed(packages[i].name).len() > 0);
            }
            assert forall|i: int| 0 <= i < n implies (#[trigger] earlier[i]).files.len() > 0 by {
                assert(packages[i].files.len() > 0);
            }
            assert forall|i: int, j: int| 0 <= i < n && 0 <= j < n && i != j implies before[i]
                != before[j] by {
                assert(names[i] != names[j]);
            }
            assert forall|i: int| 0 <= i < n implies (#[trigger] earlier[i]).name != last.name by {
                assert(names[i] != names[n]);
            }
        }
        if first_fault(packages) is None {
            assert forall|i: int| 0 <= i < packages.len() implies trimmed(
                (#[trigger] packages[i]).name,
            ).len() > 0 by {
                if i < n {
                    assert(trimmed(earlier[i].name).len() > 0);
                }
            }
            assert forall|i: int| 0 <= i < packages.len() implies (#[trigger] packages[i]).files.len()
                > 0 by {
                if i < n {
                    assert(earlier[i].files.len() > 0);
                }
            }
            assert forall|i: int, j: int|
                0 <= i < names.len() && 0 <= j < names.len() && i != j implies names[i]
                != names[j] by {
                if i < n && j < n {
                    assert(before[i] != before[j]);
                } else if i < n {
                    assert(earlier[i].name != last.name);
                } else {
                    assert(earlier[j].name != last.name);
                }
            }
        }
    }
}

/// A configuration is found valid exactly where it has packages and they are in order.
pub proof fn law_valid_config(packages: Seq<PackageView>)
    ensures
        config_fault(packages) is None <==> packages.len() > 0 && in_good_order(packages),
{
    lemma_no_fault(packages);
}

/// What is wrong with a configuration is what is wrong with its first package that is not in order:
/// that its name is white space only, or else that an earlier one has it, or else that it has no
/// files. A configuration without packages is wrong for that.
pub proof fn law_first_fault(packages: Seq<PackageView>, i: int)
    ensures
        packages.len() == 0 ==> config_fault(packages) == Some(Fault::NoPackages),
        0 <= i < packages.len() && in_good_order(packages.take(i)) && !in_good_order(
            packages.take(i + 1),
        ) ==> config_fault(packages) == Some(
            if trimmed(packages[i].name).len() == 0 {
                Failure::EmptyName
            } else if exists|j: int| 0 <= j < i && (#[trigger] packages[j]).name
                == packages[i].name {
                Failure::DuplicateName(packages[i].name)
            } else {
                Failure::NoFiles(packages[i].name)
            },
        ),
{
    if 0 <= i < packages.len() && in_good_order(packages.take(i)) && !in_good_order(
        packages.take(i + 1),
    ) {
        let before = packages.take(i);
        let next = packages.take(i + 1);
        let p = packages[i];
        lemma_no_fault(before);
        lemma_no_fault(next);
        lemma_first_fault(packages, i + 1);
        assert(next.drop_last() =~= before);
        assert(next.last() == p);
        if exists|j: int| 0 <= j < before.len() && (#[trigger] before[j]).name == p.name {
            let j = choose|j: int| 0 <= j < before.len() && (#[trigger] before[j]).name == p.name;
            assert(packages[j].name == p.name);
        }
        if exists|j: int| 0 <= j < i && (#[trigger] packages[j]).name == p.name {
            let j = choose|j: int| 0 <= j < i && (#[trigger] packages[j]).name == p.name;
            assert(before[j].name == p.name);
        }
    }
}

/// Contracts speak of all that a package and its files hold.
pub proof fn law_package_in_contracts(
    package: Package,
    rendered: RenderedPackage,
    set: DefinitionSet,
    i: int,
    name: Seq<char>,
)
    ensures
        package@.name == package.name@,
        package@.repo == package.repo@,
        package@.artifact == package.artifact@,
        package@.install == package.install,
        package@.files.len() == package.file@.len(),
        0 <= i < package.file@.len() ==> package@.files[i].name == package.file@[i].name@
            && package@.files[i].path == package.file@[i].path@,
        rendered@.artifact == rendered.artifact@,
        rendered@.install == rendered.install,
        rendered@.files.len() == rendered.files@.len(),
        0 <= i < rendered.files@.len() ==> rendered@.files[i].name == rendered.files@[i].name@
            && rendered@.files[i].path == rendered.files@[i].path@,
        set@.dom().contains(name) <==> set.values@.dom().contains(name),
        set@.dom().contains(name) ==> set@[name] == texts(set.values@[name].0@),
{
}

} // verus!

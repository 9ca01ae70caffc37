//! Rendering: the forms that a package can take on a platform.

use crate::config::{
    Config, DefinitionSet, FileView, Package, PackageView, RenderedFile,
    RenderedPackage, RenderedView,
};
use crate::failure::{Error, Failure, Fault};
use crate::gather::{
    gather, lemma_gather_at, lemma_gather_first_failure, lemma_gather_next, lemma_gather_one_each,
    lemma_gather_order, lemma_gather_place, views, yielded_before,
};
use crate::order::{
    ascending, in_order, keys, lemma_in_order, lemma_in_order_of, precedes, TextMap, TextSet,
};
use crate::paths::PathStyle;
use crate::template::{expand_template, expanded, Vars};
use crate::text::texts;
use vstd::prelude::*;

verus! {

/// The machine that the packages are for, by the names of its system and its architecture.
pub struct Platform {
    pub os: String,
    pub arch: String,
}

/// How a system reads paths.
pub open spec fn style_of(os: Seq<char>) -> PathStyle {
    if os == "windows"@ {
        PathStyle::Windows
    } else {
        PathStyle::Unix
    }
}

impl Platform {
    /// How the system reads paths.
    pub fn path_style(&self) -> (r: PathStyle)
        ensures
            r == style_of(self.os@),
    {
        if *self.os.as_str() == *"windows" {
            PathStyle::Windows
        } else {
            PathStyle::Unix
        }
    }
}

/// `vars` with one more value for `key`: that of the template, expanded by `vars`.
pub open spec fn value_step(vars: Vars, key: Seq<char>) -> spec_fn(Seq<char>) -> Result<
    Seq<Vars>,
    Fault,
> {
    |value: Seq<char>|
        match expanded(value, vars) {
            Ok(t) => Ok(seq![vars.insert(key, t)]),
            Err(e) => Err(e),
        }
}

/// The variables with each of the values for `key` in turn.
pub open spec fn vars_step(key: Seq<char>, values: Seq<Seq<char>>) -> spec_fn(Vars) -> Result<
    Seq<Vars>,
    Fault,
> {
    |vars: Vars| gather(values, value_step(vars, key))
}

/// The values of variables, by their names.
pub type Definition = Map<Seq<char>, Seq<Seq<char>>>;

/// The variables of a set of definitions with their values, in the order of the variables' names.
pub open spec fn variables(set: Definition) -> Seq<(Seq<char>, Seq<Seq<char>>)> {
    let names = in_order(set.dom());
    Seq::new(names.len(), |i: int| (names[i], set[names[i]]))
}

/// All choices of values from a set of definitions: the variables are gone through in the order of
/// their names, and the choices for one stand in the order of its values.
pub open spec fn defined(set: Definition, base: Vars) -> Result<Seq<Vars>, Fault> {
    defined_in_turn(variables(set), base)
}

/// All choices of values for variables, which are gone through one after the other.
pub open spec fn defined_in_turn(set: Seq<(Seq<char>, Seq<Seq<char>>)>, base: Vars) -> Result<
    Seq<Vars>,
    Fault,
>
    decreases set.len(),
{
    if set.len() == 0 {
        Ok(seq![base])
    } else {
        match defined_in_turn(set.drop_last(), base) {
            Err(e) => Err(e),
            Ok(choices) => gather(choices, vars_step(set.last().0, set.last().1)),
        }
    }
}

proof fn lemma_defined_failed(set: Seq<(Seq<char>, Seq<Seq<char>>)>, base: Vars, i: int)
    requires
        0 <= i <= set.len(),
        defined_in_turn(set.take(i), base) is Err,
    ensures
        defined_in_turn(set, base) == defined_in_turn(set.take(i), base),
    decreases set.len() - i,
{
    if i < set.len() {
        assert(set.take(i + 1).drop_last() =~= set.take(i));
        lemma_defined_failed(set, base, i + 1);
    } else {
        assert(set.take(i) =~= set);
    }
}

/// The choices of a result.
pub open spec fn choices_outcome(r: Result<Vec<TextMap>, Error>) -> Result<Seq<Vars>, Fault> {
    match r {
        Ok(v) => Ok(views(v@)),
        Err(e) => Err(e@),
    }
}

/// The variables with each of the values for `key` in turn.
fn expand_values(vars: &TextMap, key: &str, values: &Vec<String>) -> (r: Result<
    Vec<TextMap>,
    Error,
>)
    ensures
        choices_outcome(r) == vars_step(key@, texts(values@))(vars@),
{
    let mut out: Vec<TextMap> = Vec::new();
    let ghost all = texts(values@);
    let ghost f = value_step(vars@, key@);
    assert(gather(all.take(0), f) == Ok::<Seq<Vars>, Fault>(views(out@))) by {
        assert(views(out@) =~= Seq::<Vars>::empty());
    }
    for i in 0..values.len()
        invariant
            all == texts(values@),
            f == value_step(vars@, key@),
            gather(all.take(i as int), f) == Ok::<Seq<Vars>, Fault>(views(out@)),
    {
        proof {
            lemma_gather_next(all, f, i as int);
        }
        match expand_template(values[i].as_str(), vars) {
            Err(e) => {
                return Err(e);
            },
            Ok(value) => {
                let mut next = vars.copy();
                let _ = next.insert(key.to_owned(), value);
                let ghost before = views(out@);
                out.push(next);
                assert(views(out@) =~= before + seq![next@]);
            },
        }
    }
    assert(all.take(all.len() as int) =~= all);
    Ok(out)
}

/// All choices of values from a set of definitions.
pub fn expand_definition_set(definition: &DefinitionSet, base_vars: TextMap) -> (r: Result<
    Vec<TextMap>,
    Error,
>)
    ensures
        choices_outcome(r) == defined(definition@, base_vars@),
{
    let ghost base = base_vars@;
    let ghost set = variables(definition@);
    let entries = definition.values.entries();
    proof {
        assert(definition@.dom() =~= definition.values@.dom());
        assert forall|i: int| 0 <= i < entries@.len() implies #[trigger] set[i] == (
            entries@[i].0@,
            texts(entries@[i].1.0@),
        ) by {
            assert(keys(entries@)[i] == entries@[i].0@);
            assert(keys(entries@).to_set().contains(entries@[i].0@));
        }
    }
    let mut choices: Vec<TextMap> = Vec::new();
    choices.push(base_vars);
    assert(views(choices@) =~= seq![base]);
    for i in 0..entries.len()
        invariant
            set == variables(definition@),
            set.len() == entries@.len(),
            forall|k: int|
                0 <= k < entries@.len() ==> #[trigger] set[k] == (
                    entries@[k].0@,
                    texts(entries@[k].1.0@),
                ),
            base == base_vars@,
            defined_in_turn(set.take(i as int), base) == Ok::<Seq<Vars>, Fault>(views(choices@)),
    {
        let key = entries[i].0.as_str();
        let values = &entries[i].1.0;
        proof {
            assert(set.take(i + 1).drop_last() =~= set.take(i as int));
            assert(set[i as int] == (key@, texts(values@)));
            assert(set.take(i + 1).last() == (key@, texts(values@)));
        }
        let ghost all = views(choices@);
        let ghost f = vars_step(key@, texts(values@));
        let mut next: Vec<TextMap> = Vec::new();
        assert(gather(all.take(0), f) == Ok::<Seq<Vars>, Fault>(views(next@))) by {
            assert(views(next@) =~= Seq::<Vars>::empty());
        }
        for j in 0..choices.len()
            invariant
                i < entries@.len(),
                set == variables(definition@),
                set.len() == entries@.len(),
                base == base_vars@,
                all == views(choices@),
                f == vars_step(key@, texts(values@)),
                set.take(i + 1).drop_last() == set.take(i as int),
                set.take(i + 1).last() == (key@, texts(values@)),
                defined_in_turn(set.take(i as int), base) == Ok::<Seq<Vars>, Fault>(all),
                gather(all.take(j as int), f) == Ok::<Seq<Vars>, Fault>(views(next@)),
        {
            proof {
                lemma_gather_next(all, f, j as int);
            }
            match expand_values(&choices[j], key, values) {
                Err(e) => {
                    proof {
                        lemma_defined_failed(set, base, i + 1);
                    }
                    return Err(e);
                },
                Ok(mut more) => {
                    let ghost before = views(next@);
                    let ghost added = views(more@);
                    next.append(&mut more);
                    assert(views(next@) =~= before + added);
                },
            }
        }
        assert(all.take(all.len() as int) =~= all);
        choices = next;
    }
    assert(set.take(set.len() as int) =~= set);
    Ok(choices)
}

/// A file with its templates expanded.
pub open spec fn file_step(vars: Vars) -> spec_fn(FileView) -> Result<Seq<FileView>, Fault> {
    |file: FileView|
        match expanded(file.name, vars) {
            Err(e) => Err(e),
            Ok(name) => match expanded(file.path, vars) {
                Err(e) => Err(e),
                Ok(path) => Ok(seq![FileView { name, path }]),
            },
        }
}

/// A package with its templates expanded.
pub open spec fn rendered(package: PackageView, vars: Vars) -> Result<RenderedView, Fault> {
    match expanded(package.artifact, vars) {
        Err(e) => Err(e),
        Ok(artifact) => match gather(package.files, file_step(vars)) {
            Err(e) => Err(e),
            Ok(files) => Ok(RenderedView { artifact, install: package.install, files }),
        },
    }
}

/// A package with its templates expanded, by one choice of values.
pub open spec fn render_step(package: PackageView) -> spec_fn(Vars) -> Result<
    Seq<RenderedView>,
    Fault,
> {
    |vars: Vars|
        match rendered(package, vars) {
            Ok(r) => Ok(seq![r]),
            Err(e) => Err(e),
        }
}

/// The variables that are there before any definition.
pub open spec fn base_vars(os: Seq<char>, arch: Seq<char>) -> Vars {
    Map::<Seq<char>, Seq<char>>::empty().insert("os"@, os).insert("arch"@, arch)
}

/// A package rendered by all choices of values from one set of definitions.
pub open spec fn definition_step(
    package: PackageView,
    os: Seq<char>,
    arch: Seq<char>,
) -> spec_fn(Definition) -> Result<Seq<RenderedView>, Fault> {
    |set: Definition|
        match defined(set, base_vars(os, arch)) {
            Err(e) => Err(e),
            Ok(choices) => gather(choices, render_step(package)),
        }
}

/// A package rendered for one name of the architecture, by all sets of definitions.
pub open spec fn arch_step(
    package: PackageView,
    os: Seq<char>,
    sets: Seq<Definition>,
) -> spec_fn(Seq<char>) -> Result<Seq<RenderedView>, Fault> {
    |arch: Seq<char>| gather(sets, definition_step(package, os, arch))
}

/// The first of each run of packages with the same artifact, wherever the others stand.
pub open spec fn first_of_each(all: Seq<RenderedView>) -> Seq<RenderedView>
    decreases all.len(),
{
    if all.len() == 0 {
        all
    } else if exists|i: int|
        0 <= i < all.len() - 1 && (#[trigger] all[i]).artifact == all.last().artifact {
        first_of_each(all.drop_last())
    } else {
        first_of_each(all.drop_last()).push(all.last())
    }
}

/// The systems that packages can be rendered for.
pub open spec fn os_supported(os: Seq<char>) -> bool {
    os == "linux"@ || os == "windows"@ || os == "macos"@
}

/// The names of an architecture, the preferred one first; none where it is not supported.
pub open spec fn arch_names(arch: Seq<char>) -> Option<Seq<Seq<char>>> {
    if arch == "aarch64"@ {
        Some(seq!["arm64"@, "aarch64"@])
    } else if arch == "x86_64"@ {
        Some(seq!["x64"@, "x86_64"@, "amd64"@])
    } else if arch == "arm"@ {
        Some(seq!["arm"@])
    } else {
        None
    }
}

/// The sets of definitions for a system; none where the system is not among them.
pub open spec fn sets_for(by_os: Map<Seq<char>, Vec<DefinitionSet>>, os: Seq<char>) -> Option<
    Seq<Definition>,
> {
    if by_os.dom().contains(os) {
        Some(views(by_os[os]@))
    } else {
        None
    }
}

/// The forms that a package can take on a platform, the preferred one first: for each name of the
/// architecture, by each set of definitions, all choices of values; no two with one artifact.
pub open spec fn candidates(
    package: PackageView,
    by_os: Map<Seq<char>, Vec<DefinitionSet>>,
    os: Seq<char>,
    arch: Seq<char>,
) -> Result<Seq<RenderedView>, Fault> {
    if !os_supported(os) {
        Err(Failure::UnsupportedOs(os))
    } else {
        match sets_for(by_os, os) {
            None => Err(Failure::MissingOs(os)),
            Some(sets) => match arch_names(arch) {
                None => Err(Failure::UnsupportedArch(arch)),
                Some(names) => match gather(names, arch_step(package, os, sets)) {
                    Err(e) => Err(e),
                    Ok(all) => Ok(first_of_each(all)),
                },
            },
        }
    }
}

/// The rendered packages of a result.
pub open spec fn rendered_outcome(r: Result<Vec<RenderedPackage>, Error>) -> Result<
    Seq<RenderedView>,
    Fault,
> {
    match r {
        Ok(v) => Ok(views(v@)),
        Err(e) => Err(e@),
    }
}

/// Expands the templates of a package.
pub fn render_package(package: &Package, vars: &TextMap) -> (r: Result<RenderedPackage, Error>)
    ensures
        match r {
            Ok(p) => rendered(package@, vars@) == Ok::<RenderedView, Fault>(p@),
            Err(e) => rendered(package@, vars@) == Err::<RenderedView, Fault>(e@),
        },
{
    let artifact = match expand_template(package.artifact.as_str(), vars) {
        Ok(t) => t,
        Err(e) => {
            return Err(e);
        },
    };
    let mut files: Vec<RenderedFile> = Vec::new();
    let ghost all = views(package.file@);
    let ghost f = file_step(vars@);
    assert(gather(all.take(0), f) == Ok::<Seq<FileView>, Fault>(views(files@))) by {
        assert(views(files@) =~= Seq::<FileView>::empty());
    }
    for i in 0..package.file.len()
        invariant
            all == views(package.file@),
            f == file_step(vars@),
            expanded(package.artifact@, vars@) == Ok::<Seq<char>, Fault>(artifact@),
            gather(all.take(i as int), f) == Ok::<Seq<FileView>, Fault>(views(files@)),
    {
        proof {
            lemma_gather_next(all, f, i as int);
        }
        let file = &package.file[i];
        let name = match expand_template(file.name.as_str(), vars) {
            Ok(t) => t,
            Err(e) => {
                return Err(e);
            },
        };
        let path = match expand_template(file.path.as_str(), vars) {
            Ok(t) => t,
            Err(e) => {
                return Err(e);
            },
        };
        let ghost before = views(files@);
        let ghost added = FileView { name: name@, path: path@ };
        files.push(RenderedFile { name, path });
        assert(views(files@) =~= before + seq![added]);
    }
    assert(all.take(all.len() as int) =~= all);
    Ok(RenderedPackage { artifact, install: package.install, files })
}

/// Renders a package by all choices of values from one set of definitions.
fn render_by_definition(
    package: &Package,
    definition: &DefinitionSet,
    os: &str,
    arch: &str,
) -> (r: Result<Vec<RenderedPackage>, Error>)
    ensures
        rendered_outcome(r) == definition_step(package@, os@, arch@)(definition@),
{
    let mut base = TextMap::new();
    let _ = base.insert("os".to_owned(), os.to_owned());
    let _ = base.insert("arch".to_owned(), arch.to_owned());
    assert(base@ == base_vars(os@, arch@));
    let choices = match expand_definition_set(definition, base) {
        Ok(c) => c,
        Err(e) => {
            return Err(e);
        },
    };
    let mut out: Vec<RenderedPackage> = Vec::new();
    let ghost all = views(choices@);
    let ghost f = render_step(package@);
    assert(gather(all.take(0), f) == Ok::<Seq<RenderedView>, Fault>(views(out@))) by {
        assert(views(out@) =~= Seq::<RenderedView>::empty());
    }
    for i in 0..choices.len()
        invariant
            all == views(choices@),
            f == render_step(package@),
            defined(definition@, base_vars(os@, arch@)) == Ok::<Seq<Vars>, Fault>(all),
            gather(all.take(i as int), f) == Ok::<Seq<RenderedView>, Fault>(views(out@)),
    {
        proof {
            lemma_gather_next(all, f, i as int);
        }
        match render_package(package, &choices[i]) {
            Err(e) => {
                return Err(e);
            },
            Ok(one) => {
                let ghost before = views(out@);
                let ghost added = one@;
                out.push(one);
                assert(views(out@) =~= before + seq![added]);
            },
        }
    }
    assert(all.take(all.len() as int) =~= all);
    Ok(out)
}

/// Renders a package for one name of the architecture, by all sets of definitions.
fn render_for_arch(
    package: &Package,
    definitions: &Vec<DefinitionSet>,
    os: &str,
    arch: &str,
) -> (r: Result<Vec<RenderedPackage>, Error>)
    ensures
        rendered_outcome(r) == arch_step(package@, os@, views(definitions@))(arch@),
{
    let mut out: Vec<RenderedPackage> = Vec::new();
    let ghost all = views(definitions@);
    let ghost f = definition_step(package@, os@, arch@);
    assert(gather(all.take(0), f) == Ok::<Seq<RenderedView>, Fault>(views(out@))) by {
        assert(views(out@) =~= Seq::<RenderedView>::empty());
    }
    for i in 0..definitions.len()
        invariant
            all == views(definitions@),
            f == definition_step(package@, os@, arch@),
            gather(all.take(i as int), f) == Ok::<Seq<RenderedView>, Fault>(views(out@)),
    {
        proof {
            lemma_gather_next(all, f, i as int);
        }
        match render_by_definition(package, &definitions[i], os, arch) {
            Err(e) => {
                return Err(e);
            },
            Ok(mut more) => {
                let ghost before = views(out@);
                let ghost added = views(more@);
                out.append(&mut more);
                assert(views(out@) =~= before + added);
            },
        }
    }
    assert(all.take(all.len() as int) =~= all);
    Ok(out)
}

/// The artifacts of rendered packages.
pub open spec fn artifacts(all: Seq<RenderedView>) -> Seq<Seq<char>> {
    Seq::new(all.len(), |i: int| all[i].artifact)
}

/// The packages without those whose artifact an earlier one has.
fn drop_repeats(all: Vec<RenderedPackage>) -> (r: Vec<RenderedPackage>)
    ensures
        views(r@) == first_of_each(views(all@)),
{
    let mut out: Vec<RenderedPackage> = Vec::new();
    let mut seen = TextSet::new();
    let ghost whole = views(all@);
    assert(artifacts(whole.take(0)).to_set() =~= seen@);
    assert(views(out@) =~= first_of_each(whole.take(0)));
    for package in it: all
        invariant
            it.seq() == all@,
            whole == views(all@),
            views(out@) == first_of_each(whole.take(it.index())),
            seen@ == artifacts(whole.take(it.index())).to_set(),
    {
        let ghost before = whole.take(it.index());
        let ghost next = whole.take(it.index() + 1);
        let ghost name = package.artifact@;
        proof {
            assert(next.drop_last() =~= before);
            assert(next.last() == package@);
            assert(artifacts(next) =~= artifacts(before).push(name));
            assert(artifacts(next).to_set() =~= artifacts(before).to_set().insert(name)) by {
                broadcast use vstd::seq_lib::group_seq_properties;

                assert forall|x: Seq<char>|
                    artifacts(next).to_set().contains(x) <==> artifacts(before).to_set().insert(
                        name,
                    ).contains(x) by {}
            }
            let a = artifacts(before);
            assert(a.contains(name) <==> exists|i: int|
                0 <= i < next.len() - 1 && (#[trigger] next[i]).artifact == name) by {
                if a.contains(name) {
                    let k = choose|k: int| 0 <= k < a.len() && a[k] == name;
                    assert(next[k].artifact == name);
                }
                if exists|i: int| 0 <= i < next.len() - 1 && (#[trigger] next[i]).artifact == name {
                    let k = choose|i: int|
                        0 <= i < next.len() - 1 && (#[trigger] next[i]).artifact == name;
                    assert(a[k] == name);
                }
            }
        }
        if seen.insert(package.artifact.clone()) {
            let ghost kept = views(out@);
            let ghost added = package@;
            out.push(package);
            assert(views(out@) =~= kept.push(added));
        }
    }
    assert(whole.take(whole.len() as int) =~= whole);
    out
}

/// Checks that a system is supported.
pub fn current_os_key(os: &str) -> (r: Result<String, Error>)
    ensures
        match r {
            Ok(key) => os_supported(os@) && key@ == os@,
            Err(e) => !os_supported(os@) && e@ == Failure::UnsupportedOs(os@),
        },
{
    if *os == *"linux" || *os == *"windows" || *os == *"macos" {
        Ok(os.to_owned())
    } else {
        Err(Failure::UnsupportedOs(os.to_owned()))
    }
}

/// The names of an architecture, the preferred one first.
pub fn current_arch_aliases(arch: &str) -> (r: Result<Vec<String>, Error>)
    ensures
        match r {
            Ok(names) => arch_names(arch@) == Some(texts(names@)),
            Err(e) => arch_names(arch@) is None && e@ == Failure::UnsupportedArch(arch@),
        },
{
    let mut names: Vec<String> = Vec::new();
    if *arch == *"aarch64" {
        names.push("arm64".to_owned());
        names.push("aarch64".to_owned());
        assert(texts(names@) =~= seq!["arm64"@, "aarch64"@]);
    } else if *arch == *"x86_64" {
        names.push("x64".to_owned());
        names.push("x86_64".to_owned());
        names.push("amd64".to_owned());
        assert(texts(names@) =~= seq!["x64"@, "x86_64"@, "amd64"@]);
    } else if *arch == *"arm" {
        names.push("arm".to_owned());
        assert(texts(names@) =~= seq!["arm"@]);
    } else {
        return Err(Failure::UnsupportedArch(arch.to_owned()));
    }
    Ok(names)
}

/// The forms that a package can take on a platform, the preferred one first.
pub fn render_package_candidates(
    package: &Package,
    config: &Config,
    platform: &Platform,
) -> (r: Result<Vec<RenderedPackage>, Error>)
    ensures
        rendered_outcome(r) == candidates(
            package@,
            config.definitions.by_os@,
            platform.os@,
            platform.arch@,
        ),
{
    let os = match current_os_key(platform.os.as_str()) {
        Ok(key) => key,
        Err(e) => {
            return Err(e);
        },
    };
    let definitions = match config.definitions.by_os.get(os.as_str()) {
        Some(sets) => sets,
        None => {
            return Err(Failure::MissingOs(os));
        },
    };
    let names = match current_arch_aliases(platform.arch.as_str()) {
        Ok(names) => names,
        Err(e) => {
            return Err(e);
        },
    };
    let mut out: Vec<RenderedPackage> = Vec::new();
    let ghost all = texts(names@);
    let ghost sets = views(definitions@);
    let ghost f = arch_step(package@, os@, sets);
    assert(gather(all.take(0), f) == Ok::<Seq<RenderedView>, Fault>(views(out@))) by {
        assert(views(out@) =~= Seq::<RenderedView>::empty());
    }
    for i in 0..names.len()
        invariant
            all == texts(names@),
            sets == views(definitions@),
            f == arch_step(package@, os@, sets),
            os@ == platform.os@,
            os_supported(os@),
            sets_for(config.definitions.by_os@, os@) == Some(sets),
            arch_names(platform.arch@) == Some(all),
            gather(all.take(i as int), f) == Ok::<Seq<RenderedView>, Fault>(views(out@)),
    {
        proof {
            lemma_gather_next(all, f, i as int);
        }
        match render_for_arch(package, definitions, os.as_str(), names[i].as_str()) {
            Err(e) => {
                return Err(e);
            },
            Ok(mut more) => {
                let ghost before = views(out@);
                let ghost added = views(more@);
                out.append(&mut more);
                assert(views(out@) =~= before + added);
            },
        }
    }
    assert(all.take(all.len() as int) =~= all);
    Ok(drop_repeats(out))
}

/// No two forms of a package have one artifact; each artifact that can be rendered is among them;
/// and the preferred form stays the first.
pub proof fn law_forms_distinct(all: Seq<RenderedView>)
    ensures
        artifacts(first_of_each(all)).no_duplicates(),
        artifacts(first_of_each(all)).to_set() == artifacts(all).to_set(),
        all.len() > 0 ==> first_of_each(all).len() > 0 && first_of_each(all)[0] == all[0],
        first_of_each(all).len() <= all.len(),
    decreases all.len(),
{
    let kept = artifacts(first_of_each(all));
    let names = artifacts(all);
    if all.len() == 0 {
        assert(kept =~= names);
    } else {
        let head = all.drop_last();
        let last = all.last();
        law_forms_distinct(head);
        let head_kept = artifacts(first_of_each(head));
        let head_names = artifacts(head);
        assert(names =~= head_names.push(last.artifact));
        assert(names.to_set() =~= head_names.to_set().insert(last.artifact)) by {
            broadcast use vstd::seq_lib::group_seq_properties;

            assert forall|x: Seq<char>|
                names.to_set().contains(x) <==> head_names.to_set().insert(last.artifact).contains(
                    x,
                ) by {}
        }
        if exists|i: int| 0 <= i < all.len() - 1 && (#[trigger] all[i]).artifact == last.artifact {
            let k = choose|i: int|
                0 <= i < all.len() - 1 && (#[trigger] all[i]).artifact == last.artifact;
            assert(head_names[k] == last.artifact);
            assert(head_names.to_set().contains(last.artifact));
            assert(names.to_set() =~= head_names.to_set());
            assert(head.len() > 0);
            assert(head[0] == all[0]);
        } else {
            assert(kept =~= head_kept.push(last.artifact));
            assert(!head_names.contains(last.artifact)) by {
                assert forall|i: int| 0 <= i < head_names.len() implies head_names[i]
                    != last.artifact by {
                    assert(all[i].artifact == head_names[i]);
                }
            }
            assert(!head_kept.contains(last.artifact)) by {
                if head_kept.contains(last.artifact) {
                    assert(head_kept.to_set().contains(last.artifact));
                    assert(head_names.to_set().contains(last.artifact));
                }
            }
            assert(kept.to_set() =~= head_kept.to_set().insert(last.artifact)) by {
                broadcast use vstd::seq_lib::group_seq_properties;

                assert forall|x: Seq<char>|
                    kept.to_set().contains(x) <==> head_kept.to_set().insert(
                        last.artifact,
                    ).contains(x) by {}
            }
            assert forall|i: int, j: int|
                0 <= i < kept.len() && 0 <= j < kept.len() && i != j implies kept[i]
                != kept[j] by {
                if i < head_kept.len() && j < head_kept.len() {
                    assert(head_kept[i] != head_kept[j]);
                } else if i < head_kept.len() {
                    assert(head_kept.contains(head_kept[i]));
                } else {
                    assert(head_kept.contains(head_kept[j]));
                }
            }
            if head.len() > 0 {
                assert(head[0] == all[0]);
            }
        }
    }
}

/// The values of a variable are tried in their order: the choices that it leads to are, one for
/// each value, the variables with that value, expanded.
pub proof fn law_values_in_order(key: Seq<char>, values: Seq<Seq<char>>, base: Vars)
    requires
        forall|i: int| 0 <= i < values.len() ==> expanded(#[trigger] values[i], base) is Ok,
    ensures
        defined(map![key => values], base) matches Ok(choices) && choices.len() == values.len()
            && forall|i: int|
            0 <= i < values.len() ==> #[trigger] choices[i] == base.insert(
                key,
                expanded(values[i], base)->Ok_0,
            ),
{
    let set = seq![(key, values)];
    assert(ascending(seq![key]));
    lemma_in_order(seq![key]);
    assert(map![key => values].dom() =~= seq![key].to_set()) by {
        assert(seq![key][0] == key);
    }
    assert(variables(map![key => values]) =~= set);
    let f = vars_step(key, values);
    let g = value_step(base, key);
    assert(set.drop_last() =~= Seq::<(Seq<char>, Seq<Seq<char>>)>::empty());
    let one = seq![base];
    assert(one.drop_last() =~= Seq::<Vars>::empty());
    lemma_all_fine(values, base, key);
    assert(gather(one.drop_last(), f) == Ok::<Seq<Vars>, Fault>(Seq::empty()));
    assert(f(base) == gather(values, g));
    let choices = gather(values, g)->Ok_0;
    assert(Seq::<Vars>::empty() + choices =~= choices);
    assert(gather(one, f) == Ok::<Seq<Vars>, Fault>(choices));
    assert(defined_in_turn(set.drop_last(), base) == Ok::<Seq<Vars>, Fault>(one));
    assert(defined_in_turn(set, base) == gather(one, f));
    assert forall|i: int| 0 <= i < values.len() implies (g(#[trigger] values[i]) matches Ok(s)
        ==> s.len() == 1) by {}
    lemma_gather_one_each(values, g);
    assert forall|i: int| 0 <= i < values.len() implies #[trigger] choices[i] == base.insert(
        key,
        expanded(values[i], base)->Ok_0,
    ) by {
        assert(g(values[i]) == Ok::<Seq<Vars>, Fault>(seq![choices[i]]));
        assert(seq![choices[i]][0] == choices[i]);
    }
}

proof fn lemma_all_fine(values: Seq<Seq<char>>, base: Vars, key: Seq<char>)
    requires
        forall|i: int| 0 <= i < values.len() ==> expanded(#[trigger] values[i], base) is Ok,
    ensures
        gather(values, value_step(base, key)) is Ok,
    decreases values.len(),
{
    if values.len() > 0 {
        let head = values.drop_last();
        assert forall|i: int| 0 <= i < head.len() implies expanded(
            #[trigger] head[i],
            base,
        ) is Ok by {
            assert(head[i] == values[i]);
        }
        lemma_all_fine(head, base, key);
        assert(expanded(values[values.len() - 1], base) is Ok);
    }
}

/// The forms that a package can take on a platform have artifacts that all differ.
pub proof fn law_candidates_differ(
    package: PackageView,
    by_os: Map<Seq<char>, Vec<DefinitionSet>>,
    os: Seq<char>,
    arch: Seq<char>,
)
    ensures
        candidates(package, by_os, os, arch) matches Ok(forms) ==> artifacts(
            forms,
        ).no_duplicates(),
{
    if candidates(package, by_os, os, arch) is Ok {
        let sets = sets_for(by_os, os)->0;
        let names = arch_names(arch)->0;
        law_forms_distinct(gather(names, arch_step(package, os, sets))->Ok_0);
    }
}

/// A rendered package has the expansion of the configured artifact, the configured way to install,
/// and as many files as are configured, each with the expansions of its name and of its path. It can
/// be rendered exactly where all these can be expanded, and fails as the first of them that cannot.
pub proof fn law_rendered(package: PackageView, vars: Vars)
    ensures
        match rendered(package, vars) {
            Ok(r) => {
                &&& expanded(package.artifact, vars) == Ok::<Seq<char>, Fault>(r.artifact)
                &&& r.install == package.install
                &&& r.files.len() == package.files.len()
                &&& forall|i: int|
                    0 <= i < package.files.len() ==> {
                        &&& expanded((#[trigger] package.files[i]).name, vars) == Ok::<
                            Seq<char>,
                            Fault,
                        >(r.files[i].name)
                        &&& expanded(package.files[i].path, vars) == Ok::<Seq<char>, Fault>(
                            r.files[i].path,
                        )
                    }
            },
            Err(e) => {
                ||| expanded(package.artifact, vars) == Err::<Seq<char>, Fault>(e)
                ||| expanded(package.artifact, vars) is Ok && exists|i: int|
                    0 <= i < package.files.len() && (expanded(
                        (#[trigger] package.files[i]).name,
                        vars,
                    ) == Err::<Seq<char>, Fault>(e) || (expanded(
                        package.files[i].name,
                        vars,
                    ) is Ok && expanded(package.files[i].path, vars) == Err::<Seq<char>, Fault>(
                        e,
                    ))) && forall|j: int|
                        0 <= j < i ==> expanded((#[trigger] package.files[j]).name, vars) is Ok
                            && expanded(package.files[j].path, vars) is Ok
            },
        },
{
    let f = file_step(vars);
    lemma_gather_first_failure(package.files, f);
    if let Ok(r) = rendered(package, vars) {
        lemma_gather_one_each(package.files, f);
        assert forall|i: int| 0 <= i < package.files.len() implies {
            &&& expanded((#[trigger] package.files[i]).name, vars) == Ok::<Seq<char>, Fault>(
                r.files[i].name,
            )
            &&& expanded(package.files[i].path, vars) == Ok::<Seq<char>, Fault>(r.files[i].path)
        } by {
            assert(f(package.files[i]) == Ok::<Seq<FileView>, Fault>(seq![r.files[i]]));
            assert(seq![r.files[i]][0] == r.files[i]);
        }
    } else if expanded(package.artifact, vars) is Ok {
        let e = gather(package.files, f)->Err_0;
        let i = choose|i: int|
            0 <= i < package.files.len() && f(#[trigger] package.files[i]) == Err::<
                Seq<FileView>,
                Fault,
            >(e) && forall|j: int| 0 <= j < i ==> f(#[trigger] package.files[j]) is Ok;
        assert forall|j: int| 0 <= j < i implies expanded(
            (#[trigger] package.files[j]).name,
            vars,
        ) is Ok && expanded(package.files[j].path, vars) is Ok by {
            assert(f(package.files[j]) is Ok);
        }
    }
}

/// The variables of a set of definitions come in the order of their names, each once and with its
/// values.
pub proof fn law_variables(set: Definition, name: Seq<char>)
    requires
        set.dom().finite(),
    ensures
        ({
            let all = variables(set);
            &&& forall|i: int, j: int|
                0 <= i < j < all.len() ==> precedes((#[trigger] all[i]).0, (#[trigger] all[j]).0)
            &&& forall|i: int| 0 <= i < all.len() ==> (#[trigger] all[i]).1 == set[all[i].0]
            &&& set.dom().contains(name) <==> exists|i: int|
                0 <= i < all.len() && (#[trigger] all[i]).0 == name
        }),
{
    let all = variables(set);
    let names = in_order(set.dom());
    lemma_in_order_of(set.dom());
    assert forall|i: int, j: int| 0 <= i < j < all.len() implies precedes(
        (#[trigger] all[i]).0,
        (#[trigger] all[j]).0,
    ) by {
        assert(precedes(names[i], names[j]));
    }
    if set.dom().contains(name) {
        assert(names.to_set().contains(name));
        let k = choose|k: int| 0 <= k < names.len() && names[k] == name;
        assert(all[k].0 == name);
    }
    if exists|i: int| 0 <= i < all.len() && (#[trigger] all[i]).0 == name {
        let k = choose|i: int| 0 <= i < all.len() && (#[trigger] all[i]).0 == name;
        assert(names[k] == name);
        assert(names.to_set().contains(name));
    }
}

proof fn lemma_gather_blocks<A, B>(items: Seq<A>, f: spec_fn(A) -> Result<Seq<B>, Fault>, m: nat)
    requires
        forall|i: int|
            0 <= i < items.len() ==> (f(#[trigger] items[i]) matches Ok(s) && s.len() == m),
    ensures
        gather(items, f) is Ok,
        gather(items, f)->Ok_0.len() == items.len() * m,
        forall|i: int, j: int|
            0 <= i < items.len() && 0 <= j < m ==> 0 <= i * m + j < items.len() * m && gather(
                items,
                f,
            )->Ok_0[#[trigger] (i * m + j)] == f(items[i])->Ok_0[j],
    decreases items.len(),
{
    if items.len() > 0 {
        let head = items.drop_last();
        let n = items.len() - 1;
        assert forall|i: int| 0 <= i < head.len() implies (f(#[trigger] head[i]) matches Ok(s)
            && s.len() == m) by {
            assert(head[i] == items[i]);
        }
        lemma_gather_blocks(head, f, m);
        assert(f(items[n]) is Ok);
        assert((n + 1) * m == n * m + m) by (nonlinear_arith);
        assert forall|i: int, j: int| 0 <= i < items.len() && 0 <= j < m implies 0 <= i * m + j
            < items.len() * m && gather(items, f)->Ok_0[#[trigger] (i * m + j)] == f(
            items[i],
        )->Ok_0[j] by {
            if i < n {
                assert(head[i] == items[i]);
                assert(i * m + j < n * m);
            } else {
                assert(i * m == n * m);
                assert(0 <= n * m) by (nonlinear_arith)
                    requires
                        0 <= n,
                        0 <= m,
                ;
            }
        }
    }
}

/// One variable more multiplies the choices: for each choice of values for the variables before, in
/// their order, there is one for each of its values, in their order, with that value, expanded by
/// what was chosen before. Without variables there is one choice.
pub proof fn law_choices_multiply(
    set: Seq<(Seq<char>, Seq<Seq<char>>)>,
    key: Seq<char>,
    values: Seq<Seq<char>>,
    base: Vars,
)
    requires
        defined_in_turn(set, base) matches Ok(before) && forall|i: int, j: int|
            #![trigger before[i], values[j]]
            0 <= i < before.len() && 0 <= j < values.len() ==> expanded(
                values[j],
                before[i],
            ) is Ok,
    ensures
        defined_in_turn(Seq::empty(), base) == Ok::<Seq<Vars>, Fault>(seq![base]),
        ({
            let before = defined_in_turn(set, base)->Ok_0;
            defined_in_turn(set.push((key, values)), base) matches Ok(after) && after.len()
                == before.len() * values.len() && forall|i: int, j: int|
                0 <= i < before.len() && 0 <= j < values.len()
                    ==> after[#[trigger] (i * values.len() + j)] == before[i].insert(
                    key,
                    expanded(values[j], before[i])->Ok_0,
                )
        }),
{
    let before = defined_in_turn(set, base)->Ok_0;
    let f = vars_step(key, values);
    let all = set.push((key, values));
    assert(all.drop_last() =~= set);
    assert forall|i: int| 0 <= i < before.len() implies (f(#[trigger] before[i]) matches Ok(s)
        && s.len() == values.len()) by {
        lemma_values_of(before[i], key, values);
    }
    lemma_gather_blocks(before, f, values.len());
    let after = gather(before, f)->Ok_0;
    assert forall|i: int, j: int| 0 <= i < before.len() && 0 <= j < values.len() implies after[
    #[trigger] (i * values.len() + j)] == before[i].insert(
        key,
        expanded(values[j], before[i])->Ok_0,
    ) by {
        assert(f(before[i]) is Ok);
        lemma_values_of(before[i], key, values);
    }
}

proof fn lemma_values_of(vars: Vars, key: Seq<char>, values: Seq<Seq<char>>)
    requires
        forall|j: int| 0 <= j < values.len() ==> expanded(#[trigger] values[j], vars) is Ok,
    ensures
        vars_step(key, values)(vars) matches Ok(s) && s.len() == values.len() && forall|j: int|
            0 <= j < values.len() ==> #[trigger] s[j] == vars.insert(
                key,
                expanded(values[j], vars)->Ok_0,
            ),
{
    let g = value_step(vars, key);
    lemma_all_fine(values, vars, key);
    assert forall|i: int| 0 <= i < values.len() implies (g(#[trigger] values[i]) matches Ok(s)
        ==> s.len() == 1) by {}
    lemma_gather_one_each(values, g);
    let s = gather(values, g)->Ok_0;
    assert forall|j: int| 0 <= j < values.len() implies #[trigger] s[j] == vars.insert(
        key,
        expanded(values[j], vars)->Ok_0,
    ) by {
        assert(g(values[j]) == Ok::<Seq<Vars>, Fault>(seq![s[j]]));
        assert(seq![s[j]][0] == s[j]);
    }
}

/// The variables that are there before any definition are the system and the architecture.
pub proof fn law_base_vars(os: Seq<char>, arch: Seq<char>, name: Seq<char>)
    ensures
        base_vars(os, arch).dom().contains(name) <==> name == "os"@ || name == "arch"@,
        base_vars(os, arch)["os"@] == os,
        base_vars(os, arch)["arch"@] == arch,
{
    reveal_strlit("os");
    reveal_strlit("arch");
    assert("os"@.len() != "arch"@.len());
}

/// Three systems are supported, and three architectures, each with its names in the order of
/// preference.
pub proof fn law_platforms(os: Seq<char>, arch: Seq<char>)
    ensures
        os_supported(os) <==> seq!["linux"@, "windows"@, "macos"@].contains(os),
        arch_names(arch) is Some <==> seq!["aarch64"@, "x86_64"@, "arm"@].contains(arch),
        arch == "aarch64"@ ==> arch_names(arch) == Some(seq!["arm64"@, "aarch64"@]),
        arch == "x86_64"@ ==> arch_names(arch) == Some(seq!["x64"@, "x86_64"@, "amd64"@]),
        arch == "arm"@ ==> arch_names(arch) == Some(seq!["arm"@]),
        style_of(os) == PathStyle::Windows <==> os == "windows"@,
{
    reveal_strlit("aarch64");
    reveal_strlit("x86_64");
    reveal_strlit("arm");
    assert("aarch64"@.len() == 7 && "x86_64"@.len() == 6 && "arm"@.len() == 3);
    let systems = seq!["linux"@, "windows"@, "macos"@];
    assert(systems[0] == "linux"@ && systems[1] == "windows"@ && systems[2] == "macos"@);
    let machines = seq!["aarch64"@, "x86_64"@, "arm"@];
    assert(machines[0] == "aarch64"@ && machines[1] == "x86_64"@ && machines[2] == "arm"@);
}

/// Where a form of a package comes from: the place of the name of the architecture, that of the set
/// of definitions, and that of the choice of values.
pub type Origin = (int, int, int);

/// The form comes from there.
pub open spec fn comes_from(
    package: PackageView,
    sets: Seq<Definition>,
    os: Seq<char>,
    names: Seq<Seq<char>>,
    form: RenderedView,
    at: Origin,
) -> bool {
    &&& 0 <= at.0 < names.len()
    &&& 0 <= at.1 < sets.len()
    &&& defined(sets[at.1], base_vars(os, names[at.0])) matches Ok(choices) && 0 <= at.2
        < choices.len() && rendered(package, choices[at.2]) == Ok::<RenderedView, Fault>(form)
}

/// The origin `a` is preferred to `b`: by the name of the architecture, then by the set of
/// definitions, then by the choice of values.
pub open spec fn is_preferred(a: Origin, b: Origin) -> bool {
    a.0 < b.0 || (a.0 == b.0 && (a.1 < b.1 || (a.1 == b.1 && a.2 < b.2)))
}

/// The place in the list of all forms of the one that comes from there.
spec fn place_of_origin(
    package: PackageView,
    sets: Seq<Definition>,
    os: Seq<char>,
    names: Seq<Seq<char>>,
    at: Origin,
) -> int {
    yielded_before(names, arch_step(package, os, sets), at.0) + yielded_before(
        sets,
        definition_step(package, os, names[at.0]),
        at.1,
    ) + at.2
}

proof fn lemma_one_form_each(package: PackageView, choices: Seq<Vars>)
    requires
        gather(choices, render_step(package)) is Ok,
    ensures
        gather(choices, render_step(package))->Ok_0.len() == choices.len(),
        forall|c: int|
            0 <= c < choices.len() ==> rendered(package, #[trigger] choices[c]) == Ok::<
                RenderedView,
                Fault,
            >(gather(choices, render_step(package))->Ok_0[c]),
{
    let h = render_step(package);
    let forms = gather(choices, h)->Ok_0;
    lemma_gather_one_each(choices, h);
    assert forall|c: int| 0 <= c < choices.len() implies rendered(package, #[trigger] choices[c])
        == Ok::<RenderedView, Fault>(forms[c]) by {
        assert(h(choices[c]) == Ok::<Seq<RenderedView>, Fault>(seq![forms[c]]));
        assert(seq![forms[c]][0] == forms[c]);
    }
}

/// Each of all forms comes from somewhere, and stands in the place of its origin.
proof fn lemma_origin(
    package: PackageView,
    sets: Seq<Definition>,
    os: Seq<char>,
    names: Seq<Seq<char>>,
    p: int,
) -> (at: Origin)
    requires
        gather(names, arch_step(package, os, sets)) is Ok,
        0 <= p < gather(names, arch_step(package, os, sets))->Ok_0.len(),
    ensures
        comes_from(
            package,
            sets,
            os,
            names,
            gather(names, arch_step(package, os, sets))->Ok_0[p],
            at,
        ),
        p == place_of_origin(package, sets, os, names, at),
{
    let f = arch_step(package, os, sets);
    let (a, p1) = lemma_gather_place(names, f, p);
    let g = definition_step(package, os, names[a]);
    assert(f(names[a]) == gather(sets, g));
    let (d, c) = lemma_gather_place(sets, g, p1);
    let choices = defined(sets[d], base_vars(os, names[a]))->Ok_0;
    lemma_one_form_each(package, choices);
    assert(choices[c] == choices[c]);
    (a, d, c)
}

/// What comes from an origin is among all forms, in the place of its origin.
proof fn lemma_at_origin(
    package: PackageView,
    sets: Seq<Definition>,
    os: Seq<char>,
    names: Seq<Seq<char>>,
    form: RenderedView,
    at: Origin,
)
    requires
        gather(names, arch_step(package, os, sets)) is Ok,
        comes_from(package, sets, os, names, form, at),
    ensures
        0 <= place_of_origin(package, sets, os, names, at) < gather(
            names,
            arch_step(package, os, sets),
        )->Ok_0.len(),
        gather(names, arch_step(package, os, sets))->Ok_0[place_of_origin(
            package,
            sets,
            os,
            names,
            at,
        )] == form,
{
    let f = arch_step(package, os, sets);
    let (a, d, c) = at;
    let g = definition_step(package, os, names[a]);
    lemma_gather_first_failure(names, f);
    assert(f(names[a]) is Ok);
    assert(f(names[a]) == gather(sets, g));
    lemma_gather_first_failure(sets, g);
    assert(g(sets[d]) is Ok);
    let choices = defined(sets[d], base_vars(os, names[a]))->Ok_0;
    lemma_one_form_each(package, choices);
    assert(rendered(package, choices[c]) == Ok::<RenderedView, Fault>(g(sets[d])->Ok_0[c]));
    lemma_gather_at(sets, g, d, c);
    lemma_gather_at(names, f, a, yielded_before(sets, g, d) + c);
}

/// Preferred origins have earlier places.
proof fn lemma_preferred_earlier(
    package: PackageView,
    sets: Seq<Definition>,
    os: Seq<char>,
    names: Seq<Seq<char>>,
    x: RenderedView,
    y: RenderedView,
    a: Origin,
    b: Origin,
)
    requires
        gather(names, arch_step(package, os, sets)) is Ok,
        comes_from(package, sets, os, names, x, a),
        comes_from(package, sets, os, names, y, b),
        is_preferred(a, b),
    ensures
        place_of_origin(package, sets, os, names, a) < place_of_origin(
            package,
            sets,
            os,
            names,
            b,
        ),
{
    let f = arch_step(package, os, sets);
    let ga = definition_step(package, os, names[a.0]);
    let gb = definition_step(package, os, names[b.0]);
    lemma_gather_first_failure(names, f);
    assert(f(names[a.0]) is Ok && f(names[b.0]) is Ok);
    assert(f(names[a.0]) == gather(sets, ga) && f(names[b.0]) == gather(sets, gb));
    lemma_gather_first_failure(sets, ga);
    lemma_gather_first_failure(sets, gb);
    assert(ga(sets[a.1]) is Ok && gb(sets[b.1]) is Ok);
    lemma_one_form_each(package, defined(sets[a.1], base_vars(os, names[a.0]))->Ok_0);
    lemma_one_form_each(package, defined(sets[b.1], base_vars(os, names[b.0]))->Ok_0);
    lemma_gather_at(sets, ga, a.1, a.2);
    lemma_gather_at(sets, gb, b.1, b.2);
    if a.0 < b.0 {
        lemma_gather_order(names, f, a.0, b.0);
    } else if a.1 < b.1 {
        lemma_gather_order(sets, ga, a.1, b.1);
    }
}

/// The places of the forms that are the first with their artifact.
spec fn firsts(all: Seq<RenderedView>) -> Seq<int>
    decreases all.len(),
{
    if all.len() == 0 {
        Seq::empty()
    } else if exists|i: int|
        0 <= i < all.len() - 1 && (#[trigger] all[i]).artifact == all.last().artifact {
        firsts(all.drop_last())
    } else {
        firsts(all.drop_last()).push(all.len() - 1)
    }
}

proof fn lemma_firsts(all: Seq<RenderedView>)
    ensures
        firsts(all).len() == first_of_each(all).len(),
        forall|i: int|
            0 <= i < firsts(all).len() ==> {
                &&& 0 <= #[trigger] firsts(all)[i] < all.len()
                &&& first_of_each(all)[i] == all[firsts(all)[i]]
                &&& forall|k: int|
                    0 <= k < firsts(all)[i] ==> (#[trigger] all[k]).artifact != all[firsts(
                        all,
                    )[i]].artifact
            },
        forall|i: int, j: int|
            0 <= i < j < firsts(all).len() ==> #[trigger] firsts(all)[i] < #[trigger] firsts(
                all,
            )[j],
    decreases all.len(),
{
    if all.len() > 0 {
        let head = all.drop_last();
        lemma_firsts(head);
        let before = firsts(head);
        let here = firsts(all);
        assert forall|i: int| 0 <= i < here.len() implies {
            &&& 0 <= #[trigger] here[i] < all.len()
            &&& first_of_each(all)[i] == all[here[i]]
            &&& forall|k: int|
                0 <= k < here[i] ==> (#[trigger] all[k]).artifact != all[here[i]].artifact
        } by {
            if i < before.len() {
                assert(here[i] == before[i]);
                assert(all[here[i]] == head[before[i]]);
                assert forall|k: int| 0 <= k < here[i] implies (#[trigger] all[k]).artifact
                    != all[here[i]].artifact by {
                    assert(head[k] == all[k]);
                }
            }
        }
        assert forall|i: int, j: int| 0 <= i < j < here.len() implies #[trigger] here[i]
            < #[trigger] here[j] by {
            assert(here[i] == before[i]);
            if j < before.len() {
                assert(here[j] == before[j]);
            }
        }
    }
}

/// The forms that a package can take on a supported platform: each form comes from a name of the
/// architecture, a set of definitions and a choice of values, and none preferred to that has its
/// artifact; whatever comes from anywhere has its artifact among the forms; and the forms stand in
/// the order of preference.
pub proof fn law_candidates_by_preference(
    package: PackageView,
    by_os: Map<Seq<char>, Vec<DefinitionSet>>,
    os: Seq<char>,
    arch: Seq<char>,
    forms: Seq<RenderedView>,
    other: RenderedView,
    from: Origin,
)
    requires
        candidates(package, by_os, os, arch) == Ok::<Seq<RenderedView>, Fault>(forms),
    ensures
        by_os.dom().contains(os),
        arch_names(arch) is Some,
        ({
            let sets = views(by_os[os]@);
            let names = arch_names(arch)->0;
            &&& comes_from(package, sets, os, names, other, from) ==> exists|i: int|
                0 <= i < forms.len() && (#[trigger] forms[i]).artifact == other.artifact
            &&& exists|origins: Seq<Origin>|
                #![trigger origins.len()]
                origins.len() == forms.len() && (forall|i: int|
                    0 <= i < forms.len() ==> comes_from(
                        package,
                        sets,
                        os,
                        names,
                        forms[i],
                        #[trigger] origins[i],
                    )) && (forall|i: int, j: int|
                    0 <= i < j < forms.len() ==> is_preferred(
                        #[trigger] origins[i],
                        #[trigger] origins[j],
                    )) && (forall|i: int|
                    0 <= i < forms.len() && comes_from(package, sets, os, names, other, from)
                        && is_preferred(from, #[trigger] origins[i]) ==> other.artifact
                        != forms[i].artifact)
        }),
{
    let sets = views(by_os[os]@);
    let names = arch_names(arch)->0;
    let all = gather(names, arch_step(package, os, sets))->Ok_0;
    lemma_firsts(all);
    law_forms_distinct(all);
    let places = firsts(all);
    let origins = Seq::new(
        forms.len(),
        |i: int| choose|at: Origin|
            #![trigger comes_from(package, sets, os, names, forms[i], at)]
            comes_from(package, sets, os, names, forms[i], at) && places[i] == place_of_origin(
                package,
                sets,
                os,
                names,
                at,
            ),
    );
    assert forall|i: int| 0 <= i < forms.len() implies comes_from(
        package,
        sets,
        os,
        names,
        forms[i],
        #[trigger] origins[i],
    ) && places[i] == place_of_origin(package, sets, os, names, origins[i]) by {
        assert(0 <= places[i] < all.len());
        let at = lemma_origin(package, sets, os, names, places[i]);
        assert(comes_from(package, sets, os, names, forms[i], at));
    }
    assert forall|i: int, j: int| 0 <= i < j < forms.len() implies is_preferred(
        #[trigger] origins[i],
        #[trigger] origins[j],
    ) by {
        let a = origins[i];
        let b = origins[j];
        assert(places[i] < places[j]);
        if is_preferred(b, a) {
            lemma_preferred_earlier(package, sets, os, names, forms[j], forms[i], b, a);
        }
    }
    if comes_from(package, sets, os, names, other, from) {
        lemma_at_origin(package, sets, os, names, other, from);
        let p = place_of_origin(package, sets, os, names, from);
        assert(artifacts(all)[p] == other.artifact);
        assert(artifacts(all).to_set().contains(other.artifact));
        assert(artifacts(forms).to_set().contains(other.artifact));
        let i = choose|i: int|
            0 <= i < artifacts(forms).len() && artifacts(forms)[i] == other.artifact;
        assert(forms[i].artifact == other.artifact);
        assert forall|i: int|
            0 <= i < forms.len() && is_preferred(from, #[trigger] origins[i]) implies other.artifact
            != forms[i].artifact by {
            lemma_preferred_earlier(package, sets, os, names, other, forms[i], from, origins[i]);
            assert(p < places[i]);
            assert(all[p].artifact != all[places[i]].artifact);
        }
    }
    assert(origins.len() == forms.len());
}

/// Why there are no forms: the system is not supported, or nothing is defined for it, or the
/// architecture is not supported; only a platform that is supported and defined can fail otherwise.
pub proof fn law_no_candidates(
    package: PackageView,
    by_os: Map<Seq<char>, Vec<DefinitionSet>>,
    os: Seq<char>,
    arch: Seq<char>,
)
    ensures
        !os_supported(os) ==> candidates(package, by_os, os, arch) == Err::<
            Seq<RenderedView>,
            Fault,
        >(Failure::UnsupportedOs(os)),
        os_supported(os) && !by_os.dom().contains(os) ==> candidates(package, by_os, os, arch)
            == Err::<Seq<RenderedView>, Fault>(Failure::MissingOs(os)),
        os_supported(os) && by_os.dom().contains(os) && arch_names(arch) is None ==> candidates(
            package,
            by_os,
            os,
            arch,
        ) == Err::<Seq<RenderedView>, Fault>(Failure::UnsupportedArch(arch)),
{
}

/// The choices from a set of definitions are those for all its variables, in the order of their
/// names.
pub proof fn law_all_variables(set: Definition, base: Vars, e: Error, choices: Vec<TextMap>, forms:
    Vec<RenderedPackage>)
    ensures
        defined(set, base) == defined_in_turn(variables(set), base),
        variables(set).len() == in_order(set.dom()).len(),
        choices_outcome(Ok(choices)) == Ok::<Seq<Vars>, Fault>(views(choices@)),
        choices_outcome(Err(e)) == Err::<Seq<Vars>, Fault>(e@),
        rendered_outcome(Ok(forms)) == Ok::<Seq<RenderedView>, Fault>(views(forms@)),
        rendered_outcome(Err(e)) == Err::<Seq<RenderedView>, Fault>(e@),
{
}

/// On a platform that is supported and defined, the forms fail only where the values of some set of
/// definitions cannot be expanded, or the package cannot be rendered by some choice of values, and
/// as these do.
pub proof fn law_failed_candidates(
    package: PackageView,
    by_os: Map<Seq<char>, Vec<DefinitionSet>>,
    os: Seq<char>,
    arch: Seq<char>,
    e: Fault,
)
    requires
        os_supported(os),
        by_os.dom().contains(os),
        arch_names(arch) is Some,
        candidates(package, by_os, os, arch) == Err::<Seq<RenderedView>, Fault>(e),
    ensures
        exists|a: int, d: int|
            #![trigger arch_names(arch)->0[a], by_os[os]@[d]]
            {
                let base = base_vars(os, arch_names(arch)->0[a]);
                &&& 0 <= a < arch_names(arch)->0.len()
                &&& 0 <= d < by_os[os]@.len()
                &&& match defined(by_os[os]@[d]@, base) {
                    Err(f) => f == e,
                    Ok(choices) => exists|c: int|
                        0 <= c < choices.len() && rendered(package, #[trigger] choices[c])
                            == Err::<RenderedView, Fault>(e),
                }
            },
{
    let sets = views(by_os[os]@);
    let names = arch_names(arch)->0;
    let f = arch_step(package, os, sets);
    lemma_gather_first_failure(names, f);
    let a = choose|a: int|
        0 <= a < names.len() && f(#[trigger] names[a]) == Err::<Seq<RenderedView>, Fault>(e)
            && forall|j: int| 0 <= j < a ==> f(#[trigger] names[j]) is Ok;
    let g = definition_step(package, os, names[a]);
    assert(gather(sets, g) == Err::<Seq<RenderedView>, Fault>(e));
    lemma_gather_first_failure(sets, g);
    let d = choose|d: int|
        0 <= d < sets.len() && g(#[trigger] sets[d]) == Err::<Seq<RenderedView>, Fault>(e)
            && forall|j: int| 0 <= j < d ==> g(#[trigger] sets[j]) is Ok;
    let base = base_vars(os, names[a]);
    assert(sets[d] == by_os[os]@[d]@);
    if let Ok(choices) = defined(sets[d], base) {
        let h = render_step(package);
        lemma_gather_first_failure(choices, h);
        let c = choose|c: int|
            0 <= c < choices.len() && h(#[trigger] choices[c]) == Err::<Seq<RenderedView>, Fault>(e)
                && forall|j: int| 0 <= j < c ==> h(#[trigger] choices[j]) is Ok;
        assert(rendered(package, choices[c]) == Err::<RenderedView, Fault>(e));
    }
    assert(names[a] == arch_names(arch)->0[a]);
}

} // verus!

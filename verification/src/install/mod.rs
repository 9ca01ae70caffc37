//! Installing: what is recorded of it, and where things go.

pub mod replace;
pub mod tree;

use crate::failure::{Error, Failure, Fault};
use crate::order::TextMap;
use crate::paths::{
    has_drive, join_path, lemma_name_below, path_below, start_of, PathStyle,
};
use crate::text::{has_char, texts};
use vstd::prelude::*;

verus! {

/// What is installed: the packages, each with the tag of its release.
#[derive(Debug, PartialEq, Eq)]
pub struct LockFile {
    pub packages: TextMap,
}

impl Default for LockFile {
    /// Nothing is installed.
    fn default() -> (r: LockFile)
        ensures
            r.packages@ == Map::<Seq<char>, Seq<char>>::empty(),
    {
        LockFile { packages: TextMap::new() }
    }
}

/// The package is recorded with this tag.
pub open spec fn recorded(
    lock: Map<Seq<char>, Seq<char>>,
    package: Seq<char>,
    tag: Seq<char>,
) -> bool {
    lock.dom().contains(package) && lock[package] == tag
}

/// The package is recorded with this tag, and that is to be heeded.
pub open spec fn locked_latest(
    lock: Map<Seq<char>, Seq<char>>,
    package: Seq<char>,
    tag: Seq<char>,
    force: bool,
) -> bool {
    !force && recorded(lock, package, tag)
}

/// Whether the latest release of a package is installed, and that is to be heeded.
pub fn is_locked_latest(lock: &LockFile, package_name: &str, latest_tag: &str, force: bool) -> (r:
    bool)
    ensures
        r == locked_latest(lock.packages@, package_name@, latest_tag@, force),
{
    if force {
        return false;
    }
    match lock.packages.get(package_name) {
        Some(version) => *version.as_str() == *latest_tag,
        None => false,
    }
}

/// Records that a release of a package was installed; tells whether that is news, so that the record
/// has to be saved.
pub fn record_successful_install(lock: &mut LockFile, package_name: &str, tag_name: &str) -> (r:
    bool)
    ensures
        final(lock).packages@ == old(lock).packages@.insert(package_name@, tag_name@),
        r == !recorded(old(lock).packages@, package_name@, tag_name@),
{
    match lock.packages.insert(package_name.to_owned(), tag_name.to_owned()) {
        Some(before) => *before.as_str() != *tag_name,
        None => true,
    }
}

/// What was recorded is found from then on, unless it is not to be heeded; recording it again is no
/// news; and what is recorded of other packages does not change.
pub proof fn law_lock_remembers(
    lock: Map<Seq<char>, Seq<char>>,
    package: Seq<char>,
    tag: Seq<char>,
    other: Seq<char>,
    other_tag: Seq<char>,
)
    ensures
        locked_latest(lock.insert(package, tag), package, tag, false),
        !locked_latest(lock.insert(package, tag), package, tag, true),
        recorded(lock.insert(package, tag), package, tag),
        lock.insert(package, tag).insert(package, tag) == lock.insert(package, tag),
        package == other && tag != other_tag ==> !recorded(
            lock.insert(package, tag),
            other,
            other_tag,
        ),
        package != other ==> recorded(lock.insert(package, tag), other, other_tag) == recorded(
            lock,
            other,
            other_tag,
        ),
{
    assert(lock.insert(package, tag).insert(package, tag) =~= lock.insert(package, tag));
}

/// The directory that a package is installed in.
pub open spec fn package_dir(
    style: PathStyle,
    install_dir: Seq<char>,
    package: Seq<char>,
) -> Seq<char> {
    path_below(style, path_below(style, install_dir, "packages"@), package)
}

/// The directory that a package is installed in.
pub fn package_install_dir(install_dir: &str, package_name: &str, style: PathStyle) -> (r: String)
    ensures
        r@ == package_dir(style, install_dir@, package_name@),
{
    let packages = join_path(install_dir, "packages", style);
    join_path(packages.as_str(), package_name, style)
}

/// The name can be that of a directory: it leads neither nowhere, nor up, nor down.
pub open spec fn plain_name(name: Seq<char>) -> bool {
    name.len() > 0 && name != "."@ && name != ".."@ && !name.contains('/') && !name.contains('\\')
}

/// Checks that the name of a package can be that of a directory.
pub fn validate_package_name(package_name: &str) -> (r: Result<(), Error>)
    ensures
        match r {
            Ok(_) => plain_name(package_name@),
            Err(e) => !plain_name(package_name@) && e@ == Failure::UnsafeName(package_name@),
        },
{
    if package_name.is_empty() || *package_name == *"." || *package_name == *".." || has_char(
        package_name,
        '/',
    ) || has_char(package_name, '\\') {
        Err(Failure::UnsafeName(package_name.to_owned()))
    } else {
        Ok(())
    }
}

/// A package with a plain name is installed directly below the directory of packages, and packages
/// with different names are installed apart. Left aside are names that start with a drive, where
/// drives have a meaning.
pub proof fn law_package_dirs_apart(
    style: PathStyle,
    install_dir: Seq<char>,
    a: Seq<char>,
    b: Seq<char>,
)
    requires
        plain_name(a),
        plain_name(b),
        style == PathStyle::Windows ==> !has_drive(a) && !has_drive(b),
    ensures
        package_dir(style, install_dir, a) == start_of(
            style,
            path_below(style, install_dir, "packages"@),
        ) + a,
        a != b ==> package_dir(style, install_dir, a) != package_dir(style, install_dir, b),
{
    let dir = path_below(style, install_dir, "packages"@);
    let start = start_of(style, dir);
    lemma_name_below(style, dir, a);
    lemma_name_below(style, dir, b);
    assert((start + a).skip(start.len() as int) =~= a);
    assert((start + b).skip(start.len() as int) =~= b);
}

/// The permissions of an installed program.
pub const PROGRAM_MODE: u32 = 0o755;

/// The permissions to give to a file of a package: those of the artifact for owner, group and
/// others, where it records them.
pub fn package_file_mode(mode: Option<u32>) -> (r: Option<u32>)
    ensures
        r == match mode {
            Some(bits) => Some(bits & 0o777u32),
            None => None,
        },
{
    match mode {
        Some(bits) => Some(bits & 0o777u32),
        None => None,
    }
}

/// The permissions to give to a file that a link leads to: as they are where somebody may execute
/// it, and else those of a program.
pub open spec fn executable_bits(mode: u32) -> Option<u32> {
    if mode & 0o111u32 == 0 {
        Some((mode & !0o777u32) | 0o755u32)
    } else {
        None
    }
}

/// The permissions that a file that a link leads to has to be given, if any; that it has to be a
/// file.
pub fn link_target_mode(target: &str, is_file: bool, mode: u32) -> (r: Result<Option<u32>, Error>)
    ensures
        match r {
            Ok(bits) => is_file && bits == executable_bits(mode),
            Err(e) => !is_file && e@ == Failure::NotAFile(target@),
        },
{
    if !is_file {
        return Err(Failure::NotAFile(target.to_owned()));
    }
    if mode & 0o111u32 == 0 {
        Ok(Some((mode & !0o777u32) | 0o755u32))
    } else {
        Ok(None)
    }
}

/// A file that a link leads to can be executed in the end, and nothing but its permissions for
/// owner, group and others changes.
pub proof fn law_link_target_executable(mode: u32)
    ensures
        ({
            let bits = match executable_bits(mode) {
                Some(bits) => bits,
                None => mode,
            };
            &&& bits & 0o111u32 != 0
            &&& bits & !0o777u32 == mode & !0o777u32
        }),
{
    assert(((mode & !0o777u32) | 0o755u32) & 0o111u32 != 0) by (bit_vector);
    assert(((mode & !0o777u32) | 0o755u32) & !0o777u32 == mode & !0o777u32) by (bit_vector);
}

/// What stands at a path.
#[derive(Debug, Clone, Copy, PartialEq, Eq, Structural)]
pub enum PathKind {
    /// A directory.
    Directory,
    /// Something else, a link to a directory among it.
    Other,
    /// Nothing.
    Missing,
}

/// How to remove what stands at a path.
#[derive(Debug, Clone, Copy, PartialEq, Eq, Structural)]
pub enum Removal {
    /// With all that is below it.
    Tree,
    /// By itself.
    File,
    /// There is nothing to remove.
    Nothing,
}

/// How to remove what stands at a path.
pub fn removal(kind: PathKind) -> (r: Removal)
    ensures
        r == match kind {
            PathKind::Directory => Removal::Tree,
            PathKind::Other => Removal::File,
            PathKind::Missing => Removal::Nothing,
        },
{
    match kind {
        PathKind::Directory => Removal::Tree,
        PathKind::Other => Removal::File,
        PathKind::Missing => Removal::Nothing,
    }
}

/// Whether something has to be removed before a link can be made at a path; a directory is never
/// replaced.
pub fn make_way_for_link(kind: PathKind, link_path: &str) -> (r: Result<bool, Error>)
    ensures
        match r {
            Ok(remove) => kind != PathKind::Directory && remove == (kind == PathKind::Other),
            Err(e) => kind == PathKind::Directory && e@ == Failure::IsDirectory(link_path@),
        },
{
    match kind {
        PathKind::Directory => Err(Failure::IsDirectory(link_path.to_owned())),
        PathKind::Other => Ok(true),
        PathKind::Missing => Ok(false),
    }
}

/// A path of the file system, of any bytes.
#[verifier::external_type_specification]
#[verifier::external_body]
pub struct ExPathBuf(std::path::PathBuf);

/// A path below the user's home directory.
#[derive(Debug)]
pub struct UserPath {
    /// The home directory.
    pub home: std::path::PathBuf,
    /// The parts of the path from there.
    pub parts: Vec<String>,
}

/// Asks `dirs::home_dir` for the user's home directory. Nothing is claimed: the answer depends on
/// the environment.
#[verifier::external_body]
fn user_home_dir() -> (r: Option<std::path::PathBuf>) {
    dirs::home_dir()
}

/// A path below a home directory in a contract: the directory, and the parts of the path from there.
pub type HomePath = (std::path::PathBuf, Seq<Seq<char>>);

/// The path of a result.
pub open spec fn user_outcome(r: Result<UserPath, Error>) -> Result<HomePath, Fault> {
    match r {
        Ok(path) => Ok((path.home, texts(path.parts@))),
        Err(e) => Err(e@),
    }
}

/// The path of a file of this program among the user's configurations: `~/.config/rsbin/` and its
/// name.
pub open spec fn config_file(home: Option<std::path::PathBuf>, name: Seq<char>) -> Result<
    HomePath,
    Fault,
> {
    match home {
        Some(home) => Ok((home, seq![".config"@, "rsbin"@, name])),
        None => Err(Failure::NoConfigDir),
    }
}

/// The directory of programs: `~/.local/bin`.
pub open spec fn program_dir(home: Option<std::path::PathBuf>) -> Result<HomePath, Fault> {
    match home {
        Some(home) => Ok((home, seq![".local"@, "bin"@])),
        None => Err(Failure::NoHomeDir),
    }
}

/// The path of a file of this program among the configurations in a home directory.
pub fn config_file_in(home: Option<std::path::PathBuf>, name: &str) -> (r: Result<UserPath, Error>)
    ensures
        user_outcome(r) == config_file(home, name@),
{
    match home {
        Some(home) => {
            let mut parts: Vec<String> = Vec::new();
            parts.push(".config".to_owned());
            parts.push("rsbin".to_owned());
            parts.push(name.to_owned());
            assert(texts(parts@) =~= seq![".config"@, "rsbin"@, name@]);
            Ok(UserPath { home, parts })
        },
        None => Err(Failure::NoConfigDir),
    }
}

/// The directory of programs in a home directory.
pub fn program_dir_in(home: Option<std::path::PathBuf>) -> (r: Result<UserPath, Error>)
    ensures
        user_outcome(r) == program_dir(home),
{
    match home {
        Some(home) => {
            let mut parts: Vec<String> = Vec::new();
            parts.push(".local".to_owned());
            parts.push("bin".to_owned());
            assert(texts(parts@) =~= seq![".local"@, "bin"@]);
            Ok(UserPath { home, parts })
        },
        None => Err(Failure::NoHomeDir),
    }
}

/// The path of the configuration, where none is given: `~/.config/rsbin/config.yml`.
pub fn default_config_path() -> (r: Result<UserPath, Error>)
    ensures
        exists|home: Option<std::path::PathBuf>|
            user_outcome(r) == #[trigger] config_file(home, "config.yml"@),
{
    let home = user_home_dir();
    config_file_in(home, "config.yml")
}

/// The path of the record of what is installed: `~/.config/rsbin/rsbin.lock.yml`.
pub fn default_lock_path() -> (r: Result<UserPath, Error>)
    ensures
        exists|home: Option<std::path::PathBuf>|
            user_outcome(r) == #[trigger] config_file(home, "rsbin.lock.yml"@),
{
    let home = user_home_dir();
    config_file_in(home, "rsbin.lock.yml")
}

/// The directory that programs are installed in: `~/.local/bin`.
pub fn default_install_dir() -> (r: Result<UserPath, Error>)
    ensures
        exists|home: Option<std::path::PathBuf>| user_outcome(r) == #[trigger] program_dir(home),
{
    let home = user_home_dir();
    program_dir_in(home)
}

/// The latest release counts as installed exactly where it is what is recorded of the package, and
/// nothing is forced.
pub proof fn law_locked(
    lock: Map<Seq<char>, Seq<char>>,
    package: Seq<char>,
    tag: Seq<char>,
    force: bool,
)
    ensures
        recorded(lock, package, tag) <==> lock.dom().contains(package) && lock[package] == tag,
        locked_latest(lock, package, tag, force) <==> !force && lock.dom().contains(package)
            && lock[package] == tag,
{
}

/// A name can be that of a directory where it is not empty, neither of the dots, and without
/// separators.
pub proof fn law_plain_names(name: Seq<char>)
    ensures
        plain_name(name) <==> {
            &&& name.len() > 0
            &&& name != seq!['.']
            &&& name != seq!['.', '.']
            &&& forall|i: int| 0 <= i < name.len() ==> name[i] != '/' && name[i] != '\\'
        },
{
    reveal_strlit(".");
    reveal_strlit("..");
    assert("."@ =~= seq!['.']);
    assert(".."@ =~= seq!['.', '.']);
    if plain_name(name) {
        assert forall|i: int| 0 <= i < name.len() implies name[i] != '/' && name[i] != '\\' by {
            assert(name.contains(name[i]));
        }
    }
}

/// With slashes as separators, a package is installed at the directory of programs, `/packages/` and
/// its name.
pub proof fn law_package_dir_with_slashes(install_dir: Seq<char>, package: Seq<char>)
    requires
        install_dir.len() > 0,
        install_dir.last() != '/',
        plain_name(package),
    ensures
        package_dir(PathStyle::Unix, install_dir, package) == install_dir + "/packages/"@ + package,
{
    reveal_strlit("packages");
    reveal_strlit("/packages/");
    assert(package.contains(package[0]));
    let dir = path_below(PathStyle::Unix, install_dir, "packages"@);
    assert(dir == install_dir.push('/') + "packages"@);
    assert(package_dir(PathStyle::Unix, install_dir, package) == dir.push('/') + package);
    assert(dir.push('/') + package =~= install_dir + "/packages/"@ + package);
}

/// A file that nobody may execute is given the permissions of a program, and another is left as it
/// is.
pub proof fn law_program_permissions(mode: u32)
    ensures
        mode & 0o111u32 != 0 ==> executable_bits(mode) is None,
        mode & 0o111u32 == 0 ==> (executable_bits(mode) matches Some(bits) && bits & 0o777u32
            == 0o755u32),
        PROGRAM_MODE == 0o755u32,
{
    assert(((mode & !0o777u32) | 0o755u32) & 0o777u32 == 0o755u32) by (bit_vector);
}

/// The configuration and the record lie in one directory, `.config/rsbin` in the user's home
/// directory, and the programs in `.local/bin` there; without a home directory there is none of
/// them.
pub proof fn law_default_paths(home: std::path::PathBuf, name: Seq<char>)
    ensures
        config_file(Some(home), name) matches Ok(path) && path.0 == home && path.1.len() == 3
            && path.1[0] == ".config"@ && path.1[1] == "rsbin"@ && path.1[2] == name,
        program_dir(Some(home)) matches Ok(path) && path.0 == home && path.1.len() == 2 && path.1[0]
            == ".local"@ && path.1[1] == "bin"@,
        config_file(None, name) == Err::<HomePath, Fault>(Failure::NoConfigDir),
        program_dir(None) == Err::<HomePath, Fault>(Failure::NoHomeDir),
{
}

/// Contracts speak of all that a path below the home directory holds.
pub proof fn law_user_path_in_contracts(path: UserPath, e: Error)
    ensures
        user_outcome(Ok(path)) == Ok::<HomePath, Fault>((path.home, texts(path.parts@))),
        user_outcome(Err(e)) == Err::<HomePath, Fault>(e@),
{
}

} // verus!

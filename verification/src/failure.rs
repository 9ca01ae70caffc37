//! The ways in which the updater fails.

use vstd::prelude::*;

verus! {

/// A failure, with the texts that tell its circumstances.
#[derive(Debug)]
pub enum Failure<T> {
    /// The configuration lists no package.
    NoPackages,
    /// A package has a name of white space only.
    EmptyName,
    /// Two packages have this name.
    DuplicateName(T),
    /// The package of this name lists no file.
    NoFiles(T),
    /// The configuration defines nothing for this system.
    MissingOs(T),
    /// The system of this name is not supported.
    UnsupportedOs(T),
    /// The architecture of this name is not supported.
    UnsupportedArch(T),
    /// A placeholder of this template has no end.
    UnclosedPlaceholder(T),
    /// A placeholder of the template `input` names no variable.
    UnknownVariable { name: T, input: T },
    /// This is no repository address on GitHub.
    UnsupportedRepo(T),
    /// This repository address names no owner.
    MissingOwner(T),
    /// This repository address names no repository.
    MissingRepo(T),
    /// The artifact of this name is in no known archive format.
    UnsupportedFormat(T),
    /// The list of a tar archive could not be read.
    TarEntries(T),
    /// An entry of a tar archive could not be read.
    TarEntry(T),
    /// The path of an entry of a tar archive could not be read.
    TarPath(T),
    /// The contents of the entry at `path` could not be read.
    Contents { path: T, detail: T },
    /// The directory of a zip archive could not be read.
    ZipArchive(T),
    /// An entry of a zip archive could not be read.
    ZipEntry(T),
    /// A bzip2 artifact could not be decompressed.
    Bz2(T),
    /// No decoder for a Zstandard artifact could be made.
    ZstdDecoder(T),
    /// A Zstandard artifact could not be decompressed.
    Zstd(T),
    /// `pattern` is no glob pattern.
    BadPattern { pattern: T, detail: T },
    /// No entry of the artifact matches this configured path.
    MissingFile(T),
    /// This path leads, or may lead, out of the directory it belongs to.
    UnsafePath(T),
    /// This package name is no plain directory name.
    UnsafeName(T),
    /// The configuration has no packages of these names.
    UnknownPackages(T),
    /// The user has no directory for configurations.
    NoConfigDir,
    /// The user has no home directory.
    NoHomeDir,
    /// A link was to lead to this path, which is no file.
    NotAFile(T),
    /// This directory stands where a link was to be.
    IsDirectory(T),
    /// No asset of the release matches the package; these are available.
    NoAsset { package: T, available: T },
}

/// The failure that the functions of this crate report.
pub type Error = Failure<String>;

/// A failure in a contract.
pub type Fault = Failure<Seq<char>>;

impl View for Failure<String> {
    type V = Failure<Seq<char>>;

    open spec fn view(&self) -> Failure<Seq<char>> {
        match *self {
            Failure::NoPackages => Failure::NoPackages,
            Failure::EmptyName => Failure::EmptyName,
            Failure::DuplicateName(name) => Failure::DuplicateName(name@),
            Failure::NoFiles(name) => Failure::NoFiles(name@),
            Failure::MissingOs(os) => Failure::MissingOs(os@),
            Failure::UnsupportedOs(os) => Failure::UnsupportedOs(os@),
            Failure::UnsupportedArch(arch) => Failure::UnsupportedArch(arch@),
            Failure::UnclosedPlaceholder(input) => Failure::UnclosedPlaceholder(input@),
            Failure::UnknownVariable { name, input } => Failure::UnknownVariable { name: name@, input: input@ },
            Failure::UnsupportedRepo(url) => Failure::UnsupportedRepo(url@),
            Failure::MissingOwner(url) => Failure::MissingOwner(url@),
            Failure::MissingRepo(url) => Failure::MissingRepo(url@),
            Failure::UnsupportedFormat(name) => Failure::UnsupportedFormat(name@),
            Failure::TarEntries(detail) => Failure::TarEntries(detail@),
            Failure::TarEntry(detail) => Failure::TarEntry(detail@),
            Failure::TarPath(detail) => Failure::TarPath(detail@),
            Failure::Contents { path, detail } => Failure::Contents { path: path@, detail: detail@ },
            Failure::ZipArchive(detail) => Failure::ZipArchive(detail@),
            Failure::ZipEntry(detail) => Failure::ZipEntry(detail@),
            Failure::Bz2(detail) => Failure::Bz2(detail@),
            Failure::ZstdDecoder(detail) => Failure::ZstdDecoder(detail@),
            Failure::Zstd(detail) => Failure::Zstd(detail@),
            Failure::BadPattern { pattern, detail } => Failure::BadPattern { pattern: pattern@, detail: detail@ },
            Failure::MissingFile(path) => Failure::MissingFile(path@),
            Failure::UnsafePath(path) => Failure::UnsafePath(path@),
            Failure::UnsafeName(name) => Failure::UnsafeName(name@),
            Failure::UnknownPackages(names) => Failure::UnknownPackages(names@),
            Failure::NoConfigDir => Failure::NoConfigDir,
            Failure::NoHomeDir => Failure::NoHomeDir,
            Failure::NotAFile(path) => Failure::NotAFile(path@),
            Failure::IsDirectory(path) => Failure::IsDirectory(path@),
            Failure::NoAsset { package, available } => Failure::NoAsset { package: package@, available: available@ },
        }
    }
}

/// The message for a failure.
pub open spec fn message_of(fault: Fault) -> Seq<char> {
    match fault {
        Failure::NoPackages => "config has no packages"@,
        Failure::EmptyName => "package has empty name"@,
        Failure::DuplicateName(name) => "duplicate package name: "@ + name,
        Failure::NoFiles(name) => "package "@ + name + " has no file entries"@,
        Failure::MissingOs(os) => "missing def entry for current OS: "@ + os,
        Failure::UnsupportedOs(os) => "unsupported OS: "@ + os,
        Failure::UnsupportedArch(arch) => "unsupported arch: "@ + arch,
        Failure::UnclosedPlaceholder(input) => "unclosed template placeholder in "@ + input,
        Failure::UnknownVariable { name, input } => "unknown template variable {"@ + name + "} in "@ + input,
        Failure::UnsupportedRepo(url) => "unsupported GitHub repo URL: "@ + url,
        Failure::MissingOwner(url) => "missing GitHub owner in "@ + url,
        Failure::MissingRepo(url) => "missing GitHub repo in "@ + url,
        Failure::UnsupportedFormat(name) => "unsupported artifact format: "@ + name,
        Failure::TarEntries(detail) => "read tar entries: "@ + detail,
        Failure::TarEntry(detail) => "read tar entry: "@ + detail,
        Failure::TarPath(detail) => "read tar entry path: "@ + detail,
        Failure::Contents { path, detail } => "read "@ + path + ": "@ + detail,
        Failure::ZipArchive(detail) => "read zip archive: "@ + detail,
        Failure::ZipEntry(detail) => "read zip entry: "@ + detail,
        Failure::Bz2(detail) => "decompress bz2 artifact: "@ + detail,
        Failure::ZstdDecoder(detail) => "create zstd decoder: "@ + detail,
        Failure::Zstd(detail) => "decompress zstd artifact: "@ + detail,
        Failure::BadPattern { pattern, detail } => "invalid glob pattern "@ + pattern + ": "@ + detail,
        Failure::MissingFile(path) => "artifact missing configured file: "@ + path,
        Failure::UnsafePath(path) => "unsafe archive path: "@ + path,
        Failure::UnsafeName(name) => "unsafe package name: "@ + name,
        Failure::UnknownPackages(names) => "unknown package(s): "@ + names,
        Failure::NoConfigDir => "could not determine user config directory"@,
        Failure::NoHomeDir => "could not determine user home directory"@,
        Failure::NotAFile(path) => "link target is not a file: "@ + path,
        Failure::IsDirectory(path) => "refusing to replace directory "@ + path,
        Failure::NoAsset { package, available } => "no matching asset for "@ + package + "; available assets: "@ + available,
    }
}

impl Failure<String> {
    /// The message for this failure.
    pub fn message(&self) -> (r: String)
        ensures
            r@ == message_of(self@),
    {
        let mut out = String::new();
        match self {
            Failure::NoPackages => {
                out.append("config has no packages");
            },
            Failure::EmptyName => {
                out.append("package has empty name");
            },
            Failure::DuplicateName(name) => {
                out.append("duplicate package name: ");
                out.append(name.as_str());
            },
            Failure::NoFiles(name) => {
                out.append("package ");
                out.append(name.as_str());
                out.append(" has no file entries");
            },
            Failure::MissingOs(os) => {
                out.append("missing def entry for current OS: ");
                out.append(os.as_str());
            },
            Failure::UnsupportedOs(os) => {
                out.append("unsupported OS: ");
                out.append(os.as_str());
            },
            Failure::UnsupportedArch(arch) => {
                out.append("unsupported arch: ");
                out.append(arch.as_str());
            },
            Failure::UnclosedPlaceholder(input) => {
                out.append("unclosed template placeholder in ");
                out.append(input.as_str());
            },
            Failure::UnknownVariable { name, input } => {
                out.append("unknown template variable {");
                out.append(name.as_str());
                out.append("} in ");
                out.append(input.as_str());
            },
            Failure::UnsupportedRepo(url) => {
                out.append("unsupported GitHub repo URL: ");
                out.append(url.as_str());
            },
            Failure::MissingOwner(url) => {
                out.append("missing GitHub owner in ");
                out.append(url.as_str());
            },
            Failure::MissingRepo(url) => {
                out.append("missing GitHub repo in ");
                out.append(url.as_str());
            },
            Failure::UnsupportedFormat(name) => {
                out.append("unsupported artifact format: ");
                out.append(name.as_str());
            },
            Failure::TarEntries(detail) => {
                out.append("read tar entries: ");
                out.append(detail.as_str());
            },
            Failure::TarEntry(detail) => {
                out.append("read tar entry: ");
                out.append(detail.as_str());
            },
            Failure::TarPath(detail) => {
                out.append("read tar entry path: ");
                out.append(detail.as_str());
            },
            Failure::Contents { path, detail } => {
                out.append("read ");
                out.append(path.as_str());
                out.append(": ");
                out.append(detail.as_str());
            },
            Failure::ZipArchive(detail) => {
                out.append("read zip archive: ");
                out.append(detail.as_str());
            },
            Failure::ZipEntry(detail) => {
                out.append("read zip entry: ");
                out.append(detail.as_str());
            },
            Failure::Bz2(detail) => {
                out.append("decompress bz2 artifact: ");
                out.append(detail.as_str());
            },
            Failure::ZstdDecoder(detail) => {
                out.append("create zstd decoder: ");
                out.append(detail.as_str());
            },
            Failure::Zstd(detail) => {
                out.append("decompress zstd artifact: ");
                out.append(detail.as_str());
            },
            Failure::BadPattern { pattern, detail } => {
                out.append("invalid glob pattern ");
                out.append(pattern.as_str());
                out.append(": ");
                out.append(detail.as_str());
            },
            Failure::MissingFile(path) => {
                out.append("artifact missing configured file: ");
                out.append(path.as_str());
            },
            Failure::UnsafePath(path) => {
                out.append("unsafe archive path: ");
                out.append(path.as_str());
            },
            Failure::UnsafeName(name) => {
                out.append("unsafe package name: ");
                out.append(name.as_str());
            },
            Failure::UnknownPackages(names) => {
                out.append("unknown package(s): ");
                out.append(names.as_str());
            },
            Failure::NoConfigDir => {
                out.append("could not determine user config directory");
            },
            Failure::NoHomeDir => {
                out.append("could not determine user home directory");
            },
            Failure::NotAFile(path) => {
                out.append("link target is not a file: ");
                out.append(path.as_str());
            },
            Failure::IsDirectory(path) => {
                out.append("refusing to replace directory ");
                out.append(path.as_str());
            },
            Failure::NoAsset { package, available } => {
                out.append("no matching asset for ");
                out.append(package.as_str());
                out.append("; available assets: ");
                out.append(available.as_str());
            },
        }
        out
    }
}

/// A failure is told in its own words, with the texts of its circumstances where they belong.
pub proof fn law_messages(a: Seq<char>, b: Seq<char>)
    ensures
        message_of(Fault::NoPackages) == "config has no packages"@,
        message_of(Fault::EmptyName) == "package has empty name"@,
        message_of(Failure::DuplicateName(a)) == "duplicate package name: "@ + a,
        message_of(Failure::NoFiles(a)) == "package "@ + a + " has no file entries"@,
        message_of(Failure::MissingOs(a)) == "missing def entry for current OS: "@ + a,
        message_of(Failure::UnsupportedOs(a)) == "unsupported OS: "@ + a,
        message_of(Failure::UnsupportedArch(a)) == "unsupported arch: "@ + a,
        message_of(Failure::UnclosedPlaceholder(a)) == "unclosed template placeholder in "@ + a,
        message_of(Failure::UnknownVariable { name: a, input: b })
            == "unknown template variable {"@ + a + "} in "@ + b,
        message_of(Failure::UnsupportedRepo(a)) == "unsupported GitHub repo URL: "@ + a,
        message_of(Failure::MissingOwner(a)) == "missing GitHub owner in "@ + a,
        message_of(Failure::MissingRepo(a)) == "missing GitHub repo in "@ + a,
        message_of(Failure::UnsupportedFormat(a)) == "unsupported artifact format: "@ + a,
        message_of(Failure::TarEntries(a)) == "read tar entries: "@ + a,
        message_of(Failure::TarEntry(a)) == "read tar entry: "@ + a,
        message_of(Failure::TarPath(a)) == "read tar entry path: "@ + a,
        message_of(Failure::Contents { path: a, detail: b }) == "read "@ + a + ": "@ + b,
        message_of(Failure::ZipArchive(a)) == "read zip archive: "@ + a,
        message_of(Failure::ZipEntry(a)) == "read zip entry: "@ + a,
        message_of(Failure::Bz2(a)) == "decompress bz2 artifact: "@ + a,
        message_of(Failure::ZstdDecoder(a)) == "create zstd decoder: "@ + a,
        message_of(Failure::Zstd(a)) == "decompress zstd artifact: "@ + a,
        message_of(Failure::BadPattern { pattern: a, detail: b }) == "invalid glob pattern "@ + a
            + ": "@ + b,
        message_of(Failure::MissingFile(a)) == "artifact missing configured file: "@ + a,
        message_of(Failure::UnsafePath(a)) == "unsafe archive path: "@ + a,
        message_of(Failure::UnsafeName(a)) == "unsafe package name: "@ + a,
        message_of(Failure::UnknownPackages(a)) == "unknown package(s): "@ + a,
        message_of(Fault::NoConfigDir) == "could not determine user config directory"@,
        message_of(Fault::NoHomeDir) == "could not determine user home directory"@,
        message_of(Failure::NotAFile(a)) == "link target is not a file: "@ + a,
        message_of(Failure::IsDirectory(a)) == "refusing to replace directory "@ + a,
        message_of(Failure::NoAsset { package: a, available: b }) == "no matching asset for "@ + a
            + "; available assets: "@ + b,
{
}

} // verus!

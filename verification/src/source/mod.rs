//! Releases, and where they come from.

pub mod github;

use crate::gather::views;
use vstd::prelude::*;

verus! {

/// A release of a tool.
#[derive(Debug)]
pub struct Release {
    /// The tag of the release.
    pub tag_name: String,
    /// What was published with it.
    pub assets: Vec<Asset>,
}

/// A published file.
#[derive(Debug)]
pub struct Asset {
    /// Its name.
    pub name: String,
    /// The address to download it from.
    pub download_url: String,
}

/// A published file that was picked for a package.
#[derive(Debug)]
pub struct ResolvedArtifact {
    /// The address to download it from.
    pub download_url: String,
    /// The name that the package gives it.
    pub artifact_name: String,
    /// The tag of its release.
    pub tag_name: String,
}

/// A published file in a contract.
pub struct AssetView {
    pub name: Seq<char>,
    pub download_url: Seq<char>,
}

/// A release in a contract.
pub struct ReleaseView {
    pub tag_name: Seq<char>,
    pub assets: Seq<AssetView>,
}

/// A picked file in a contract.
pub struct ArtifactView {
    pub download_url: Seq<char>,
    pub artifact_name: Seq<char>,
    pub tag_name: Seq<char>,
}

impl View for Asset {
    type V = AssetView;

    open spec fn view(&self) -> AssetView {
        AssetView { name: self.name@, download_url: self.download_url@ }
    }
}

impl View for Release {
    type V = ReleaseView;

    open spec fn view(&self) -> ReleaseView {
        ReleaseView { tag_name: self.tag_name@, assets: views(self.assets@) }
    }
}

impl View for ResolvedArtifact {
    type V = ArtifactView;

    open spec fn view(&self) -> ArtifactView {
        ArtifactView {
            download_url: self.download_url@,
            artifact_name: self.artifact_name@,
            tag_name: self.tag_name@,
        }
    }
}

/// Contracts speak of all that a release and a picked file hold.
pub proof fn law_release_in_contracts(release: Release, artifact: ResolvedArtifact, i: int)
    ensures
        release@.tag_name == release.tag_name@,
        release@.assets.len() == release.assets@.len(),
        0 <= i < release.assets@.len() ==> release@.assets[i].name == release.assets@[i].name@
            && release@.assets[i].download_url == release.assets@[i].download_url@,
        artifact@.download_url == artifact.download_url@,
        artifact@.artifact_name == artifact.artifact_name@,
        artifact@.tag_name == artifact.tag_name@,
{
}

} // verus!

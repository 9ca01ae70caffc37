//! Releases on GitHub: the address of a repository, the request for its latest release, and the
//! authorization.

use super::{Asset, AssetView, Release, ReleaseView};
use crate::failure::{Error, Failure, Fault};
use crate::gather::views;
use crate::text::{
    begins, ends, is_char, is_white, joined, law_pieces, lemma_pieces_of_two, lemma_slashes_off, lemma_split_joined,
    lemma_trimmed_of,
    opt_text, pieces, split_at_char, strip_front, texts, trim, trim_end_parts, trim_parts, trimmed,
};
use vstd::prelude::*;

verus! {

/// A release as GitHub describes it.
#[derive(Debug)]
pub struct GitHubRelease {
    pub tag_name: String,
    pub assets: Vec<GitHubAsset>,
}

/// A published file as GitHub describes it.
#[derive(Debug)]
pub struct GitHubAsset {
    pub name: String,
    pub url: String,
}

impl View for GitHubAsset {
    type V = AssetView;

    open spec fn view(&self) -> AssetView {
        AssetView { name: self.name@, download_url: self.url@ }
    }
}

impl View for GitHubRelease {
    type V = ReleaseView;

    open spec fn view(&self) -> ReleaseView {
        ReleaseView { tag_name: self.tag_name@, assets: views(self.assets@) }
    }
}

impl GitHubRelease {
    /// The release, each file to be downloaded from its address in the API.
    pub fn into_release(self) -> (r: Release)
        ensures
            r@ == self@,
    {
        let ghost all = views(self.assets@);
        let ghost given = self.assets@;
        let mut assets: Vec<Asset> = Vec::new();
        assert(views(assets@) =~= all.take(0));
        for asset in it: self.assets
            invariant
                it.seq() == given,
                all == views(given),
                views(assets@) == all.take(it.index()),
        {
            let ghost before = views(assets@);
            let ghost added = asset@;
            assets.push(Asset { name: asset.name, download_url: asset.url });
            proof {
                assert(views(assets@) =~= before.push(added));
                assert(all.take(it.index() + 1) =~= all.take(it.index()).push(added));
            }
        }
        assert(all.take(all.len() as int) =~= all);
        Release { tag_name: self.tag_name, assets }
    }
}

/// What is behind the site in a text; none where the text begins with none.
pub open spec fn behind_site(text: Seq<char>) -> Option<Seq<char>> {
    if begins(text, "https://github.com/"@) {
        Some(text.skip("https://github.com/"@.len() as int))
    } else if begins(text, "http://github.com/"@) {
        Some(text.skip("http://github.com/"@.len() as int))
    } else if begins(text, "github.com/"@) {
        Some(text.skip("github.com/"@.len() as int))
    } else {
        None
    }
}

/// The part of a repository's address behind the site; none where it is no address on GitHub.
pub open spec fn repo_path(url: Seq<char>) -> Option<Seq<char>> {
    behind_site(trim_parts(trimmed(url), "/"@))
}

/// The owner and the name of a repository, by its address.
pub open spec fn repo_of(url: Seq<char>) -> Result<(Seq<char>, Seq<char>), Fault> {
    match repo_path(url) {
        None => Err(Failure::UnsupportedRepo(url)),
        Some(path) => {
            let parts = pieces(path, is_char('/'));
            if parts[0].len() == 0 {
                Err(Failure::MissingOwner(url))
            } else if parts.len() < 2 || parts[1].len() == 0 {
                Err(Failure::MissingRepo(url))
            } else {
                Ok((parts[0], trim_parts(parts[1], ".git"@)))
            }
        },
    }
}

/// The part of a repository's address behind the site.
fn find_repo_path(url: &str) -> (r: Option<String>)
    ensures
        opt_text(r) == repo_path(url@),
{
    let whole = trim(url);
    let text = trim_end_parts(whole.as_str(), "/");
    match strip_front(text.as_str(), "https://github.com/") {
        Some(path) => {
            return Some(path);
        },
        None => {},
    }
    match strip_front(text.as_str(), "http://github.com/") {
        Some(path) => {
            return Some(path);
        },
        None => {},
    }
    strip_front(text.as_str(), "github.com/")
}

/// The owner and the name of a repository, by its address.
pub fn parse_github_repo(repo_url: &str) -> (r: Result<(String, String), Error>)
    ensures
        match r {
            Ok(repo) => repo_of(repo_url@) == Ok::<(Seq<char>, Seq<char>), Fault>(
                (repo.0@, repo.1@),
            ),
            Err(e) => repo_of(repo_url@) == Err::<(Seq<char>, Seq<char>), Fault>(e@),
        },
{
    let path = match find_repo_path(repo_url) {
        Some(path) => path,
        None => {
            return Err(Failure::UnsupportedRepo(repo_url.to_owned()));
        },
    };
    let parts = split_at_char(path.as_str(), '/');
    let ghost all = texts(parts@);
    assert(all[0] == parts@[0]@);
    if parts[0].as_str().is_empty() {
        return Err(Failure::MissingOwner(repo_url.to_owned()));
    }
    if parts.len() < 2 {
        return Err(Failure::MissingRepo(repo_url.to_owned()));
    }
    assert(all[1] == parts@[1]@);
    if parts[1].as_str().is_empty() {
        return Err(Failure::MissingRepo(repo_url.to_owned()));
    }
    let owner = parts[0].clone();
    let repo = trim_end_parts(parts[1].as_str(), ".git");
    Ok((owner, repo))
}

/// The address to request a repository's latest release from.
pub open spec fn latest_url(owner: Seq<char>, repo: Seq<char>) -> Seq<char> {
    "https://api.github.com/repos/"@ + owner + "/"@ + repo + "/releases/latest"@
}

/// The address to request the latest release from, by the address of the repository.
pub fn latest_release_url(repo_url: &str) -> (r: Result<String, Error>)
    ensures
        match r {
            Ok(url) => repo_of(repo_url@) matches Ok(repo) && url@ == latest_url(repo.0, repo.1),
            Err(e) => repo_of(repo_url@) == Err::<(Seq<char>, Seq<char>), Fault>(e@),
        },
{
    match parse_github_repo(repo_url) {
        Err(e) => Err(e),
        Ok((owner, repo)) => {
            let mut url = "https://api.github.com/repos/".to_owned();
            url.append(owner.as_str());
            url.append("/");
            url.append(repo.as_str());
            url.append("/releases/latest");
            Ok(url)
        },
    }
}

/// The token is there, and more than white space.
pub open spec fn usable(token: Option<Seq<char>>) -> bool {
    token matches Some(t) && trimmed(t).len() > 0
}

/// The authorization for requests: by the token of the environment where it is usable, or else by
/// that of the command line tool, or else none.
pub open spec fn authorization_of(
    environment: Option<Seq<char>>,
    tool: Option<Seq<char>>,
) -> Option<Seq<char>> {
    if usable(environment) {
        Some("Bearer "@ + trimmed(environment->0))
    } else if usable(tool) {
        Some("Bearer "@ + trimmed(tool->0))
    } else {
        None
    }
}

/// Whether a token is there, and more than white space.
pub fn usable_token(token: &Option<String>) -> (r: bool)
    ensures
        r == usable(opt_text(*token)),
{
    match token {
        Some(text) => !trim(text.as_str()).as_str().is_empty(),
        None => false,
    }
}

/// The value of the authorization header.
pub fn authorization(environment: Option<String>, tool: Option<String>) -> (r: Option<String>)
    ensures
        opt_text(r) == authorization_of(opt_text(environment), opt_text(tool)),
{
    let token = if usable_token(&environment) {
        environment
    } else {
        tool
    };
    if usable_token(&token) {
        match token {
            Some(text) => {
                let mut value = "Bearer ".to_owned();
                value.append(trim(text.as_str()).as_str());
                Some(value)
            },
            None => None,
        }
    } else {
        None
    }
}

/// The beginnings of a repository's address.
pub open spec fn is_site(site: Seq<char>) -> bool {
    site == "https://github.com/"@ || site == "http://github.com/"@ || site == "github.com/"@
}

/// What may follow the name of a repository in its address: nothing, or a slash and further parts.
pub open spec fn is_further(more: Seq<char>) -> bool {
    more.len() == 0 || (more[0] == '/' && more.last() != '/')
}

/// All ways to write the address of a repository are read alike: with any of the beginnings, with
/// or without `.git` behind the name, with or without further parts, with any number of slashes
/// behind, and with white space around.
pub proof fn law_repo_addresses_read_alike(
    before: Seq<char>,
    site: Seq<char>,
    owner: Seq<char>,
    repo: Seq<char>,
    suffix: Seq<char>,
    more: Seq<char>,
    slashes: Seq<char>,
    after: Seq<char>,
)
    requires
        forall|i: int| 0 <= i < before.len() ==> is_white(#[trigger] before[i]),
        is_site(site),
        owner.len() > 0,
        !owner.contains('/'),
        repo.len() > 0,
        !repo.contains('/'),
        !ends(repo, ".git"@),
        suffix == Seq::<char>::empty() || suffix == ".git"@,
        is_further(more),
        forall|i: int| 0 <= i < slashes.len() ==> #[trigger] slashes[i] == '/',
        forall|i: int| 0 <= i < after.len() ==> is_white(#[trigger] after[i]),
        slashes.len() == 0 ==> !is_white((repo + suffix + more).last()),
    ensures
        repo_of(before + (site + owner + "/"@ + repo + suffix + more + slashes) + after) == Ok::<
            (Seq<char>, Seq<char>),
            Fault,
        >((owner, repo)),
{
    reveal_strlit("/");
    let url = before + (site + owner + "/"@ + repo + suffix + more + slashes) + after;
    let name = repo + suffix;
    let path = owner + "/"@ + name + more;
    let core = site + path;
    let shown = core + slashes;
    assert(site + owner + "/"@ + repo + suffix + more + slashes =~= shown);
    lemma_name_and_suffix(repo, suffix);
    lemma_site_and_path(site, path);
    lemma_owner_and_name(owner, name, more);
    assert(core.last() == path.last());
    assert(path.last() == (repo + suffix + more).last());
    assert(path.last() != '/') by {
        if more.len() == 0 {
            assert(path.last() == name.last());
            assert(name.contains(name.last()));
        } else {
            assert(path.last() == more.last());
        }
    }
    assert(shown[0] == site[0]);
    assert(!is_white(shown.last())) by {
        if slashes.len() > 0 {
            assert(shown.last() == slashes[slashes.len() - 1]);
        } else {
            assert(shown =~= core);
        }
    }
    lemma_trimmed_of(before, shown, after);
    lemma_slashes_off(core, slashes);
    assert(repo_path(url) == Some(path));
}

/// A site is found before any path, and starts with no white space.
proof fn lemma_site_and_path(site: Seq<char>, path: Seq<char>)
    requires
        is_site(site),
    ensures
        site.len() > 0,
        !is_white(site[0]),
        behind_site(site + path) == Some(path),
{
    reveal_strlit("https://github.com/");
    reveal_strlit("http://github.com/");
    reveal_strlit("github.com/");
    let text = site + path;
    assert(text.subrange(0, site.len() as int) =~= site);
    assert(text.skip(site.len() as int) =~= path);
    if site == "http://github.com/"@ {
        if begins(text, "https://github.com/"@) {
            assert(text.subrange(0, "https://github.com/"@.len() as int)[4] == site[4]);
        }
    } else if site == "github.com/"@ {
        if begins(text, "https://github.com/"@) {
            assert(text.subrange(0, "https://github.com/"@.len() as int)[0] == site[0]);
        }
        if begins(text, "http://github.com/"@) {
            assert(text.subrange(0, "http://github.com/"@.len() as int)[0] == site[0]);
        }
    }
}

/// The suffix comes off the name of a repository, and brings no slash into it.
proof fn lemma_name_and_suffix(repo: Seq<char>, suffix: Seq<char>)
    requires
        repo.len() > 0,
        !repo.contains('/'),
        !ends(repo, ".git"@),
        suffix == Seq::<char>::empty() || suffix == ".git"@,
    ensures
        !(repo + suffix).contains('/'),
        trim_parts(repo + suffix, ".git"@) == repo,
{
    reveal_strlit(".git");
    let name = repo + suffix;
    assert forall|k: int| 0 <= k < name.len() implies name[k] != '/' by {
        if k < repo.len() {
            assert(repo.contains(repo[k]));
        }
    }
    assert(trim_parts(repo, ".git"@) == repo);
    if suffix.len() == 0 {
        assert(name =~= repo);
    } else {
        assert(name.subrange(name.len() - 4, name.len() as int) =~= ".git"@);
        assert(name.take(name.len() - 4) =~= repo);
    }
}

/// The owner and the name are the first parts of a path, whatever follows.
proof fn lemma_owner_and_name(owner: Seq<char>, name: Seq<char>, more: Seq<char>)
    requires
        !owner.contains('/'),
        !name.contains('/'),
        is_further(more),
    ensures
        ({
            let parts = pieces(owner + "/"@ + name + more, is_char('/'));
            parts.len() >= 2 && parts[0] == owner && parts[1] == name
        }),
{
    reveal_strlit("/");
    assert("/"@ =~= seq!['/']);
    let plain = owner + "/"@ + name;
    let path = plain + more;
    let two = seq![owner, name];
    assert(two.drop_last() =~= seq![owner]);
    assert(joined(two.drop_last(), seq!['/']) == owner);
    assert(joined(two, seq!['/']) == plain);
    lemma_split_joined(two, '/');
    if more.len() == 0 {
        assert(path =~= plain);
    } else {
        let rest = more.skip(1);
        assert(path =~= plain.push('/') + rest);
        lemma_pieces_of_two(plain, rest, '/');
    }
}

/// Why the address of a repository is refused, by what is left of it without white space around and
/// slashes behind: it begins with no site; or nothing stands between the site and the next slash; or
/// nothing stands behind the owner. The failure names the address as it was given.
pub proof fn law_refused_addresses(
    url: Seq<char>,
    site: Seq<char>,
    owner: Seq<char>,
    rest: Seq<char>,
)
    requires
        is_site(site),
        owner.len() > 0,
        !owner.contains('/'),
    ensures
        ({
            let text = trim_parts(trimmed(url), "/"@);
            &&& !begins(text, "https://github.com/"@) && !begins(text, "http://github.com/"@)
                && !begins(text, "github.com/"@) ==> repo_of(url) == Err::<
                (Seq<char>, Seq<char>),
                Fault,
            >(Failure::UnsupportedRepo(url))
            &&& text == site + (seq!['/'] + rest) ==> repo_of(url) == Err::<
                (Seq<char>, Seq<char>),
                Fault,
            >(Failure::MissingOwner(url))
            &&& text == site + owner ==> repo_of(url) == Err::<(Seq<char>, Seq<char>), Fault>(
                Failure::MissingRepo(url),
            )
            &&& text == site + (owner + seq!['/'] + (seq!['/'] + rest)) ==> repo_of(url) == Err::<
                (Seq<char>, Seq<char>),
                Fault,
            >(Failure::MissingRepo(url))
        }),
{
    let none = Seq::<char>::empty();
    let slash = seq!['/'] + rest;
    let two = owner + seq!['/'] + slash;
    lemma_site_and_path(site, slash);
    lemma_site_and_path(site, owner);
    lemma_site_and_path(site, two);
    law_pieces(none, rest, '/');
    assert(none + seq!['/'] + rest =~= slash);
    law_pieces(owner, slash, '/');
}

/// The latest release is asked for at the address of the API for the owner and the name.
pub proof fn law_latest_url(owner: Seq<char>, repo: Seq<char>)
    ensures
        latest_url(owner, repo) == "https://api.github.com/repos/"@ + (owner + seq!['/'] + repo)
            + "/releases/latest"@,
{
    reveal_strlit("/");
    assert("/"@ =~= seq!['/']);
    assert(latest_url(owner, repo) =~= "https://api.github.com/repos/"@ + (owner + seq!['/']
        + repo) + "/releases/latest"@);
}

/// Requests are authorized by the token of the environment, and by that of the command line tool only
/// where the first is wanting or white space; white space around a token does not count.
pub proof fn law_authorization(environment: Option<Seq<char>>, tool: Option<Seq<char>>)
    ensures
        environment matches Some(t) ==> (trimmed(t).len() > 0 ==> authorization_of(
            environment,
            tool,
        ) == Some("Bearer "@ + trimmed(t))),
        (environment matches Some(t) ==> trimmed(t).len() == 0) ==> (tool matches Some(t) ==> (
        trimmed(t).len() > 0 ==> authorization_of(environment, tool) == Some(
            "Bearer "@ + trimmed(t),
        ))),
        (environment matches Some(t) ==> trimmed(t).len() == 0) && (tool matches Some(t)
            ==> trimmed(t).len() == 0) ==> authorization_of(environment, tool) is None,
{
}

/// A file is downloaded from the address that GitHub gives for it in the API, and no file is left
/// out.
pub proof fn law_github_release(release: GitHubRelease, i: int)
    ensures
        release@.tag_name == release.tag_name@,
        release@.assets.len() == release.assets@.len(),
        0 <= i < release.assets@.len() ==> release@.assets[i].name == release.assets@[i].name@
            && release@.assets[i].download_url == release.assets@[i].url@,
{
}

} // verus!

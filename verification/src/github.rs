//! Mods downloaded from GitHub: where they are cached and which API requests
//! fetch them.
use vstd::prelude::*;
use crate::mod_sources::{github_cache_dirs, github_cache_dirs_spec, opt_str_view};
use crate::text::{concat, copy_str, str_equal, views};

verus! {

/// Download errors.
#[derive(Debug)]
pub enum GitHubError {
    /// The repository is not "owner/repo".
    InvalidRepo(String),
}

impl GitHubError {
    /// The error message.
    pub fn message(&self) -> (m: String)
        ensures
            m@ == match self {
                GitHubError::InvalidRepo(r) => "Invalid repo format: "@ + r@,
            },
    {
        match self {
            GitHubError::InvalidRepo(r) => concat("Invalid repo format: ", r.as_str()),
        }
    }
}

/// What an entry of a GitHub directory listing is.
#[derive(Debug, PartialEq, Eq, Structural)]
pub enum ItemKind {
    File,
    Dir,
    Other,
}

/// The kind of a listing entry by its "type": "file", "dir", or anything else.
pub fn item_kind(item_type: &str) -> (k: ItemKind)
    ensures
        k == (if item_type@ == "file"@ {
            ItemKind::File
        } else if item_type@ == "dir"@ {
            ItemKind::Dir
        } else {
            ItemKind::Other
        }),
{
    if str_equal(item_type, "file") {
        ItemKind::File
    } else if str_equal(item_type, "dir") {
        ItemKind::Dir
    } else {
        ItemKind::Other
    }
}

/// The directories below the download cache into which a GitHub mod is
/// downloaded: owner, repository, branch ("main" by default), subdirectory.
pub fn download_target(repo: &str, subdir: Option<&str>, branch: Option<&str>) -> (r: Result<
    Vec<String>,
    GitHubError,
>)
    ensures
        r matches Ok(dirs) ==> github_cache_dirs_spec(repo@, opt_str_view(subdir), opt_str_view(branch))
            == Some(views(dirs@)),
        r matches Err(e) ==> github_cache_dirs_spec(repo@, opt_str_view(subdir), opt_str_view(branch))
            is None && e is InvalidRepo && e->InvalidRepo_0@ == repo@,
{
    match github_cache_dirs(repo, subdir, branch) {
        Some(dirs) => Ok(dirs),
        None => Err(GitHubError::InvalidRepo(copy_str(repo))),
    }
}

/// The GitHub Contents API request for a directory of a repository:
/// `https://api.github.com/repos/<owner>/<repo>/contents/<path>?ref=<branch>`.
pub fn contents_api_url(owner: &str, repo: &str, path: &str, branch: &str) -> (u: String)
    ensures
        u@ == "https://api.github.com/repos/"@ + owner@ + "/"@ + repo@ + "/contents/"@ + path@
            + "?ref="@ + branch@,
{
    let a = concat("https://api.github.com/repos/", owner);
    let b = concat(a.as_str(), "/");
    let c = concat(b.as_str(), repo);
    let d = concat(c.as_str(), "/contents/");
    let e = concat(d.as_str(), path);
    let f = concat(e.as_str(), "?ref=");
    concat(f.as_str(), branch)
}

/// The GitHub API request for the branches of a repository ("owner/repo").
pub fn branches_api_url(repo: &str) -> (u: String)
    ensures
        u@ == "https://api.github.com/repos/"@ + repo@ + "/branches"@,
{
    let a = concat("https://api.github.com/repos/", repo);
    concat(a.as_str(), "/branches")
}

/// The GitHub API request for the whole directory tree of a branch.
pub fn tree_api_url(repo: &str, branch: &str) -> (u: String)
    ensures
        u@ == "https://api.github.com/repos/"@ + repo@ + "/git/trees/"@ + branch@
            + "?recursive=1"@,
{
    let a = concat("https://api.github.com/repos/", repo);
    let b = concat(a.as_str(), "/git/trees/");
    let c = concat(b.as_str(), branch);
    concat(c.as_str(), "?recursive=1")
}

} // verus!

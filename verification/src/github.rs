//! Download URLs for repository snapshots on GitHub.

use vstd::prelude::*;
use vstd::string::StringExecFns;

verus! {

/// The archive URL of a branch snapshot.
pub open spec fn spec_branch_url(user: Seq<char>, repository: Seq<char>, branch: Seq<char>) -> Seq<
    char,
> {
    "https://codeload.github.com/"@ + user + "/"@ + repository + "/zip/refs/heads/"@ + branch
}

/// The archive URL of a tag snapshot.
pub open spec fn spec_tag_url(user: Seq<char>, repository: Seq<char>, tag: Seq<char>) -> Seq<char> {
    "https://codeload.github.com/"@ + user + "/"@ + repository + "/zip/refs/tags/"@ + tag
}

/// The archive URL of a commit snapshot.
pub open spec fn spec_commit_url(user: Seq<char>, repository: Seq<char>, commit: Seq<char>) -> Seq<
    char,
> {
    "https://codeload.github.com/"@ + user + "/"@ + repository + "/zip/"@ + commit
}

/// The archive URL of a branch snapshot.
pub fn zip_download_branch_url(user: &str, repository: &str, branch: &str) -> (r: String)
    ensures
        r@ == spec_branch_url(user@, repository@, branch@),
{
    let mut s = String::from_str("https://codeload.github.com/");
    s.append(user);
    s.append("/");
    s.append(repository);
    s.append("/zip/refs/heads/");
    s.append(branch);
    s
}

/// The archive URL of a tag snapshot.
pub fn zip_download_tag_url(user: &str, repository: &str, tag: &str) -> (r: String)
    ensures
        r@ == spec_tag_url(user@, repository@, tag@),
{
    let mut s = String::from_str("https://codeload.github.com/");
    s.append(user);
    s.append("/");
    s.append(repository);
    s.append("/zip/refs/tags/");
    s.append(tag);
    s
}

/// The archive URL of a commit snapshot.
pub fn zip_download_commit_url(user: &str, repository: &str, commit: &str) -> (r: String)
    ensures
        r@ == spec_commit_url(user@, repository@, commit@),
{
    let mut s = String::from_str("https://codeload.github.com/");
    s.append(user);
    s.append("/");
    s.append(repository);
    s.append("/zip/");
    s.append(commit);
    s
}

} // verus!

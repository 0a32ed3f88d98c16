//! Project links and the size and length limits of the interface.
use crate::text::{append_str, chars_of, string_of};
use vstd::prelude::*;

verus! {

pub const GITHUB_USERNAME: &'static str = "Harry-kp";

pub const GITHUB_REPO: &'static str = "mercury";

pub const ISSUES_URL: &'static str = "https://github.com/Harry-kp/mercury/issues";

pub const RELEASES_URL: &'static str = "https://github.com/Harry-kp/mercury/releases";

pub const DOCS_URL: &'static str = "https://harry-kp.github.io/mercury/docs/getting-started";

pub const MAX_TIMELINE_ENTRIES: usize = 50;

pub const URL_TRUNCATE_LENGTH: usize = 35;

pub const HISTORY_URL_TRUNCATE_LENGTH: usize = 25;

pub const STATUS_MSG_TRUNCATE_LENGTH: usize = 60;

/// Responses larger than this are not loaded ("Response Too Large").
pub const MAX_RESPONSE_SIZE: usize = 10 * 1024 * 1024;

/// Larger responses (over 100 KB) are offered as a download instead of
/// shown inline.
pub const MAX_TEXT_DISPLAY_SIZE: usize = 100 * 1024;

/// Larger responses are shown without syntax highlighting.
pub const MAX_HIGHLIGHT_SIZE: usize = 100_000;

pub open spec fn repo_url() -> Seq<char> {
    "https://github.com/"@ + GITHUB_USERNAME@ + "/"@ + GITHUB_REPO@
}

/// The project's page on GitHub.
pub fn get_repo_url() -> (r: String)
    ensures
        r@ == repo_url(),
{
    let mut out = chars_of("https://github.com/");
    append_str(&mut out, GITHUB_USERNAME);
    append_str(&mut out, "/");
    append_str(&mut out, GITHUB_REPO);
    string_of(&out)
}

/// Where issues are reported.
pub fn get_issues_url() -> (r: String)
    ensures
        r@ == repo_url() + "/issues"@,
{
    let mut out = chars_of(get_repo_url().as_str());
    append_str(&mut out, "/issues");
    string_of(&out)
}

/// Where releases are published.
pub fn get_releases_url() -> (r: String)
    ensures
        r@ == repo_url() + "/releases"@,
{
    let mut out = chars_of(get_repo_url().as_str());
    append_str(&mut out, "/releases");
    string_of(&out)
}

} // verus!

//! The queries the tool makes: argument lists for the GitHub client,
//! resolving the authenticated identity from the client's answer, decoding
//! URL answers, and the detailed listing with its synthetic metrics.

use vstd::prelude::*;
use vstd::string::*;
use jiff::ToSpan;
use crate::data::CodeMetrics;
use crate::json::{parse_error_text, parse_url_items, spec_url_list};
use crate::metrics::mock_metrics;
use crate::repo::url_views;
use crate::text::{spec_trim, trim_str};

verus! {

/// The authenticated identity, read from the client's answer to the identity
/// query: the answer text with surrounding white space removed.
pub fn get_current_user(raw: &str) -> (r: String)
    ensures
        r@ == spec_trim(raw@),
{
    trim_str(raw)
}

/// The argument list of the identity query.
pub fn current_user_args() -> (r: Vec<String>)
    ensures
        r@.len() == 4,
        r@[0]@ == "api"@,
        r@[1]@ == "user"@,
        r@[2]@ == "--jq"@,
        r@[3]@ == ".login"@,
{
    let mut r: Vec<String> = Vec::new();
    r.push(String::from_str("api"));
    r.push(String::from_str("user"));
    r.push(String::from_str("--jq"));
    r.push(String::from_str(".login"));
    r
}

/// The argument list of a pull-request search: author, filter, inclusive
/// since-date, URL field selection, and the fixed result cap.
pub fn search_prs_args(username: &str, filter: &str, since: &str) -> (r: Vec<String>)
    ensures
        r@.len() == 7,
        r@[0]@ == "search"@,
        r@[1]@ == "prs"@,
        r@[2]@ == "--author="@ + username@,
        r@[3]@ == filter@,
        r@[4]@ == ">="@ + since@,
        r@[5]@ == "--json=url"@,
        r@[6]@ == "--limit=1000"@,
{
    let mut r: Vec<String> = Vec::new();
    r.push(String::from_str("search"));
    r.push(String::from_str("prs"));
    let mut author = String::from_str("--author=");
    author.append(username);
    r.push(author);
    r.push(String::from_str(filter));
    let mut date = String::from_str(">=");
    date.append(since);
    r.push(date);
    r.push(String::from_str("--json=url"));
    r.push(String::from_str("--limit=1000"));
    r
}

/// The argument list of an issue search: author, filter, inclusive
/// since-date, URL field selection, and the fixed result cap.
pub fn search_issues_args(username: &str, filter: &str, since: &str) -> (r: Vec<String>)
    ensures
        r@.len() == 7,
        r@[0]@ == "search"@,
        r@[1]@ == "issues"@,
        r@[2]@ == "--author="@ + username@,
        r@[3]@ == filter@,
        r@[4]@ == ">="@ + since@,
        r@[5]@ == "--json=url"@,
        r@[6]@ == "--limit=1000"@,
{
    let mut r: Vec<String> = Vec::new();
    r.push(String::from_str("search"));
    r.push(String::from_str("issues"));
    let mut author = String::from_str("--author=");
    author.append(username);
    r.push(author);
    r.push(String::from_str(filter));
    let mut date = String::from_str(">=");
    date.append(since);
    r.push(date);
    r.push(String::from_str("--json=url"));
    r.push(String::from_str("--limit=1000"));
    r
}

/// The argument list of the reviews query: pull requests the user reviewed,
/// updated since the given date.
pub fn pr_reviews_args(username: &str, since: &str) -> (r: Vec<String>)
    ensures
        r@.len() == 7,
        r@[0]@ == "search"@,
        r@[1]@ == "prs"@,
        r@[2]@ == "--reviewed-by="@ + username@,
        r@[3]@ == "--updated"@,
        r@[4]@ == ">="@ + since@,
        r@[5]@ == "--json=url"@,
        r@[6]@ == "--limit=1000"@,
{
    let mut r: Vec<String> = Vec::new();
    r.push(String::from_str("search"));
    r.push(String::from_str("prs"));
    let mut author = String::from_str("--reviewed-by=");
    author.append(username);
    r.push(author);
    r.push(String::from_str("--updated"));
    let mut date = String::from_str(">=");
    date.append(since);
    r.push(date);
    r.push(String::from_str("--json=url"));
    r.push(String::from_str("--limit=1000"));
    r
}

/// The argument list of the comments query: issues the user commented on,
/// created since the given date.
pub fn comments_args(username: &str, since: &str) -> (r: Vec<String>)
    ensures
        r@.len() == 7,
        r@[0]@ == "search"@,
        r@[1]@ == "issues"@,
        r@[2]@ == "--commenter="@ + username@,
        r@[3]@ == "--created"@,
        r@[4]@ == ">="@ + since@,
        r@[5]@ == "--json=url"@,
        r@[6]@ == "--limit=1000"@,
{
    let mut r: Vec<String> = Vec::new();
    r.push(String::from_str("search"));
    r.push(String::from_str("issues"));
    let mut author = String::from_str("--commenter=");
    author.append(username);
    r.push(author);
    r.push(String::from_str("--created"));
    let mut date = String::from_str(">=");
    date.append(since);
    r.push(date);
    r.push(String::from_str("--json=url"));
    r.push(String::from_str("--limit=1000"));
    r
}

/// Decodes a search answer into its URL list: `Ok` exactly when the text is a
/// well-formed array of `url` records, and the parse-error message otherwise.
pub fn decode_url_response(raw: &str) -> (r: Result<Vec<String>, String>)
    ensures
        (r is Ok) == (spec_url_list(raw@) is Some),
        r matches Ok(urls) ==> spec_url_list(raw@) == Some(url_views(urls@)),
        r matches Err(e) ==> e@ == parse_error_text(),
{
    match parse_url_items(raw) {
        Ok(items) => {
            let urls = items.into_urls();
            proof {
                assert(url_views(urls@) =~= spec_url_list(raw@)->0);
            }
            Ok(urls)
        },
        Err(e) => Err(e),
    }
}

/// The message shown when the GitHub client is not installed.
pub fn gh_not_found_message() -> (r: String)
    ensures
        r@ == "GitHub CLI (gh) not found. Please install it from https://cli.github.com/ and make sure it's in your PATH."@,
{
    String::from_str(
        "GitHub CLI (gh) not found. Please install it from https://cli.github.com/ and make sure it's in your PATH.",
    )
}

/// The message wrapping the text a failed client run wrote to its error
/// stream.
pub fn gh_failed_message(stderr: &str) -> (r: String)
    ensures
        r@ == "gh command failed: "@ + stderr@,
{
    let mut s = String::from_str("gh command failed: ");
    s.append(stderr);
    s
}

/// The message wrapping the description of a client run that could not be
/// started for another reason than an absent client.
pub fn gh_spawn_error_message(err: &str) -> (r: String)
    ensures
        r@ == "Failed to execute gh command: "@ + err@,
{
    let mut s = String::from_str("Failed to execute gh command: ");
    s.append(err);
    s
}

/// The hint printed when identity resolution fails.
pub fn auth_hint() -> (r: String)
    ensures
        r@ == "Make sure you're authenticated with 'gh auth login'"@,
{
    String::from_str("Make sure you're authenticated with 'gh auth login'")
}

/// Relies on jiff's Zoned::now, checked_sub and strftime: the calendar date
/// `days` days before now, written out by the `%Y-%m-%d` format, or `None`
/// when the date arithmetic fails.  The result depends on the clock and the
/// time zone, so nothing is stated of it.  jiff documents that a day span
/// holds at most 7,304,484 days and panics past that, so larger values are
/// left out; Zoned::now itself panics only on a system clock outside jiff's
/// representable range.
#[verifier::external_body]
fn now_minus_days_str(days: u32) -> (r: Option<String>)
    requires
        days <= 7_304_484,
{
    let now = jiff::Zoned::now();
    match now.checked_sub((days as i64).days()) {
        Ok(then) => Some(then.strftime("%Y-%m-%d").to_string()),
        Err(_) => None,
    }
}

/// Relies on jiff's Zoned::now and strftime: today's date written out by the
/// `%Y-%m-%d` format.  The result depends on the clock and the time zone, so
/// nothing is stated of it; Zoned::now panics only on a system clock outside
/// jiff's representable range.
#[verifier::external_body]
fn now_str() -> (r: String) {
    jiff::Zoned::now().strftime("%Y-%m-%d").to_string()
}

/// The detailed pull-request listing: each URL paired with a date string and
/// a synthetic metrics triple fabricated from its position — placeholder
/// values, not measurements.  The date steps one day back per position, from
/// today; when the date arithmetic fails it falls back to today.
pub fn pr_details(urls: &Vec<String>) -> (r: Vec<(String, String, CodeMetrics)>)
    requires
        23 * urls@.len() + 50 <= 0x7fff_ffff,
    ensures
        r@.len() == urls@.len(),
        forall|i: int|
            0 <= i < r@.len() ==> (#[trigger] r@[i]).0@ == urls@[i]@ && r@[i].2.additions == 50 + 23
                * i && r@[i].2.deletions == 20 + 7 * i && r@[i].2.changed_files == 3 + (i % 5),
{
    let n = urls.len();
    let mut r: Vec<(String, String, CodeMetrics)> = Vec::new();
    let mut i: usize = 0;
    while i < n
        invariant
            n == urls@.len(),
            23 * n + 50 <= 0x7fff_ffff,
            i <= n,
            r@.len() == i,
            forall|j: int|
                0 <= j < i ==> (#[trigger] r@[j]).0@ == urls@[j]@ && r@[j].2.additions == 50 + 23
                    * j && r@[j].2.deletions == 20 + 7 * j && r@[j].2.changed_files == 3 + (j % 5),
        decreases n - i,
    {
        let url = urls[i].clone();
        let date = if i <= 7_304_484 {
            match now_minus_days_str(i as u32) {
                Some(d) => d,
                None => now_str(),
            }
        } else {
            now_str()
        };
        let m = mock_metrics(i);
        r.push((url, date, m));
        i = i + 1;
    }
    r
}

} // verus!

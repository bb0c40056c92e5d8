//! Laying out the report lines: the compact and verbose listings of a
//! category, and the code-metrics summary with its net-contribution label.

use vstd::prelude::*;
use vstd::relations::sorted_by;
use vstd::string::*;
use crate::data::CodeMetrics;
use crate::metrics::{
    sum_additions, sum_changed_files, sum_deletions, total_additions, total_changed_files,
    total_deletions,
};
use crate::order::{lex_leq_fn, lemma_lex_total_ordering, lemma_sorted_listing_unique, sort_urls};
use crate::repo::{count_distinct_repos, repo_set, url_views};
use crate::text::{dec_chars, fmt_i64, fmt_usize, int_chars, push_char};

verus! {

/// The label column width of every report line.
pub open spec fn label_width() -> int {
    19
}

/// `l` padded on the right with spaces to the label column width.
pub open spec fn spec_pad(l: Seq<char>) -> Seq<char> {
    if l.len() >= label_width() {
        l
    } else {
        l + Seq::new((label_width() - l.len()) as nat, |i: int| ' ')
    }
}

/// Pads `label` on the right with spaces to the label column width.
pub fn pad_label(label: &str) -> (r: String)
    ensures
        r@ == spec_pad(label@),
{
    let n = label.unicode_len();
    let mut s = String::from_str(label);
    let mut k: usize = n;
    while k < 19
        invariant
            n == label@.len(),
            n <= k <= 19 || (n >= 19 && k == n),
            s@ == label@ + Seq::new((k - n) as nat, |i: int| ' '),
        decreases 19 - k,
    {
        push_char(&mut s, ' ');
        assert((label@ + Seq::new((k - n) as nat, |i: int| ' ')).push(' ') =~= label@ + Seq::new(
            (k + 1 - n) as nat,
            |i: int| ' ',
        ));
        k = k + 1;
    }
    proof {
        if n >= 19 {
            assert(s@ =~= label@);
        }
        assert(s@ =~= spec_pad(label@));
    }
    s
}

/// The word behind the repository count: singular exactly for one.
pub open spec fn repo_word(n: int) -> Seq<char> {
    if n == 1 {
        "repository"@
    } else {
        "repositories"@
    }
}

/// The compact line of a category: the padded label, the raw count of URLs,
/// and the count of distinct repositories with its pluralized word.
pub open spec fn spec_compact_line(label: Seq<char>, total: nat, repos: nat) -> Seq<char> {
    spec_pad(label) + dec_chars(total) + " across "@ + dec_chars(repos) + seq![' '] + repo_word(
        repos as int,
    )
}

/// Builds the compact line of a category: every URL counts toward the total,
/// and the repository count is the number of distinct extracted keys.
pub fn compact_line(label: &str, urls: &Vec<String>) -> (r: String)
    ensures
        r@ == spec_compact_line(
            label@,
            urls@.len() as nat,
            repo_set(url_views(urls@)).len() as nat,
        ),
{
    let mut s = pad_label(label);
    let total = fmt_usize(urls.len());
    s.append(total.as_str());
    s.append(" across ");
    let repos = count_distinct_repos(urls);
    let repo_count = fmt_usize(repos);
    s.append(repo_count.as_str());
    push_char(&mut s, ' ');
    if repos == 1 {
        s.append("repository");
    } else {
        s.append("repositories");
    }
    proof {
        reveal_strlit(" across ");
        reveal_strlit("repository");
        reveal_strlit("repositories");
        assert(s@ =~= spec_compact_line(
            label@,
            urls@.len() as nat,
            repo_set(url_views(urls@)).len() as nat,
        ));
    }
    s
}

/// The header line of a verbose category listing: padded label and raw count.
pub open spec fn spec_verbose_header(label: Seq<char>, total: nat) -> Seq<char> {
    spec_pad(label) + dec_chars(total)
}

/// One bullet line of a verbose listing.
pub open spec fn spec_bullet_line(url: Seq<char>) -> Seq<char> {
    "  - "@ + url
}

/// Builds the verbose listing of a category: a header with the raw count,
/// then one bullet line per URL in lexicographic order — the same lines for
/// any arrival order of the URLs.  An empty category gives the header alone.
pub fn verbose_lines(label: &str, urls: &Vec<String>) -> (r: Vec<String>)
    ensures
        r@.len() == 1 + urls@.len(),
        r@[0]@ == spec_verbose_header(label@, urls@.len() as nat),
        sorted_by(url_views(urls@).sort_by(lex_leq_fn()), lex_leq_fn()),
        forall|i: int|
            1 <= i < r@.len() ==> #[trigger] r@[i]@ == spec_bullet_line(
                url_views(urls@).sort_by(lex_leq_fn())[i - 1],
            ),
{
    let mut header = pad_label(label);
    let total = fmt_usize(urls.len());
    header.append(total.as_str());
    let mut r: Vec<String> = Vec::new();
    r.push(header);
    let sorted = sort_urls(urls);
    proof {
        lemma_lex_total_ordering();
        url_views(urls@).lemma_sort_by_ensures(lex_leq_fn());
        lemma_sorted_listing_unique(
            url_views(sorted@),
            url_views(urls@).sort_by(lex_leq_fn()),
        );
        assert(url_views(sorted@).len() == url_views(sorted@).to_multiset().len()) by {
            url_views(sorted@).to_multiset_ensures();
        }
        assert(url_views(urls@).len() == url_views(urls@).to_multiset().len()) by {
            url_views(urls@).to_multiset_ensures();
        }
    }
    let ghost sorted_spec = url_views(urls@).sort_by(lex_leq_fn());
    let n = sorted.len();
    let mut i: usize = 0;
    while i < n
        invariant
            n == sorted@.len(),
            i <= n,
            url_views(sorted@) == sorted_spec,
            r@.len() == 1 + i,
            r@[0]@ == spec_verbose_header(label@, n as nat),
            forall|j: int|
                1 <= j < r@.len() ==> #[trigger] r@[j]@ == spec_bullet_line(sorted_spec[j - 1]),
        decreases n - i,
    {
        let mut line = String::from_str("  - ");
        line.append(sorted[i].as_str());
        proof {
            assert(sorted@[i as int]@ == url_views(sorted@)[i as int]);
        }
        r.push(line);
        i = i + 1;
    }
    r
}

/// The separating rule of the report: fifty equals signs.
pub fn rule_line() -> (r: String)
    ensures
        r@ == Seq::new(50, |i: int| '='),
{
    let mut s = String::new();
    let mut k: usize = 0;
    while k < 50
        invariant
            k <= 50,
            s@ == Seq::new(k as nat, |i: int| '='),
        decreases 50 - k,
    {
        push_char(&mut s, '=');
        assert(s@ =~= Seq::new((k + 1) as nat, |i: int| '='));
        k = k + 1;
    }
    s
}

/// The line naming the authenticated user.
pub fn user_line(user: &str) -> (r: String)
    ensures
        r@ == "GitHub User: "@ + user@,
{
    let mut s = String::from_str("GitHub User: ");
    s.append(user);
    s
}

/// The heading of the report: the activity window's inclusive start date.
pub fn activity_header(since: &str) -> (r: String)
    ensures
        r@ == "GitHub Activity since "@ + since@ + seq![':'],
{
    let mut s = String::from_str("GitHub Activity since ");
    s.append(since);
    push_char(&mut s, ':');
    s
}

/// The category metrics line: the padded label, then the total additions,
/// deletions and changed files of the listing.
pub open spec fn spec_metrics_line(label: Seq<char>, s: Seq<CodeMetrics>) -> Seq<char> {
    spec_pad(label) + "+ "@ + int_chars(sum_additions(s)) + "  - "@ + int_chars(sum_deletions(s))
        + "  files: "@ + int_chars(sum_changed_files(s))
}

/// Builds the per-category code-metrics line from the listing's totals.
pub fn code_metrics_line(label: &str, metrics: &Vec<CodeMetrics>) -> (r: String)
    requires
        metrics@.len() <= 0x7fff_ffff,
    ensures
        r@ == spec_metrics_line(label@, metrics@),
{
    let mut s = pad_label(label);
    s.append("+ ");
    let adds = fmt_i64(total_additions(metrics));
    s.append(adds.as_str());
    s.append("  - ");
    let dels = fmt_i64(total_deletions(metrics));
    s.append(dels.as_str());
    s.append("  files: ");
    let files = fmt_i64(total_changed_files(metrics));
    s.append(files.as_str());
    proof {
        reveal_strlit("+ ");
        reveal_strlit("  - ");
        reveal_strlit("  files: ");
        assert(s@ =~= spec_metrics_line(label@, metrics@));
    }
    s
}

/// The net line count of a listing: additions minus deletions.
pub open spec fn net_lines(s: Seq<CodeMetrics>) -> int {
    sum_additions(s) - sum_deletions(s)
}

/// The lines of the code-metrics summary: the three totals, then the net
/// contribution.  The net line carries an explicit `+` exactly when additions
/// outnumber deletions; otherwise — the balanced case included — it carries
/// the cleanup label.
pub open spec fn spec_summary_lines(s: Seq<CodeMetrics>) -> Seq<Seq<char>> {
    let net = net_lines(s);
    seq![
        "Total lines added:   "@ + int_chars(sum_additions(s)),
        "Total lines deleted: "@ + int_chars(sum_deletions(s)),
        "Total files changed: "@ + int_chars(sum_changed_files(s)),
        if net > 0 {
            "Net contribution:    + "@ + int_chars(net)
        } else {
            "Net contribution:    "@ + int_chars(net) + " (cleanup/refactoring)"@
        },
    ]
}

/// Builds the code-metrics summary lines from a listing.
pub fn summary_lines(metrics: &Vec<CodeMetrics>) -> (r: Vec<String>)
    requires
        metrics@.len() <= 0x7fff_ffff,
    ensures
        r@.len() == 4,
        forall|i: int| 0 <= i < 4 ==> #[trigger] r@[i]@ == spec_summary_lines(metrics@)[i],
{
    let adds = total_additions(metrics);
    let dels = total_deletions(metrics);
    let files = total_changed_files(metrics);
    let mut r: Vec<String> = Vec::new();

    let mut l1 = String::from_str("Total lines added:   ");
    let s1 = fmt_i64(adds);
    l1.append(s1.as_str());
    r.push(l1);

    let mut l2 = String::from_str("Total lines deleted: ");
    let s2 = fmt_i64(dels);
    l2.append(s2.as_str());
    r.push(l2);

    let mut l3 = String::from_str("Total files changed: ");
    let s3 = fmt_i64(files);
    l3.append(s3.as_str());
    r.push(l3);

    let net = adds - dels;
    let mut l4 = String::from_str("Net contribution:    ");
    if net > 0 {
        l4.append("+ ");
        let s4 = fmt_i64(net);
        l4.append(s4.as_str());
    } else {
        let s4 = fmt_i64(net);
        l4.append(s4.as_str());
        l4.append(" (cleanup/refactoring)");
    }
    r.push(l4);

    proof {
        reveal_strlit("Total lines added:   ");
        reveal_strlit("Total lines deleted: ");
        reveal_strlit("Total files changed: ");
        reveal_strlit("Net contribution:    ");
        reveal_strlit("Net contribution:    + ");
        reveal_strlit("+ ");
        reveal_strlit(" (cleanup/refactoring)");
        assert(r@[0]@ =~= spec_summary_lines(metrics@)[0]);
        assert(r@[1]@ =~= spec_summary_lines(metrics@)[1]);
        assert(r@[2]@ =~= spec_summary_lines(metrics@)[2]);
        assert(r@[3]@ =~= spec_summary_lines(metrics@)[3]);
    }
    r
}

} // verus!

//! Deriving an `owner/repo` key from an activity URL, and counting the
//! distinct repositories behind a list of URLs.

use vstd::prelude::*;
use vstd::string::*;
use crate::text::{chars_to_string, str_chars};

verus! {

/// The pieces of `s` between `'/'` characters, in order.  A string with no
/// `'/'` is one piece; every `'/'` ends a piece, so `n` slashes give `n + 1`
/// pieces, some possibly empty.
pub open spec fn split_slashes(s: Seq<char>) -> Seq<Seq<char>>
    decreases s.len(),
{
    if s.len() == 0 {
        seq![Seq::<char>::empty()]
    } else if s[0] == '/' {
        seq![Seq::<char>::empty()] + split_slashes(s.drop_first())
    } else {
        let rest = split_slashes(s.drop_first());
        seq![seq![s[0]] + rest[0]] + rest.drop_first()
    }
}

pub proof fn lemma_split_slashes_len(s: Seq<char>)
    ensures
        split_slashes(s).len() >= 1,
    decreases s.len(),
{
    if s.len() > 0 {
        lemma_split_slashes_len(s.drop_first());
    }
}

/// The repository key of `url`: the fourth and fifth `'/'`-pieces joined by a
/// `'/'`, provided the URL has at least five pieces and its third piece (the
/// domain) is `github.com`; any other shape yields no key.
pub open spec fn spec_extract_repo(url: Seq<char>) -> Option<Seq<char>> {
    let parts = split_slashes(url);
    if parts.len() >= 5 && parts[2] == "github.com"@ {
        Some(parts[3] + seq!['/'] + parts[4])
    } else {
        None
    }
}

fn split_chars(cs: &Vec<char>, i: usize) -> (r: Vec<Vec<char>>)
    requires
        i <= cs@.len(),
    ensures
        r@.len() == split_slashes(cs@.skip(i as int)).len(),
        forall|k: int|
            0 <= k < r@.len() ==> r@[k]@ == split_slashes(cs@.skip(i as int))[k],
    decreases cs@.len() - i,
{
    let ghost tail = cs@.skip(i as int);
    if i == cs.len() {
        let mut r: Vec<Vec<char>> = Vec::new();
        r.push(Vec::new());
        assert(tail =~= Seq::<char>::empty());
        r
    } else {
        let mut rest = split_chars(cs, i + 1);
        assert(cs@.skip(i + 1) =~= tail.drop_first());
        proof {
            lemma_split_slashes_len(tail.drop_first());
        }
        if cs[i] == '/' {
            rest.insert(0, Vec::new());
            rest
        } else {
            let mut first = rest.remove(0);
            first.insert(0, cs[i]);
            rest.insert(0, first);
            rest
        }
    }
}

/// Extracts the `owner/repo` key from a GitHub URL such as
/// `https://github.com/owner/repo/...`; URLs of any other shape give `None`.
pub fn extract_repo(url: &str) -> (r: Option<String>)
    ensures
        r is Some <==> spec_extract_repo(url@) is Some,
        r matches Some(s) ==> spec_extract_repo(url@) == Some(s@),
{
    let cs = str_chars(url);
    let parts = split_chars(&cs, 0);
    assert(cs@.skip(0) =~= url@);
    if parts.len() >= 5 {
        let host = chars_to_string(&parts[2]);
        let expected = String::from_str("github.com");
        if host == expected {
            let mut out = chars_to_string(&parts[3]);
            out.append("/");
            let tail = chars_to_string(&parts[4]);
            out.append(tail.as_str());
            proof {
                reveal_strlit("/");
                assert(out@ =~= split_slashes(url@)[3] + seq!['/'] + split_slashes(url@)[4]);
            }
            Some(out)
        } else {
            None
        }
    } else {
        None
    }
}

pub proof fn lemma_split_no_slash(a: Seq<char>)
    requires
        forall|k: int| 0 <= k < a.len() ==> a[k] != '/',
    ensures
        split_slashes(a) == seq![a],
    decreases a.len(),
{
    if a.len() == 0 {
        assert(a =~= Seq::<char>::empty());
        assert(split_slashes(a) =~= seq![a]);
    } else {
        lemma_split_no_slash(a.drop_first());
        assert(seq![a[0]] + a.drop_first() =~= a);
        assert(split_slashes(a) =~= seq![a]);
    }
}

pub proof fn lemma_split_concat(a: Seq<char>, b: Seq<char>)
    requires
        forall|k: int| 0 <= k < a.len() ==> a[k] != '/',
    ensures
        split_slashes(a + seq!['/'] + b) == seq![a] + split_slashes(b),
    decreases a.len(),
{
    let s = a + seq!['/'] + b;
    if a.len() == 0 {
        assert(a =~= Seq::<char>::empty());
        assert(s[0] == '/');
        assert(s.drop_first() =~= b);
        assert(split_slashes(s) =~= seq![a] + split_slashes(b));
    } else {
        lemma_split_concat(a.drop_first(), b);
        assert(s[0] == a[0]);
        assert(s.drop_first() =~= a.drop_first() + seq!['/'] + b);
        let rest = split_slashes(s.drop_first());
        assert(rest == seq![a.drop_first()] + split_slashes(b));
        assert(rest[0] == a.drop_first());
        assert(seq![s[0]] + rest[0] =~= a);
        assert(rest.drop_first() =~= split_slashes(b));
        assert(split_slashes(s) =~= seq![a] + split_slashes(b));
    }
}

/// For any URL of the shape `https://<host>/<owner>/<repo><rest>` — where the
/// host, owner and repo pieces hold no `'/'` and `rest` is either empty or
/// begins with `'/'` — extraction yields `owner/repo` exactly when the host is
/// `github.com`, and nothing for any other host.
pub proof fn lemma_extract_repo_pattern(
    host: Seq<char>,
    owner: Seq<char>,
    repo: Seq<char>,
    rest: Seq<char>,
)
    requires
        forall|k: int| 0 <= k < host.len() ==> host[k] != '/',
        forall|k: int| 0 <= k < owner.len() ==> owner[k] != '/',
        forall|k: int| 0 <= k < repo.len() ==> repo[k] != '/',
        rest.len() == 0 || rest[0] == '/',
    ensures
        spec_extract_repo("https://"@ + host + seq!['/'] + owner + seq!['/'] + repo + rest) == (
        if host == "github.com"@ {
            Some(owner + seq!['/'] + repo)
        } else {
            None
        }),
{
    reveal_strlit("https://");
    let url = "https://"@ + host + seq!['/'] + owner + seq!['/'] + repo + rest;
    let scheme = seq!['h', 't', 't', 'p', 's', ':'];
    let t2 = host + seq!['/'] + (owner + seq!['/'] + (repo + rest));
    let t3 = owner + seq!['/'] + (repo + rest);
    let t4 = repo + rest;
    assert(url =~= scheme + seq!['/'] + (Seq::<char>::empty() + seq!['/'] + t2));
    lemma_split_concat(scheme, Seq::<char>::empty() + seq!['/'] + t2);
    lemma_split_concat(Seq::<char>::empty(), t2);
    lemma_split_concat(host, t3);
    lemma_split_concat(owner, t4);
    if rest.len() == 0 {
        assert(t4 =~= repo);
        lemma_split_no_slash(repo);
        assert(split_slashes(t4) == seq![repo]);
    } else {
        assert(t4 =~= repo + seq!['/'] + rest.drop_first());
        lemma_split_concat(repo, rest.drop_first());
    }
    let parts = split_slashes(url);
    assert(parts =~= seq![scheme] + (seq![Seq::<char>::empty()] + (seq![host] + (seq![owner]
        + split_slashes(t4)))));
    lemma_split_slashes_len(t4);
    assert(parts.len() >= 5);
    assert(parts[2] == host);
    assert(parts[3] == owner);
    assert(parts[4] == repo) by {
        assert(parts[4] == split_slashes(t4)[0]);
        if rest.len() != 0 {
            assert(split_slashes(t4) == seq![repo] + split_slashes(rest.drop_first()));
        }
    }
}

/// The set of repository keys of the URLs in `urls` that have one.
pub open spec fn repo_set(urls: Seq<Seq<char>>) -> Set<Seq<char>>
    decreases urls.len(),
{
    if urls.len() == 0 {
        Set::empty()
    } else {
        let rest = repo_set(urls.drop_last());
        match spec_extract_repo(urls.last()) {
            Some(r) => rest.insert(r),
            None => rest,
        }
    }
}

pub proof fn lemma_repo_set_finite(urls: Seq<Seq<char>>)
    ensures
        repo_set(urls).finite(),
    decreases urls.len(),
{
    if urls.len() > 0 {
        lemma_repo_set_finite(urls.drop_last());
    }
}

/// The distinct-repository set is exactly the set of non-`None` extraction
/// results: a key is in it just when some URL of the list extracts to it, so
/// URLs without a key contribute nothing to it.
pub proof fn lemma_repo_set_members(urls: Seq<Seq<char>>)
    ensures
        forall|x: Seq<char>|
            repo_set(urls).contains(x) <==> exists|i: int|
                0 <= i < urls.len() && spec_extract_repo(#[trigger] urls[i]) == Some(x),
    decreases urls.len(),
{
    if urls.len() > 0 {
        lemma_repo_set_members(urls.drop_last());
        assert forall|x: Seq<char>| repo_set(urls).contains(x) implies exists|i: int|
            0 <= i < urls.len() && spec_extract_repo(#[trigger] urls[i]) == Some(x) by {
            if spec_extract_repo(urls.last()) == Some(x) {
                assert(spec_extract_repo(urls[urls.len() - 1]) == Some(x));
            } else {
                assert(repo_set(urls.drop_last()).contains(x));
                let i = choose|i: int|
                    0 <= i < urls.drop_last().len() && spec_extract_repo(
                        #[trigger] urls.drop_last()[i],
                    ) == Some(x);
                assert(urls[i] == urls.drop_last()[i]);
            }
        }
        assert forall|x: Seq<char>|
            (exists|i: int|
                0 <= i < urls.len() && spec_extract_repo(#[trigger] urls[i]) == Some(
                    x,
                )) implies repo_set(urls).contains(x) by {
            let i = choose|i: int|
                0 <= i < urls.len() && spec_extract_repo(#[trigger] urls[i]) == Some(x);
            if i < urls.len() - 1 {
                assert(urls.drop_last()[i] == urls[i]);
                assert(repo_set(urls.drop_last()).contains(x));
            }
        }
    }
}

/// The views of a list of URL strings.
pub open spec fn url_views(s: Seq<String>) -> Seq<Seq<char>> {
    Seq::new(s.len(), |i: int| s[i]@)
}

fn seen_contains(seen: &Vec<String>, x: &String) -> (r: bool)
    ensures
        r == exists|j: int| 0 <= j < seen@.len() && #[trigger] seen@[j]@ == x@,
{
    let n = seen.len();
    let mut j: usize = 0;
    while j < n
        invariant
            n == seen@.len(),
            j <= n,
            forall|k: int| 0 <= k < j ==> #[trigger] seen@[k]@ != x@,
        decreases n - j,
    {
        if seen[j].eq(x) {
            return true;
        }
        j = j + 1;
    }
    false
}

/// Counts how many distinct repository keys the URLs of `urls` extract to;
/// URLs without a key are left out of the count.
pub fn count_distinct_repos(urls: &Vec<String>) -> (r: usize)
    ensures
        r == repo_set(url_views(urls@)).len(),
{
    let ghost all = url_views(urls@);
    let mut seen: Vec<String> = Vec::new();
    let n = urls.len();
    let mut i: usize = 0;
    while i < n
        invariant
            n == urls@.len(),
            i <= n,
            all == url_views(urls@),
            forall|j: int, k: int|
                0 <= j < k < seen@.len() ==> seen@[j]@ != seen@[k]@,
            forall|x: Seq<char>| #![trigger repo_set(all.take(i as int)).contains(x)]
                repo_set(all.take(i as int)).contains(x) <==> exists|j: int|
                    0 <= j < seen@.len() && #[trigger] seen@[j]@ == x,
            seen@.len() == repo_set(all.take(i as int)).len(),
            repo_set(all.take(i as int)).finite(),
        decreases n - i,
    {
        let ghost prefix = all.take(i as int);
        let ghost prefix1 = all.take(i + 1);
        proof {
            assert(prefix1.drop_last() =~= prefix);
            assert(prefix1.last() == urls@[i as int]@);
        }
        let found = extract_repo(&urls[i]);
        match found {
            Some(key) => {
                let ghost kv = key@;
                let is_old = seen_contains(&seen, &key);
                let ghost old_seen = seen@;
                proof {
                    vstd::set::axiom_set_insert_len(repo_set(prefix), kv);
                    assert(repo_set(all.take(i as int)).contains(kv) <==> exists|j: int|
                        0 <= j < seen@.len() && #[trigger] seen@[j]@ == kv);
                    assert(repo_set(prefix).contains(kv) == is_old);
                    assert(repo_set(prefix1) == repo_set(prefix).insert(kv));
                }
                if !is_old {
                    seen.push(key);
                }
                proof {
                    if is_old {
                        assert(repo_set(prefix1) =~= repo_set(prefix));
                        assert forall|x: Seq<char>| #![trigger repo_set(prefix1).contains(x)]
                            repo_set(prefix1).contains(x) <==> exists|j: int|
                                0 <= j < seen@.len() && #[trigger] seen@[j]@ == x by {
                            assert(repo_set(prefix1).contains(x) == repo_set(prefix).contains(x));
                        }
                    } else {
                        assert(seen@ =~= old_seen.push(seen@.last()));
                        assert(seen@.last()@ == kv);
                        assert(forall|j: int|
                            0 <= j < old_seen.len() ==> #[trigger] old_seen[j]@ != kv);
                        assert forall|x: Seq<char>| #![trigger repo_set(prefix1).contains(x)]
                            repo_set(prefix1).contains(x) <==> exists|j: int|
                                0 <= j < seen@.len() && #[trigger] seen@[j]@ == x by {
                            if repo_set(prefix1).contains(x) {
                                if x == kv {
                                    assert(seen@[seen@.len() - 1]@ == x);
                                } else {
                                    assert(repo_set(prefix).contains(x));
                                    let j = choose|j: int|
                                        0 <= j < old_seen.len() && #[trigger] old_seen[j]@ == x;
                                    assert(seen@[j]@ == x);
                                }
                            }
                            if exists|j: int| 0 <= j < seen@.len() && #[trigger] seen@[j]@ == x {
                                let j = choose|j: int|
                                    0 <= j < seen@.len() && #[trigger] seen@[j]@ == x;
                                if j == seen@.len() - 1 {
                                    assert(x == kv);
                                    assert(repo_set(prefix1).contains(x));
                                } else {
                                    assert(old_seen[j]@ == x);
                                    assert(repo_set(prefix).contains(x));
                                }
                            }
                        }
                        assert(forall|j: int, k: int|
                            0 <= j < k < seen@.len() ==> seen@[j]@ != seen@[k]@);
                    }
                }
            },
            None => {
                proof {
                    assert(repo_set(prefix1) == repo_set(prefix));
                    assert forall|x: Seq<char>| #![trigger repo_set(prefix1).contains(x)]
                        repo_set(prefix1).contains(x) <==> exists|j: int|
                            0 <= j < seen@.len() && #[trigger] seen@[j]@ == x by {
                        assert(repo_set(prefix1).contains(x) == repo_set(prefix).contains(x));
                    }
                }
            },
        }
        i = i + 1;
    }
    proof {
        assert(all.take(n as int) =~= all);
    }
    seen.len()
}

} // verus!

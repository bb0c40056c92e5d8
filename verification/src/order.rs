//! Lexicographic ordering of URLs and the sorted listing used by the verbose
//! report.

use vstd::prelude::*;
use vstd::relations::{sorted_by, total_ordering};
use vstd::seq_lib::lemma_multiset_commutative;
use vstd::seq_lib::lemma_sorted_unique;
use vstd::string::*;
use crate::repo::url_views;
use crate::text::str_chars;

verus! {

/// Code-point comparison of `a` and `b` from position `i` on: `a` comes first
/// when its first differing character is smaller, or when it runs out first.
pub open spec fn lex_leq_from(a: Seq<char>, b: Seq<char>, i: int) -> bool
    decreases a.len() - i,
{
    if i >= a.len() {
        true
    } else if i >= b.len() {
        false
    } else if a[i] != b[i] {
        a[i] < b[i]
    } else {
        lex_leq_from(a, b, i + 1)
    }
}

/// Lexicographic order of character sequences, by code point.
pub open spec fn lex_leq(a: Seq<char>, b: Seq<char>) -> bool {
    lex_leq_from(a, b, 0)
}

/// The lexicographic order as a comparison function handed to `sorted_by`.
pub open spec fn lex_leq_fn() -> spec_fn(Seq<char>, Seq<char>) -> bool {
    |a: Seq<char>, b: Seq<char>| lex_leq(a, b)
}

proof fn lemma_lex_from_refl(a: Seq<char>, i: int)
    ensures
        lex_leq_from(a, a, i),
    decreases a.len() - i,
{
    if i < a.len() {
        lemma_lex_from_refl(a, i + 1);
    }
}

proof fn lemma_lex_from_connected(a: Seq<char>, b: Seq<char>, i: int)
    requires
        0 <= i,
    ensures
        lex_leq_from(a, b, i) || lex_leq_from(b, a, i),
    decreases a.len() - i,
{
    if i < a.len() && i < b.len() {
        if a[i] == b[i] {
            lemma_lex_from_connected(a, b, i + 1);
        }
    }
}

proof fn lemma_lex_from_antisym(a: Seq<char>, b: Seq<char>, i: int)
    requires
        0 <= i <= a.len(),
        i <= b.len(),
        lex_leq_from(a, b, i),
        lex_leq_from(b, a, i),
    ensures
        a.skip(i) =~= b.skip(i),
    decreases a.len() - i,
{
    if i >= a.len() {
        assert(i >= b.len());
    } else {
        assert(i < b.len());
        assert(a[i] == b[i]);
        lemma_lex_from_antisym(a, b, i + 1);
        assert forall|k: int| 0 <= k < a.skip(i).len() implies a.skip(i)[k] == b.skip(i)[k] by {
            if k > 0 {
                assert(a.skip(i + 1)[k - 1] == b.skip(i + 1)[k - 1]);
            }
        }
    }
}

proof fn lemma_lex_from_trans(a: Seq<char>, b: Seq<char>, c: Seq<char>, i: int)
    requires
        lex_leq_from(a, b, i),
        lex_leq_from(b, c, i),
    ensures
        lex_leq_from(a, c, i),
    decreases a.len() - i,
{
    if i < a.len() {
        assert(i < b.len());
        if a[i] == b[i] && i < c.len() && b[i] == c[i] {
            lemma_lex_from_trans(a, b, c, i + 1);
        }
    }
}

/// The lexicographic order is a total order: reflexive, antisymmetric,
/// transitive, and any two sequences are comparable.
pub proof fn lemma_lex_total_ordering()
    ensures
        total_ordering(lex_leq_fn()),
{
    let leq = lex_leq_fn();
    assert forall|x: Seq<char>| #[trigger] leq(x, x) by {
        lemma_lex_from_refl(x, 0);
    }
    assert forall|x: Seq<char>, y: Seq<char>| #[trigger] leq(x, y) && #[trigger] leq(y, x) implies x
        == y by {
        lemma_lex_from_antisym(x, y, 0);
        assert(x.skip(0) =~= x);
        assert(y.skip(0) =~= y);
    }
    assert forall|x: Seq<char>, y: Seq<char>, z: Seq<char>|
        #[trigger] leq(x, y) && #[trigger] leq(y, z) implies leq(x, z) by {
        lemma_lex_from_trans(x, y, z, 0);
    }
    assert forall|x: Seq<char>, y: Seq<char>| #[trigger] leq(x, y) || #[trigger] leq(y, x) by {
        lemma_lex_from_connected(x, y, 0);
    }
}

fn lex_leq_rec(a: &Vec<char>, b: &Vec<char>, i: usize) -> (r: bool)
    requires
        i <= a@.len(),
        i <= b@.len(),
    ensures
        r == lex_leq_from(a@, b@, i as int),
    decreases a@.len() - i,
{
    if i == a.len() {
        true
    } else if i == b.len() {
        false
    } else if a[i] != b[i] {
        a[i] < b[i]
    } else {
        lex_leq_rec(a, b, i + 1)
    }
}

/// Whether `a` comes before `b` (or equals it) in lexicographic order.
pub fn str_leq(a: &str, b: &str) -> (r: bool)
    ensures
        r == lex_leq(a@, b@),
{
    let ca = str_chars(a);
    let cb = str_chars(b);
    lex_leq_rec(&ca, &cb, 0)
}

proof fn lemma_insert_to_multiset(s: Seq<Seq<char>>, k: int, v: Seq<char>)
    requires
        0 <= k <= s.len(),
    ensures
        s.insert(k, v).to_multiset() == s.to_multiset().insert(v),
{
    broadcast use vstd::multiset::group_multiset_axioms;
    broadcast use vstd::seq_lib::group_to_multiset_ensures;

    let a = s.subrange(0, k);
    let b = s.subrange(k, s.len() as int);
    assert(s =~= a + b);
    lemma_multiset_commutative(a, b);
    assert(s.insert(k, v) == a.push(v) + b);
    lemma_multiset_commutative(a.push(v), b);
    assert(a.push(v).to_multiset() == a.to_multiset().insert(v));
    assert(s.insert(k, v).to_multiset() =~= s.to_multiset().insert(v));
}

fn find_insert_pos(r: &Vec<String>, x: &String) -> (k: usize)
    ensures
        k <= r@.len(),
        forall|j: int| 0 <= j < k ==> lex_leq(#[trigger] url_views(r@)[j], x@),
        k < r@.len() ==> !lex_leq(url_views(r@)[k as int], x@),
{
    let mut k: usize = 0;
    while k < r.len()
        invariant
            k <= r@.len(),
            forall|j: int| 0 <= j < k ==> lex_leq(#[trigger] url_views(r@)[j], x@),
        decreases r@.len() - k,
    {
        if !str_leq(r[k].as_str(), x.as_str()) {
            return k;
        }
        k = k + 1;
    }
    k
}

fn insert_sorted(r: &mut Vec<String>, x: String)
    requires
        sorted_by(url_views(old(r)@), lex_leq_fn()),
    ensures
        sorted_by(url_views(final(r)@), lex_leq_fn()),
        url_views(final(r)@).to_multiset() == url_views(old(r)@).to_multiset().insert(x@),
{
    proof {
        lemma_lex_total_ordering();
    }
    let ghost s = url_views(r@);
    let ghost xv = x@;
    let k = find_insert_pos(r, &x);
    r.insert(k, x);
    proof {
        let s1 = url_views(r@);
        assert(s1 =~= s.insert(k as int, xv));
        lemma_insert_to_multiset(s, k as int, xv);
        let leq = lex_leq_fn();
        if (k as int) < s.len() {
            assert(!leq(s[k as int], xv));
            assert(leq(xv, s[k as int]));
        }
        assert forall|i: int, j: int| 0 <= i < j < s1.len() implies #[trigger] leq(
            s1[i],
            s1[j],
        ) by {
            if j < k {
                assert(leq(s[i], s[j]));
            } else if i > k {
                assert(leq(s[i - 1], s[j - 1]));
            } else if i == k {
                assert(s1[i] == xv);
                assert(s1[j] == s[j - 1]);
                assert(leq(xv, s[k as int]));
                if j - 1 > k {
                    assert(leq(s[k as int], s[j - 1]));
                }
            } else if j == k {
                assert(leq(s[i], xv));
            } else {
                assert(i < k < j);
                assert(leq(s[i], s[j - 1]));
            }
        }
    }
}

/// The URLs of `urls` in lexicographic order: the result is sorted and holds
/// exactly the same strings, multiplicity included.
pub fn sort_urls(urls: &Vec<String>) -> (r: Vec<String>)
    ensures
        sorted_by(url_views(r@), lex_leq_fn()),
        url_views(r@).to_multiset() == url_views(urls@).to_multiset(),
{
    let ghost all = url_views(urls@);
    let mut r: Vec<String> = Vec::new();
    let n = urls.len();
    let mut i: usize = 0;
    proof {
        assert(url_views(r@) =~= Seq::<Seq<char>>::empty());
        assert(all.take(0) =~= Seq::<Seq<char>>::empty());
    }
    while i < n
        invariant
            n == urls@.len(),
            i <= n,
            all == url_views(urls@),
            sorted_by(url_views(r@), lex_leq_fn()),
            url_views(r@).to_multiset() == all.take(i as int).to_multiset(),
        decreases n - i,
    {
        let x = urls[i].clone();
        proof {
            all.take(i as int).to_multiset_ensures();
            assert(x@ == all[i as int]);
            assert(all.take(i + 1) =~= all.take(i as int).push(all[i as int]));
            assert((all.take(i as int).push(all[i as int])).to_multiset() == all.take(
                i as int,
            ).to_multiset().insert(all[i as int]));
            assert(all.take(i + 1).to_multiset() == all.take(i as int).to_multiset().insert(
                all[i as int],
            ));
        }
        insert_sorted(&mut r, x);
        i = i + 1;
    }
    proof {
        assert(all.take(n as int) =~= all);
    }
    r
}

/// Sorting is canonical: two URL lists holding the same strings (multiplicity
/// included, order aside) have the same sorted listing, so the verbose report
/// does not depend on the order the tool returned them in.
pub proof fn lemma_sorted_listing_unique(s1: Seq<Seq<char>>, s2: Seq<Seq<char>>)
    requires
        sorted_by(s1, lex_leq_fn()),
        sorted_by(s2, lex_leq_fn()),
        s1.to_multiset() == s2.to_multiset(),
    ensures
        s1 == s2,
{
    lemma_lex_total_ordering();
    lemma_sorted_unique(s1, s2, lex_leq_fn());
}

} // verus!

//! Fuzzy filtering of names for the picker's search, scored by `nucleo_matcher`.
use vstd::prelude::*;

use nucleo_matcher::pattern::{Atom, AtomKind, CaseMatching, Normalization};
use nucleo_matcher::{Config, Matcher, Utf32Str};

use crate::text::views;

verus! {

#[verifier::external_type_specification]
#[verifier::external_body]
pub struct ExMatcher(nucleo_matcher::Matcher);

// The score that `nucleo_matcher` gives `item` for the fuzzy pattern `query`
// (smart case, smart normalisation), or `None` where it does not match.
pub uninterp spec fn fuzzy_score_of(query: Seq<char>, item: Seq<char>) -> Option<u16>;

/// Short enough for the matcher: it panics on a haystack of more than `u32::MAX`
/// entries, and `Utf32Str::new` makes at most one entry per character (one per byte
/// of an ASCII text, one per grapheme cluster of any other).
pub open spec fn matchable(s: Seq<char>) -> bool {
    s.len() <= 0xffff_ffff
}

/// Every name is short enough for the matcher.
pub open spec fn all_matchable(items: Seq<Seq<char>>) -> bool {
    forall|i: int| 0 <= i < items.len() ==> matchable(#[trigger] items[i])
}

/// A matcher with the default configuration and its scratch memory, reused across
/// the items of one filtering.
pub struct FuzzyMatcher {
    matcher: Matcher,
}

impl FuzzyMatcher {
    /// Calls `nucleo_matcher::Matcher::new(Config::DEFAULT)`. Nothing is claimed.
    #[verifier::external_body]
    pub(crate) fn new() -> (r: FuzzyMatcher) {
        FuzzyMatcher { matcher: Matcher::new(Config::DEFAULT) }
    }

    /// Scores `item` for the fuzzy pattern `query`: builds
    /// `Atom::new(query, CaseMatching::Smart, Normalization::Smart, AtomKind::Fuzzy, false)`
    /// and calls its `score` on `Utf32Str::new(item, ..)` with this matcher.
    /// Claimed: the score depends on `query` and `item` alone (the atom sets the
    /// matcher's case and normalisation options itself, the rest of the
    /// configuration is the default one this matcher was made with, and the
    /// matcher's memory is scratch space).
    #[verifier::external_body]
    pub(crate) fn score(&mut self, query: &str, item: &str) -> (r: Option<u16>)
        requires
            matchable(item@),
        ensures
            r == fuzzy_score_of(query@, item@),
    {
        let atom = Atom::new(query, CaseMatching::Smart, Normalization::Smart, AtomKind::Fuzzy, false);
        let mut buf = Vec::new();
        atom.score(Utf32Str::new(item, &mut buf), &mut self.matcher)
    }
}

/// `a` ranks before `b`: a higher score, or the same score and an earlier index.
pub open spec fn ranks_before(a: (usize, u16), b: (usize, u16)) -> bool {
    a.1 > b.1 || (a.1 == b.1 && a.0 < b.0)
}

/// Best score first; among equal scores, the order of the items.
pub open spec fn ranked(r: Seq<(usize, u16)>) -> bool {
    forall|i: int, j: int| 0 <= i < j < r.len() ==> ranks_before(#[trigger] r[i], #[trigger] r[j])
}

/// Every item with its index and score 0.
pub open spec fn unscored(n: nat) -> Seq<(usize, u16)> {
    Seq::new(n, |i: int| (i as usize, 0u16))
}

/// `r` holds exactly the matching items, each with its index and score, ranked.
pub open spec fn ranked_matches(query: Seq<char>, items: Seq<Seq<char>>, r: Seq<(usize, u16)>) -> bool {
    &&& ranked(r)
    &&& forall|k: int|
        0 <= k < r.len() ==> (#[trigger] r[k]).0 < items.len() && fuzzy_score_of(
            query,
            items[r[k].0 as int],
        ) == Some(r[k].1)
    &&& forall|i: int|
        0 <= i < items.len() && (#[trigger] fuzzy_score_of(query, items[i])) is Some ==> exists|
            k: int,
        |
            0 <= k < r.len() && (#[trigger] r[k]).0 == i
}

/// What filtering `items` by `query` gives: with an empty query every item, in
/// order, with score 0; otherwise the matching items ranked.
pub open spec fn fuzzy_results(query: Seq<char>, items: Seq<Seq<char>>, r: Seq<(usize, u16)>) -> bool {
    if query.len() == 0 {
        r == unscored(items.len())
    } else {
        ranked_matches(query, items, r)
    }
}

/// The item positions of a result list, in its order.
pub open spec fn positions(r: Seq<(usize, u16)>) -> Seq<usize> {
    r.map_values(|p: (usize, u16)| p.0)
}

/// `idx` are the positions of the items that filtering by `query` keeps, in the
/// order the filter ranks them.
pub open spec fn ranked_positions(query: Seq<char>, items: Seq<Seq<char>>, idx: Seq<usize>) -> bool {
    exists|r: Seq<(usize, u16)>| #[trigger] fuzzy_results(query, items, r) && idx == positions(r)
}

/// `s` without the occurrences of `x`, in order.
pub open spec fn without(s: Seq<usize>, x: usize) -> Seq<usize>
    decreases s.len(),
{
    if s.len() == 0 {
        s
    } else if s.last() == x {
        without(s.drop_last(), x)
    } else {
        without(s.drop_last(), x).push(s.last())
    }
}

/// The positions of a result list, in its order, leaving out `skip` where given.
pub fn result_positions(results: &Vec<(usize, u16)>, skip: Option<usize>) -> (r: Vec<usize>)
    ensures
        r@ == match skip {
            Some(w) => without(positions(results@), w),
            None => positions(results@),
        },
{
    let ghost ps = positions(results@);
    let mut r: Vec<usize> = Vec::new();
    let mut k: usize = 0;
    proof {
        assert(ps.take(0) =~= Seq::<usize>::empty());
        assert(r@ =~= Seq::<usize>::empty());
    }
    while k < results.len()
        invariant
            k <= results.len(),
            ps == positions(results@),
            r@ == match skip {
                Some(w) => without(ps.take(k as int), w),
                None => ps.take(k as int),
            },
        decreases results.len() - k,
    {
        let p = results[k].0;
        assert(ps.take(k + 1).drop_last() =~= ps.take(k as int));
        assert(ps.take(k + 1).last() == p);
        match skip {
            Some(w) => {
                if p != w {
                    r.push(p);
                }
            },
            None => {
                r.push(p);
                assert(r@ =~= ps.take(k + 1));
            },
        }
        k = k + 1;
    }
    assert(ps.take(k as int) =~= ps);
    r
}

/// Returns a list of `(index, score)` pairs for items matching the query.
///
/// Results are sorted by score descending (best match first), items with equal
/// scores in the order of `items`.
/// If `query` is empty, returns all items with score 0.
pub fn fuzzy_filter(query: &str, items: &[String]) -> (r: Vec<(usize, u16)>)
    requires
        query@.len() > 0 ==> all_matchable(views(items@)),
    ensures
        fuzzy_results(query@, views(items@), r@),
{
    let ghost its = views(items@);
    let mut r: Vec<(usize, u16)> = Vec::new();
    if query.is_empty() {
        let mut i: usize = 0;
        while i < items.len()
            invariant
                i <= items.len(),
                r@ == unscored(i as nat),
            decreases items.len() - i,
        {
            r.push((i, 0u16));
            assert(r@ =~= unscored((i + 1) as nat));
            i = i + 1;
        }
        return r;
    }
    let mut matcher = FuzzyMatcher::new();
    let mut i: usize = 0;
    while i < items.len()
        invariant
            i <= items.len(),
            its == views(items@),
            all_matchable(its),
            ranked(r@),
            forall|k: int|
                0 <= k < r@.len() ==> (#[trigger] r@[k]).0 < i && fuzzy_score_of(
                    query@,
                    its[r@[k].0 as int],
                ) == Some(r@[k].1),
            forall|j: int|
                0 <= j < i && (#[trigger] fuzzy_score_of(query@, its[j])) is Some ==> exists|k: int|
                    0 <= k < r@.len() && (#[trigger] r@[k]).0 == j,
        decreases items.len() - i,
    {
        assert(matchable(its[i as int]));
        let scored = matcher.score(query, items[i].as_str());
        if let Some(s) = scored {
            let mut p: usize = 0;
            while p < r.len() && r[p].1 >= s
                invariant
                    p <= r@.len(),
                    forall|k: int| 0 <= k < p ==> (#[trigger] r@[k]).1 >= s,
                decreases r@.len() - p,
            {
                p = p + 1;
            }
            let ghost before = r@;
            r.insert(p, (i, s));
            proof {
                assert(r@ == before.insert(p as int, (i, s)));
                assert forall|a: int, b: int| 0 <= a < b < r@.len() implies ranks_before(
                    #[trigger] r@[a],
                    #[trigger] r@[b],
                ) by {
                    if b < p {
                        assert(r@[a] == before[a] && r@[b] == before[b]);
                    } else if a > p {
                        assert(r@[a] == before[a - 1] && r@[b] == before[b - 1]);
                    } else if a == p {
                        assert(r@[b] == before[b - 1]);
                        assert(before[p as int].1 < s);
                        if b - 1 > p {
                            assert(ranks_before(before[p as int], before[b - 1]));
                        }
                    } else {
                        assert(r@[a] == before[a]);
                        assert(before[a].1 >= s);
                        assert(before[a].0 < i);
                    }
                }
                assert forall|k: int| 0 <= k < r@.len() implies (#[trigger] r@[k]).0 < i + 1
                    && fuzzy_score_of(query@, its[r@[k].0 as int]) == Some(r@[k].1) by {
                    if k < p {
                        assert(r@[k] == before[k]);
                    } else if k > p {
                        assert(r@[k] == before[k - 1]);
                    }
                }
                assert forall|j: int|
                    0 <= j < i + 1 && (#[trigger] fuzzy_score_of(query@, its[j])) is Some implies exists|k: int|
                    0 <= k < r@.len() && (#[trigger] r@[k]).0 == j by {
                    if j == i {
                        assert(r@[p as int].0 == j);
                    } else {
                        let k0 = choose|k: int| 0 <= k < before.len() && (#[trigger] before[k]).0 == j;
                        if k0 < p {
                            assert(r@[k0] == before[k0]);
                        } else {
                            assert(r@[k0 + 1] == before[k0]);
                        }
                    }
                }
            }
        } else {
            proof {
                assert forall|j: int|
                    0 <= j < i + 1 && (#[trigger] fuzzy_score_of(query@, its[j])) is Some implies exists|k: int|
                    0 <= k < r@.len() && (#[trigger] r@[k]).0 == j by {
                    if j == i {
                        assert(fuzzy_score_of(query@, its[j]) == scored);
                    }
                }
            }
        }
        i = i + 1;
    }
    r
}

} // verus!

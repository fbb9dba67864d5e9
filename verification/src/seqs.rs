//! First-match search over sequences, used by the lookups of the library.

use vstd::prelude::*;

verus! {

/// Position of the first element of `s` that satisfies `p`.
pub open spec fn find_index<A>(s: Seq<A>, p: spec_fn(A) -> bool) -> Option<int>
    decreases s.len(),
{
    if s.len() == 0 {
        None
    } else if p(s[0]) {
        Some(0)
    } else {
        match find_index(s.drop_first(), p) {
            Some(k) => Some(k + 1),
            None => None,
        }
    }
}

/// The first element of `s` that satisfies `p`.
pub open spec fn find_first<A>(s: Seq<A>, p: spec_fn(A) -> bool) -> Option<A> {
    match find_index(s, p) {
        Some(k) => Some(s[k]),
        None => None,
    }
}

/// `find_index` returns the smallest matching position, or `None` when
/// nothing matches.
pub proof fn lemma_find_index<A>(s: Seq<A>, p: spec_fn(A) -> bool)
    ensures
        match find_index(s, p) {
            Some(k) => 0 <= k < s.len() && p(s[k]) && forall|j: int| 0 <= j < k ==> !p(#[trigger] s[j]),
            None => forall|j: int| 0 <= j < s.len() ==> !p(#[trigger] s[j]),
        },
    decreases s.len(),
{
    if s.len() > 0 && !p(s[0]) {
        lemma_find_index(s.drop_first(), p);
        match find_index(s.drop_first(), p) {
            Some(k) => {
                assert forall|j: int| 0 <= j < k + 1 implies !p(#[trigger] s[j]) by {
                    if j > 0 {
                        assert(s[j] == s.drop_first()[j - 1]);
                    }
                }
            },
            None => {
                assert forall|j: int| 0 <= j < s.len() implies !p(#[trigger] s[j]) by {
                    if j > 0 {
                        assert(s[j] == s.drop_first()[j - 1]);
                    }
                }
            },
        }
    }
}

/// A position `k` that matches while nothing before it does is the first match.
pub proof fn lemma_find_index_is<A>(s: Seq<A>, p: spec_fn(A) -> bool, k: int)
    requires
        0 <= k < s.len(),
        p(s[k]),
        forall|j: int| 0 <= j < k ==> !p(#[trigger] s[j]),
    ensures
        find_index(s, p) == Some(k),
{
    lemma_find_index(s, p);
}

/// When no element matches, there is no first match.
pub proof fn lemma_find_index_none<A>(s: Seq<A>, p: spec_fn(A) -> bool)
    requires
        forall|j: int| 0 <= j < s.len() ==> !p(#[trigger] s[j]),
    ensures
        find_index(s, p) == None::<int>,
{
    lemma_find_index(s, p);
}

/// Filtering with a predicate that no element satisfies leaves nothing.
pub proof fn lemma_filter_none<A>(s: Seq<A>, p: spec_fn(A) -> bool)
    requires
        forall|j: int| 0 <= j < s.len() ==> !p(#[trigger] s[j]),
    ensures
        s.filter(p).len() == 0,
{
    if s.filter(p).len() > 0 {
        s.lemma_filter_pred(p, 0);
        s.lemma_filter_contains_rev(p, s.filter(p)[0]);
        let j = choose|j: int| 0 <= j < s.len() && s[j] == s.filter(p)[0];
        assert(!p(s[j]));
    }
}

/// The first element kept by a filter is the first element that satisfies
/// the predicate.
pub proof fn lemma_filter_first<A>(s: Seq<A>, p: spec_fn(A) -> bool, k: int)
    requires
        0 <= k < s.len(),
        p(s[k]),
        forall|j: int| 0 <= j < k ==> !p(#[trigger] s[j]),
    ensures
        s.filter(p).len() > 0,
        s.filter(p)[0] == s[k],
    decreases s.len(),
{
    reveal_with_fuel(Seq::filter, 1);
    let init = s.drop_last();
    if k == s.len() - 1 {
        assert forall|j: int| 0 <= j < init.len() implies !p(#[trigger] init[j]) by {
            assert(init[j] == s[j]);
        }
        lemma_filter_none(init, p);
        assert(s.filter(p) == init.filter(p).push(s.last()));
    } else {
        assert forall|j: int| 0 <= j < k implies !p(#[trigger] init[j]) by {
            assert(init[j] == s[j]);
        }
        assert(init[k] == s[k]);
        lemma_filter_first(init, p, k);
        if p(s.last()) {
            assert(s.filter(p) == init.filter(p).push(s.last()));
        } else {
            assert(s.filter(p) == init.filter(p));
        }
    }
}

} // verus!

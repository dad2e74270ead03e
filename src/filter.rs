//! Facts about filtering sequences, and the predicates the owner indices are
//! filtered by.
use vstd::prelude::*;

use crate::asset::AssetV;

verus! {

/// Keeps every identifier but `h`.
pub open spec fn not_equal_to(h: Seq<char>) -> spec_fn(Seq<char>) -> bool {
    |y: Seq<char>| y != h
}

/// Keeps every asset that `s` does not hold.
pub open spec fn not_in(s: Seq<AssetV>) -> spec_fn(AssetV) -> bool {
    |y: AssetV| !s.contains(y)
}

/// A filtered sequence holds exactly the elements that pass the predicate.
pub proof fn lemma_filter_contains_iff<A>(s: Seq<A>, p: spec_fn(A) -> bool, y: A)
    ensures
        s.filter(p).contains(y) <==> (s.contains(y) && p(y)),
    decreases s.len(),
{
    if s.len() > 0 {
        let t = s.drop_last();
        lemma_filter_contains_iff(t, p, y);
        assert(s =~= t.push(s.last()));
        t.lemma_filter_push(s.last(), p);
        lemma_push_contains(t, s.last(), y);
        lemma_push_contains(t.filter(p), s.last(), y);
    }
}

/// Filtering keeps a sequence free of duplicates.
pub proof fn lemma_filter_no_duplicates<A>(s: Seq<A>, p: spec_fn(A) -> bool)
    requires
        s.no_duplicates(),
    ensures
        s.filter(p).no_duplicates(),
    decreases s.len(),
{
    if s.len() > 0 {
        let t = s.drop_last();
        assert(s =~= t.push(s.last()));
        assert(t.no_duplicates());
        lemma_filter_no_duplicates(t, p);
        t.lemma_filter_push(s.last(), p);
        if p(s.last()) {
            assert(!t.contains(s.last())) by {
                if t.contains(s.last()) {
                    let k = choose|k: int| 0 <= k < t.len() && t[k] == s.last();
                    assert(s[k] == s[s.len() - 1]);
                }
            }
            lemma_filter_contains_iff(t, p, s.last());
            lemma_push_no_duplicates(t.filter(p), s.last());
        }
    }
}

/// Filtering by a predicate that every element passes changes nothing.
pub proof fn lemma_filter_all<A>(s: Seq<A>, p: spec_fn(A) -> bool)
    requires
        forall|i: int| 0 <= i < s.len() ==> p(s[i]),
    ensures
        s.filter(p) == s,
    decreases s.len(),
{
    if s.len() > 0 {
        let t = s.drop_last();
        assert(s =~= t.push(s.last()));
        assert forall|i: int| 0 <= i < t.len() implies p(t[i]) by {
            assert(t[i] == s[i]);
        }
        lemma_filter_all(t, p);
        t.lemma_filter_push(s.last(), p);
    }
}

/// What a sequence grown by one element holds.
pub proof fn lemma_push_contains<A>(s: Seq<A>, v: A, x: A)
    ensures
        s.push(v).contains(x) <==> (s.contains(x) || x == v),
{
    if s.push(v).contains(x) {
        let k = choose|k: int| 0 <= k < s.len() + 1 && s.push(v)[k] == x;
        if k < s.len() {
            assert(s[k] == x);
        }
    }
    if s.contains(x) {
        let k = choose|k: int| 0 <= k < s.len() && s[k] == x;
        assert(s.push(v)[k] == x);
    }
    assert(s.push(v)[s.len() as int] == v);
}

/// Pushing an element that is not there keeps a sequence free of duplicates.
pub proof fn lemma_push_no_duplicates<A>(s: Seq<A>, v: A)
    requires
        s.no_duplicates(),
        !s.contains(v),
    ensures
        s.push(v).no_duplicates(),
{
    assert forall|i: int, j: int| 0 <= i < j < s.push(v).len() implies s.push(v)[i] != s.push(v)[j] by {
        if j == s.len() {
            assert(s[i] == s.push(v)[i]);
        }
    }
}

} // verus!

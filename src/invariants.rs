//! The owner indices agree with the offer store, and every operation keeps them so.
use vstd::prelude::*;

use crate::asset::AssetV;
use crate::contract::Contract;
use crate::filter::{
    lemma_filter_contains_iff, lemma_filter_no_duplicates, lemma_push_contains, lemma_push_no_duplicates,
    not_equal_to,
    not_in,
};
use crate::lifecycle::{released, with_deposit};
use crate::offer::OfferView;

verus! {

impl Contract {
    /// Every identifier in an account's hash entry names a live offer of that
    /// account, no identifier is listed twice for an account, and every live
    /// offer is listed under both of its parties.
    pub open spec fn hash_index_consistent(&self) -> bool {
        &&& forall|a: Seq<char>| #[trigger] self.hashes_of(a).no_duplicates()
        &&& forall|a: Seq<char>, y: Seq<char>|
            #[trigger] self.hashes_of(a).contains(y) ==> self.offers().contains_key(y)
                && self.offers()[y].has_party(a)
        &&& forall|h: Seq<char>|
            #[trigger] self.offers().contains_key(h) ==> self.hashes_of(self.offers()[h].sender).contains(h)
                && self.hashes_of(self.offers()[h].receiver).contains(h)
    }

    /// An asset is in escrow for an account exactly when that account deposited
    /// it into a live offer, and each escrowed asset belongs to one deposit of one
    /// offer only.
    pub open spec fn token_index_consistent(&self) -> bool {
        &&& forall|a: Seq<char>, x: AssetV|
            #[trigger] self.tokens_of(a).contains(x) ==> exists|h: Seq<char>|
                self.offers().contains_key(h) && #[trigger] released(self.offers()[h], a).contains(x)
        &&& forall|h: Seq<char>, a: Seq<char>, x: AssetV|
            self.offers().contains_key(h) && #[trigger] released(self.offers()[h], a).contains(x)
                ==> self.tokens_of(a).contains(x)
        &&& forall|h1: Seq<char>, h2: Seq<char>, a1: Seq<char>, a2: Seq<char>, x: AssetV|
            self.offers().contains_key(h1) && self.offers().contains_key(h2)
                && #[trigger] released(self.offers()[h1], a1).contains(x)
                && #[trigger] released(self.offers()[h2], a2).contains(x) ==> h1 == h2 && a1 == a2
    }
}

/// What a deposit adds to the assets that closing the offer releases.
pub proof fn lemma_released_after_deposit(o: OfferView, a: Seq<char>, x: AssetV, b: Seq<char>, y: AssetV)
    requires
        o.has_party(a),
        o.sender != o.receiver,
    ensures
        released(with_deposit(o, a, x), b).contains(y) <==> (released(o, b).contains(y) || (b == a
            && y == x)),
{
    if a == o.sender {
        lemma_push_contains(o.sender_actual, x, y);
    } else {
        lemma_push_contains(o.receiver_actual, x, y);
    }
}

/// Creating an offer with nothing deposited keeps the indices consistent.
pub proof fn lemma_create_keeps_indices(c: &Contract, d: &Contract, h: Seq<char>, o: OfferView)
    requires
        c.hash_index_consistent(),
        c.token_index_consistent(),
        !c.offers().contains_key(h),
        o.sender_actual.len() == 0,
        o.receiver_actual.len() == 0,
        d.offers() == c.offers().insert(h, o),
        forall|a: Seq<char>| #[trigger] d.tokens_of(a) == c.tokens_of(a),
        forall|a: Seq<char>|
            #[trigger] d.hashes_of(a) == if a == o.sender || a == o.receiver {
                c.hashes_of(a).push(h)
            } else {
                c.hashes_of(a)
            },
    ensures
        d.hash_index_consistent(),
        d.token_index_consistent(),
{
    assert forall|a: Seq<char>| #[trigger] d.hashes_of(a).no_duplicates() by {
        if a == o.sender || a == o.receiver {
            assert(!c.hashes_of(a).contains(h));
            lemma_push_no_duplicates(c.hashes_of(a), h);
        }
    }
    assert forall|a: Seq<char>, y: Seq<char>| #[trigger] d.hashes_of(a).contains(y) implies d.offers().contains_key(y)
        && d.offers()[y].has_party(a) by {
        lemma_push_contains(c.hashes_of(a), h, y);
        if y != h {
            assert(c.hashes_of(a).contains(y));
        }
    }
    assert forall|k: Seq<char>| #[trigger] d.offers().contains_key(k) implies d.hashes_of(d.offers()[k].sender).contains(k)
        && d.hashes_of(d.offers()[k].receiver).contains(k) by {
        let o2 = d.offers()[k];
        lemma_push_contains(c.hashes_of(o2.sender), h, k);
        lemma_push_contains(c.hashes_of(o2.receiver), h, k);
        if k != h {
            assert(c.offers().contains_key(k));
        }
    }
    assert forall|a: Seq<char>, x: AssetV| #[trigger] d.tokens_of(a).contains(x) implies exists|k: Seq<char>|
        d.offers().contains_key(k) && #[trigger] released(d.offers()[k], a).contains(x) by {
        assert(c.tokens_of(a).contains(x));
        let k = choose|k: Seq<char>| c.offers().contains_key(k) && #[trigger] released(c.offers()[k], a).contains(x);
        assert(k != h);
        assert(d.offers().contains_key(k) && released(d.offers()[k], a).contains(x));
    }
    assert forall|k: Seq<char>, a: Seq<char>, x: AssetV|
        d.offers().contains_key(k) && #[trigger] released(d.offers()[k], a).contains(x) implies d.tokens_of(a).contains(x) by {
        if k == h {
            assert(released(o, a).len() == 0);
        } else {
            assert(c.offers().contains_key(k) && released(c.offers()[k], a).contains(x));
        }
    }
    assert forall|h1: Seq<char>, h2: Seq<char>, a1: Seq<char>, a2: Seq<char>, x: AssetV|
        d.offers().contains_key(h1) && d.offers().contains_key(h2)
            && #[trigger] released(d.offers()[h1], a1).contains(x)
            && #[trigger] released(d.offers()[h2], a2).contains(x) implies h1 == h2 && a1 == a2 by {
        if h1 == h {
            assert(released(o, a1).len() == 0);
        } else if h2 == h {
            assert(released(o, a2).len() == 0);
        } else {
            assert(released(c.offers()[h1], a1).contains(x));
            assert(released(c.offers()[h2], a2).contains(x));
        }
    }
}

/// Recording a deposit of an asset that is not in escrow keeps the indices
/// consistent.
pub proof fn lemma_deposit_keeps_indices(c: &Contract, d: &Contract, h: Seq<char>, a: Seq<char>, x: AssetV)
    requires
        c.hash_index_consistent(),
        c.token_index_consistent(),
        c.offers().contains_key(h),
        c.offers()[h].has_party(a),
        c.offers()[h].sender != c.offers()[h].receiver,
        !c.escrowed(x),
        d.offers() == c.offers().insert(h, with_deposit(c.offers()[h], a, x)),
        forall|b: Seq<char>|
            #[trigger] d.tokens_of(b) == if b == a {
                c.tokens_of(b).push(x)
            } else {
                c.tokens_of(b)
            },
        forall|b: Seq<char>| #[trigger] d.hashes_of(b) == c.hashes_of(b),
    ensures
        d.hash_index_consistent(),
        d.token_index_consistent(),
{
    let o = c.offers()[h];
    let o2 = with_deposit(o, a, x);
    assert forall|b: Seq<char>, y: AssetV| #[trigger] d.tokens_of(b).contains(y) <==> (c.tokens_of(b).contains(y)
        || (b == a && y == x)) by {
        lemma_push_contains(c.tokens_of(b), x, y);
    }
    assert forall|b: Seq<char>, y: Seq<char>| #[trigger] d.hashes_of(b).contains(y) implies d.offers().contains_key(y)
        && d.offers()[y].has_party(b) by {
        assert(c.hashes_of(b).contains(y));
    }
    assert forall|k: Seq<char>| #[trigger] d.offers().contains_key(k) implies d.hashes_of(d.offers()[k].sender).contains(k)
        && d.hashes_of(d.offers()[k].receiver).contains(k) by {
        assert(c.offers().contains_key(k));
    }
    assert forall|b: Seq<char>, y: AssetV| #[trigger] d.tokens_of(b).contains(y) implies exists|k: Seq<char>|
        d.offers().contains_key(k) && #[trigger] released(d.offers()[k], b).contains(y) by {
        lemma_released_after_deposit(o, a, x, b, y);
        if b == a && y == x {
            assert(released(d.offers()[h], b).contains(y));
        } else {
            assert(c.tokens_of(b).contains(y));
            let k = choose|k: Seq<char>| c.offers().contains_key(k) && #[trigger] released(c.offers()[k], b).contains(y);
            if k != h {
                assert(released(d.offers()[k], b).contains(y));
            } else {
                assert(released(d.offers()[h], b).contains(y));
            }
        }
    }
    assert forall|k: Seq<char>, b: Seq<char>, y: AssetV|
        d.offers().contains_key(k) && #[trigger] released(d.offers()[k], b).contains(y) implies d.tokens_of(b).contains(y) by {
        lemma_released_after_deposit(o, a, x, b, y);
        if k != h {
            assert(c.offers().contains_key(k) && released(c.offers()[k], b).contains(y));
        } else if !(b == a && y == x) {
            assert(released(c.offers()[h], b).contains(y));
        }
    }
    assert forall|h1: Seq<char>, h2: Seq<char>, a1: Seq<char>, a2: Seq<char>, y: AssetV|
        d.offers().contains_key(h1) && d.offers().contains_key(h2)
            && #[trigger] released(d.offers()[h1], a1).contains(y)
            && #[trigger] released(d.offers()[h2], a2).contains(y) implies h1 == h2 && a1 == a2 by {
        lemma_released_after_deposit(o, a, x, a1, y);
        lemma_released_after_deposit(o, a, x, a2, y);
        let new1 = h1 == h && a1 == a && y == x;
        let new2 = h2 == h && a2 == a && y == x;
        if !new1 {
            assert(c.offers().contains_key(h1) && released(c.offers()[h1], a1).contains(y));
        }
        if !new2 {
            assert(c.offers().contains_key(h2) && released(c.offers()[h2], a2).contains(y));
        }
        if new1 && !new2 {
            assert(c.tokens_of(a2).contains(x));
        } else if new2 && !new1 {
            assert(c.tokens_of(a1).contains(x));
        }
    }
}

/// Closing an offer, which releases its deposits and unlists it, keeps the
/// indices consistent.
pub proof fn lemma_close_keeps_indices(c: &Contract, d: &Contract, h: Seq<char>)
    requires
        c.hash_index_consistent(),
        c.token_index_consistent(),
        c.offers().contains_key(h),
        d.offers() == c.offers().remove(h),
        forall|a: Seq<char>|
            #[trigger] d.tokens_of(a) == c.tokens_of(a).filter(not_in(released(c.offers()[h], a))),
        forall|a: Seq<char>|
            #[trigger] d.hashes_of(a) == if c.offers()[h].has_party(a) {
                c.hashes_of(a).filter(not_equal_to(h))
            } else {
                c.hashes_of(a)
            },
    ensures
        d.hash_index_consistent(),
        d.token_index_consistent(),
{
    let o = c.offers()[h];
    assert forall|a: Seq<char>, y: AssetV|
        #[trigger] d.tokens_of(a).contains(y) <==> (c.tokens_of(a).contains(y) && !released(o, a).contains(y)) by {
        lemma_filter_contains_iff(c.tokens_of(a), not_in(released(o, a)), y);
    }
    assert forall|a: Seq<char>, y: Seq<char>|
        #[trigger] d.hashes_of(a).contains(y) <==> (c.hashes_of(a).contains(y) && !(o.has_party(a) && y == h)) by {
        lemma_filter_contains_iff(c.hashes_of(a), not_equal_to(h), y);
    }
    assert forall|a: Seq<char>| #[trigger] d.hashes_of(a).no_duplicates() by {
        if o.has_party(a) {
            lemma_filter_no_duplicates(c.hashes_of(a), not_equal_to(h));
        }
    }
    assert forall|a: Seq<char>, y: Seq<char>| #[trigger] d.hashes_of(a).contains(y) implies d.offers().contains_key(y)
        && d.offers()[y].has_party(a) by {
        assert(c.hashes_of(a).contains(y));
    }
    assert forall|k: Seq<char>| #[trigger] d.offers().contains_key(k) implies d.hashes_of(d.offers()[k].sender).contains(k)
        && d.hashes_of(d.offers()[k].receiver).contains(k) by {
        assert(c.offers().contains_key(k));
        assert(c.hashes_of(c.offers()[k].sender).contains(k));
        assert(c.hashes_of(c.offers()[k].receiver).contains(k));
    }
    assert forall|a: Seq<char>, y: AssetV| #[trigger] d.tokens_of(a).contains(y) implies exists|k: Seq<char>|
        d.offers().contains_key(k) && #[trigger] released(d.offers()[k], a).contains(y) by {
        assert(c.tokens_of(a).contains(y));
        let k = choose|k: Seq<char>| c.offers().contains_key(k) && #[trigger] released(c.offers()[k], a).contains(y);
        assert(k != h);
        assert(released(d.offers()[k], a).contains(y));
    }
    assert forall|k: Seq<char>, b: Seq<char>, y: AssetV|
        d.offers().contains_key(k) && #[trigger] released(d.offers()[k], b).contains(y) implies d.tokens_of(b).contains(y) by {
        assert(c.offers().contains_key(k) && released(c.offers()[k], b).contains(y));
        if released(o, b).contains(y) {
            assert(k == h);
        }
    }
    assert forall|h1: Seq<char>, h2: Seq<char>, a1: Seq<char>, a2: Seq<char>, y: AssetV|
        d.offers().contains_key(h1) && d.offers().contains_key(h2)
            && #[trigger] released(d.offers()[h1], a1).contains(y)
            && #[trigger] released(d.offers()[h2], a2).contains(y) implies h1 == h2 && a1 == a2 by {
        assert(released(c.offers()[h1], a1).contains(y));
        assert(released(c.offers()[h2], a2).contains(y));
    }
}

} // verus!

//! How the views of the offer store and of the owner indices change when one
//! entry of the underlying vectors is replaced, added or removed.
use vstd::prelude::*;

use crate::asset::assets_view;
use crate::contract::{strings_view, Contract, OfferEntry, OwnerHashes, OwnerTokens};

verus! {

/// Replacing the token entry of an account changes that account's list only.
pub proof fn lemma_tokens_update(c: &Contract, d: &Contract, j: int, e: OwnerTokens)
    requires
        c.token_owners_unique(),
        0 <= j < c.tokens_per_owner@.len(),
        e.owner@ == c.tokens_per_owner@[j].owner@,
        d.tokens_per_owner@ == c.tokens_per_owner@.update(j, e),
    ensures
        d.token_owners_unique(),
        forall|a: Seq<char>|
            #[trigger] d.tokens_of(a) == if a == e.owner@ {
                assets_view(e.tokens@)
            } else {
                c.tokens_of(a)
            },
        forall|a: Seq<char>| #[trigger] d.has_token_entry(a) == c.has_token_entry(a),
{
    assert forall|i: int, k: int| 0 <= i < k < d.tokens_per_owner@.len() implies d.tokens_per_owner@[i].owner@
        != d.tokens_per_owner@[k].owner@ by {
        assert(c.tokens_per_owner@[i].owner@ != c.tokens_per_owner@[k].owner@);
    }
    assert forall|a: Seq<char>| #[trigger] d.has_token_entry(a) == c.has_token_entry(a) by {
        if d.has_token_entry(a) {
            let k = choose|k: int| 0 <= k < d.tokens_per_owner@.len() && d.tokens_per_owner@[k].owner@ == a;
            assert(c.tokens_per_owner@[k].owner@ == a);
        }
        if c.has_token_entry(a) {
            let k = choose|k: int| 0 <= k < c.tokens_per_owner@.len() && c.tokens_per_owner@[k].owner@ == a;
            assert(d.tokens_per_owner@[k].owner@ == a);
        }
    }
    assert forall|a: Seq<char>|
        #[trigger] d.tokens_of(a) == if a == e.owner@ {
            assets_view(e.tokens@)
        } else {
            c.tokens_of(a)
        } by {
        if a == e.owner@ {
            d.lemma_tokens_at(j);
        } else if c.has_token_entry(a) {
            let k = choose|k: int| 0 <= k < c.tokens_per_owner@.len() && c.tokens_per_owner@[k].owner@ == a;
            c.lemma_tokens_at(k);
            d.lemma_tokens_at(k);
        }
    }
}

/// Adding a token entry for an account without one gives it that list only.
pub proof fn lemma_tokens_push(c: &Contract, d: &Contract, e: OwnerTokens)
    requires
        c.token_owners_unique(),
        !c.has_token_entry(e.owner@),
        d.tokens_per_owner@ == c.tokens_per_owner@.push(e),
    ensures
        d.token_owners_unique(),
        forall|a: Seq<char>|
            #[trigger] d.tokens_of(a) == if a == e.owner@ {
                assets_view(e.tokens@)
            } else {
                c.tokens_of(a)
            },
{
    let n = c.tokens_per_owner@.len() as int;
    assert forall|i: int, k: int| 0 <= i < k < d.tokens_per_owner@.len() implies d.tokens_per_owner@[i].owner@
        != d.tokens_per_owner@[k].owner@ by {
        if k < n {
            assert(c.tokens_per_owner@[i].owner@ != c.tokens_per_owner@[k].owner@);
        } else {
            assert(c.tokens_per_owner@[i].owner@ != e.owner@);
        }
    }
    assert forall|a: Seq<char>|
        #[trigger] d.tokens_of(a) == if a == e.owner@ {
            assets_view(e.tokens@)
        } else {
            c.tokens_of(a)
        } by {
        if a == e.owner@ {
            d.lemma_tokens_at(n);
        } else {
            if c.has_token_entry(a) {
                let k = choose|k: int| 0 <= k < c.tokens_per_owner@.len() && c.tokens_per_owner@[k].owner@ == a;
                c.lemma_tokens_at(k);
                d.lemma_tokens_at(k);
            }
            if d.has_token_entry(a) {
                let k = choose|k: int| 0 <= k < d.tokens_per_owner@.len() && d.tokens_per_owner@[k].owner@ == a;
                assert(c.tokens_per_owner@[k].owner@ == a);
            }
        }
    }
}

/// Replacing the hash entry of an account changes that account's list only.
pub proof fn lemma_hashes_update(c: &Contract, d: &Contract, j: int, e: OwnerHashes)
    requires
        c.hash_owners_unique(),
        0 <= j < c.hashes_per_owner@.len(),
        e.owner@ == c.hashes_per_owner@[j].owner@,
        d.hashes_per_owner@ == c.hashes_per_owner@.update(j, e),
    ensures
        d.hash_owners_unique(),
        forall|a: Seq<char>|
            #[trigger] d.hashes_of(a) == if a == e.owner@ {
                strings_view(e.hashes@)
            } else {
                c.hashes_of(a)
            },
{
    assert forall|i: int, k: int| 0 <= i < k < d.hashes_per_owner@.len() implies d.hashes_per_owner@[i].owner@
        != d.hashes_per_owner@[k].owner@ by {
        assert(c.hashes_per_owner@[i].owner@ != c.hashes_per_owner@[k].owner@);
    }
    assert forall|a: Seq<char>|
        #[trigger] d.hashes_of(a) == if a == e.owner@ {
            strings_view(e.hashes@)
        } else {
            c.hashes_of(a)
        } by {
        if a == e.owner@ {
            d.lemma_hashes_at(j);
        } else {
            if c.has_hash_entry(a) {
                let k = choose|k: int| 0 <= k < c.hashes_per_owner@.len() && c.hashes_per_owner@[k].owner@ == a;
                c.lemma_hashes_at(k);
                d.lemma_hashes_at(k);
            }
            if d.has_hash_entry(a) {
                let k = choose|k: int| 0 <= k < d.hashes_per_owner@.len() && d.hashes_per_owner@[k].owner@ == a;
                assert(c.hashes_per_owner@[k].owner@ == a);
            }
        }
    }
}

/// Adding a hash entry for an account without one gives it that list only.
pub proof fn lemma_hashes_push(c: &Contract, d: &Contract, e: OwnerHashes)
    requires
        c.hash_owners_unique(),
        !c.has_hash_entry(e.owner@),
        d.hashes_per_owner@ == c.hashes_per_owner@.push(e),
    ensures
        d.hash_owners_unique(),
        forall|a: Seq<char>|
            #[trigger] d.hashes_of(a) == if a == e.owner@ {
                strings_view(e.hashes@)
            } else {
                c.hashes_of(a)
            },
{
    let n = c.hashes_per_owner@.len() as int;
    assert forall|i: int, k: int| 0 <= i < k < d.hashes_per_owner@.len() implies d.hashes_per_owner@[i].owner@
        != d.hashes_per_owner@[k].owner@ by {
        if k < n {
            assert(c.hashes_per_owner@[i].owner@ != c.hashes_per_owner@[k].owner@);
        } else {
            assert(c.hashes_per_owner@[i].owner@ != e.owner@);
        }
    }
    assert forall|a: Seq<char>|
        #[trigger] d.hashes_of(a) == if a == e.owner@ {
            strings_view(e.hashes@)
        } else {
            c.hashes_of(a)
        } by {
        if a == e.owner@ {
            d.lemma_hashes_at(n);
        } else {
            if c.has_hash_entry(a) {
                let k = choose|k: int| 0 <= k < c.hashes_per_owner@.len() && c.hashes_per_owner@[k].owner@ == a;
                c.lemma_hashes_at(k);
                d.lemma_hashes_at(k);
            }
            if d.has_hash_entry(a) {
                let k = choose|k: int| 0 <= k < d.hashes_per_owner@.len() && d.hashes_per_owner@[k].owner@ == a;
                assert(c.hashes_per_owner@[k].owner@ == a);
            }
        }
    }
}

/// Replacing the offer at an index, under the same identifier.
pub proof fn lemma_offers_update(c: &Contract, d: &Contract, j: int, e: OfferEntry)
    requires
        c.offer_keys_unique(),
        0 <= j < c.hash_map@.len(),
        e.hash@ == c.hash_map@[j].hash@,
        d.hash_map@ == c.hash_map@.update(j, e),
    ensures
        d.offer_keys_unique(),
        d.offers() == c.offers().insert(e.hash@, e.offer@),
{
    assert forall|i: int, k: int| 0 <= i < k < d.hash_map@.len() implies d.hash_map@[i].hash@
        != d.hash_map@[k].hash@ by {
        assert(c.hash_map@[i].hash@ != c.hash_map@[k].hash@);
    }
    assert forall|h: Seq<char>| #[trigger] d.offers().contains_key(h) == c.offers().insert(e.hash@, e.offer@).contains_key(h)
        && (d.offers().contains_key(h) ==> d.offers()[h] == c.offers().insert(e.hash@, e.offer@)[h]) by {
        if h == e.hash@ {
            d.lemma_offer_at(j);
            c.lemma_offer_at(j);
        } else {
            if c.has_offer(h) {
                let k = choose|k: int| 0 <= k < c.hash_map@.len() && c.hash_map@[k].hash@ == h;
                c.lemma_offer_at(k);
                d.lemma_offer_at(k);
            }
            if d.has_offer(h) {
                let k = choose|k: int| 0 <= k < d.hash_map@.len() && d.hash_map@[k].hash@ == h;
                assert(c.hash_map@[k].hash@ == h);
            }
        }
    }
    assert(d.offers() =~= c.offers().insert(e.hash@, e.offer@));
}

/// Adding an offer under a fresh identifier.
pub proof fn lemma_offers_push(c: &Contract, d: &Contract, e: OfferEntry)
    requires
        c.offer_keys_unique(),
        !c.has_offer(e.hash@),
        d.hash_map@ == c.hash_map@.push(e),
    ensures
        d.offer_keys_unique(),
        d.offers() == c.offers().insert(e.hash@, e.offer@),
{
    let n = c.hash_map@.len() as int;
    assert forall|i: int, k: int| 0 <= i < k < d.hash_map@.len() implies d.hash_map@[i].hash@
        != d.hash_map@[k].hash@ by {
        if k < n {
            assert(c.hash_map@[i].hash@ != c.hash_map@[k].hash@);
        } else {
            assert(c.hash_map@[i].hash@ != e.hash@);
        }
    }
    assert forall|h: Seq<char>| #[trigger] d.offers().contains_key(h) == c.offers().insert(e.hash@, e.offer@).contains_key(h)
        && (d.offers().contains_key(h) ==> d.offers()[h] == c.offers().insert(e.hash@, e.offer@)[h]) by {
        if h == e.hash@ {
            d.lemma_offer_at(n);
        } else {
            if c.has_offer(h) {
                let k = choose|k: int| 0 <= k < c.hash_map@.len() && c.hash_map@[k].hash@ == h;
                c.lemma_offer_at(k);
                d.lemma_offer_at(k);
            }
            if d.has_offer(h) {
                let k = choose|k: int| 0 <= k < d.hash_map@.len() && d.hash_map@[k].hash@ == h;
                assert(c.hash_map@[k].hash@ == h);
            }
        }
    }
    assert(d.offers() =~= c.offers().insert(e.hash@, e.offer@));
}

/// Removing the offer at an index.
pub proof fn lemma_offers_remove(c: &Contract, d: &Contract, j: int)
    requires
        c.offer_keys_unique(),
        0 <= j < c.hash_map@.len(),
        d.hash_map@ == c.hash_map@.remove(j),
    ensures
        d.offer_keys_unique(),
        d.offers() == c.offers().remove(c.hash_map@[j].hash@),
{
    let h0 = c.hash_map@[j].hash@;
    assert forall|i: int, k: int| 0 <= i < k < d.hash_map@.len() implies d.hash_map@[i].hash@
        != d.hash_map@[k].hash@ by {
        let ii = if i < j { i } else { i + 1 };
        let kk = if k < j { k } else { k + 1 };
        assert(c.hash_map@[ii].hash@ != c.hash_map@[kk].hash@);
    }
    assert forall|h: Seq<char>| #[trigger] d.offers().contains_key(h) == c.offers().remove(h0).contains_key(h)
        && (d.offers().contains_key(h) ==> d.offers()[h] == c.offers().remove(h0)[h]) by {
        if d.has_offer(h) {
            let k = choose|k: int| 0 <= k < d.hash_map@.len() && d.hash_map@[k].hash@ == h;
            let kk = if k < j { k } else { k + 1 };
            assert(c.hash_map@[kk].hash@ == h);
            if kk < j {
                assert(c.hash_map@[kk].hash@ != c.hash_map@[j].hash@);
            } else {
                assert(c.hash_map@[j].hash@ != c.hash_map@[kk].hash@);
            }
            c.lemma_offer_at(kk);
            d.lemma_offer_at(k);
        }
        if c.has_offer(h) && h != h0 {
            let k = choose|k: int| 0 <= k < c.hash_map@.len() && c.hash_map@[k].hash@ == h;
            assert(k != j);
            let kd = if k < j { k } else { k - 1 };
            assert(d.hash_map@[kd].hash@ == h);
        }
    }
    assert(d.offers() =~= c.offers().remove(h0));
}

} // verus!

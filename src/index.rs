//! Maintenance of the two owner indices.
use vstd::prelude::*;

use crate::asset::{assets_view, lemma_assets_view_push, without_assets, AssetV, TokenData};
use crate::contract::{strings_view, Contract, OwnerHashes, OwnerTokens};
use crate::filter::{lemma_push_contains, not_equal_to, not_in};
use crate::frame::{lemma_hashes_push, lemma_hashes_update, lemma_tokens_push, lemma_tokens_update};

verus! {

/// `list` without every occurrence of `h`; the order of the rest is kept.
pub fn without_string(list: &Vec<String>, h: &String) -> (r: Vec<String>)
    ensures
        strings_view(r@) == strings_view(list@).filter(not_equal_to(h@)),
{
    let ghost p = not_equal_to(h@);
    let mut out: Vec<String> = Vec::new();
    let mut i: usize = 0;
    assert(strings_view(list@.take(0)) =~= Seq::<Seq<char>>::empty());
    assert(strings_view(out@) =~= Seq::<Seq<char>>::empty());
    while i < list.len()
        invariant
            i <= list@.len(),
            p == not_equal_to(h@),
            strings_view(out@) == strings_view(list@.take(i as int)).filter(p),
        decreases list@.len() - i,
    {
        let ghost x_i = list@[i as int]@;
        assert(list@.take(i + 1) =~= list@.take(i as int).push(list@[i as int]));
        assert(strings_view(list@.take(i + 1)) =~= strings_view(list@.take(i as int)).push(x_i));
        proof {
            strings_view(list@.take(i as int)).lemma_filter_push(x_i, p);
        }
        if list[i] != *h {
            let d = list[i].clone();
            assert(strings_view(out@.push(d)) =~= strings_view(out@).push(x_i));
            out.push(d);
        }
        i += 1;
    }
    assert(list@.take(i as int) =~= list@);
    out
}

impl Contract {
    /// Appends offer identifier `h` to account `a`'s entry of the hash index.
    pub(crate) fn index_hash(&mut self, a: &String, h: &String)
        requires
            old(self).hash_owners_unique(),
        ensures
            final(self).hash_owners_unique(),
            forall|b: Seq<char>|
                #[trigger] final(self).hashes_of(b) == if b == a@ {
                    old(self).hashes_of(b).push(h@)
                } else {
                    old(self).hashes_of(b)
                },
            final(self).hash_map == old(self).hash_map,
            final(self).tokens_per_owner == old(self).tokens_per_owner,
            final(self).owner_id == old(self).owner_id,
            final(self).fee_wallet == old(self).fee_wallet,
            final(self).required_cost == old(self).required_cost,
    {
        let ghost c = *self;
        match self.find_hash_entry(a) {
            Some(i) => {
                let mut e = self.hashes_per_owner.remove(i);
                let ghost old_list = e.hashes@;
                e.hashes.push(h.clone());
                assert(strings_view(e.hashes@) =~= strings_view(old_list).push(h@));
                self.hashes_per_owner.insert(i, e);
                assert(self.hashes_per_owner@ =~= c.hashes_per_owner@.update(i as int, e));
                proof {
                    lemma_hashes_update(&c, self, i as int, e);
                }
            },
            None => {
                let mut hashes: Vec<String> = Vec::new();
                hashes.push(h.clone());
                let e = OwnerHashes { owner: a.clone(), hashes };
                assert(strings_view(e.hashes@) =~= Seq::<Seq<char>>::empty().push(h@));
                self.hashes_per_owner.push(e);
                proof {
                    lemma_hashes_push(&c, self, e);
                }
            },
        }
    }

    /// Removes every occurrence of offer identifier `h` from account `a`'s entry of
    /// the hash index.
    pub(crate) fn unindex_hash(&mut self, a: &String, h: &String)
        requires
            old(self).hash_owners_unique(),
        ensures
            final(self).hash_owners_unique(),
            final(self).hashes_of(a@) == old(self).hashes_of(a@).filter(not_equal_to(h@)),
            forall|b: Seq<char>| b != a@ ==> #[trigger] final(self).hashes_of(b) == old(self).hashes_of(b),
            final(self).hash_map == old(self).hash_map,
            final(self).tokens_per_owner == old(self).tokens_per_owner,
            final(self).owner_id == old(self).owner_id,
            final(self).fee_wallet == old(self).fee_wallet,
            final(self).required_cost == old(self).required_cost,
    {
        let ghost c = *self;
        match self.find_hash_entry(a) {
            Some(i) => {
                let rest = without_string(&self.hashes_per_owner[i].hashes, h);
                let e = OwnerHashes { owner: a.clone(), hashes: rest };
                self.hashes_per_owner.set(i, e);
                proof {
                    lemma_hashes_update(&c, self, i as int, e);
                }
            },
            None => {
                assert(c.hashes_of(a@).filter(not_equal_to(h@)) =~= c.hashes_of(a@));
            },
        }
    }

    /// Records asset `t` in escrow for account `a`.
    pub(crate) fn index_token(&mut self, a: &String, t: &TokenData)
        requires
            old(self).token_owners_unique(),
            old(self).no_double_escrow(),
            !old(self).escrowed(t@),
        ensures
            final(self).token_owners_unique(),
            final(self).no_double_escrow(),
            forall|b: Seq<char>|
                #[trigger] final(self).tokens_of(b) == if b == a@ {
                    old(self).tokens_of(b).push(t@)
                } else {
                    old(self).tokens_of(b)
                },
            final(self).hash_map == old(self).hash_map,
            final(self).hashes_per_owner == old(self).hashes_per_owner,
            final(self).owner_id == old(self).owner_id,
            final(self).fee_wallet == old(self).fee_wallet,
            final(self).required_cost == old(self).required_cost,
    {
        let ghost c = *self;
        match self.find_token_entry(a) {
            Some(i) => {
                let mut e = self.tokens_per_owner.remove(i);
                let ghost old_list = e.tokens@;
                let d = t.duplicate();
                proof {
                    lemma_assets_view_push(old_list, d);
                }
                e.tokens.push(d);
                self.tokens_per_owner.insert(i, e);
                assert(self.tokens_per_owner@ =~= c.tokens_per_owner@.update(i as int, e));
                proof {
                    lemma_tokens_update(&c, self, i as int, e);
                }
            },
            None => {
                let mut tokens: Vec<TokenData> = Vec::new();
                let d = t.duplicate();
                proof {
                    lemma_assets_view_push(tokens@, d);
                }
                tokens.push(d);
                let e = OwnerTokens { owner: a.clone(), tokens };
                self.tokens_per_owner.push(e);
                proof {
                    lemma_tokens_push(&c, self, e);
                }
            },
        }
        proof {
            assert(!c.tokens_of(a@).contains(t@));
            assert forall|b: Seq<char>| #[trigger] self.tokens_of(b).no_duplicates() by {
                if b == a@ {
                    let s = c.tokens_of(b);
                    assert forall|i: int, j: int| 0 <= i < j < s.push(t@).len() implies s.push(t@)[i]
                        != s.push(t@)[j] by {
                        if j == s.len() {
                            assert(s[i] == s.push(t@)[i]);
                        }
                    }
                }
            }
            assert forall|b1: Seq<char>, b2: Seq<char>, x: AssetV|
                b1 != b2 && self.tokens_of(b1).contains(x) implies !self.tokens_of(b2).contains(x) by {
                lemma_push_contains(c.tokens_of(b1), t@, x);
                lemma_push_contains(c.tokens_of(b2), t@, x);
                if x == t@ {
                    if b1 != a@ {
                        assert(c.tokens_of(b1).contains(x));
                    }
                    if b2 != a@ && self.tokens_of(b2).contains(x) {
                        assert(c.tokens_of(b2).contains(x));
                    }
                }
            }
        }
    }

    /// Takes every asset that `released` holds out of account `a`'s escrow entry.
    pub(crate) fn release_tokens(&mut self, a: &String, released: &Vec<TokenData>)
        requires
            old(self).token_owners_unique(),
            old(self).no_double_escrow(),
        ensures
            final(self).token_owners_unique(),
            final(self).no_double_escrow(),
            final(self).tokens_of(a@) == old(self).tokens_of(a@).filter(not_in(assets_view(released@))),
            forall|x: AssetV|
                #[trigger] final(self).tokens_of(a@).contains(x) <==> (old(self).tokens_of(a@).contains(x)
                    && !assets_view(released@).contains(x)),
            forall|b: Seq<char>| b != a@ ==> #[trigger] final(self).tokens_of(b) == old(self).tokens_of(b),
            final(self).hash_map == old(self).hash_map,
            final(self).hashes_per_owner == old(self).hashes_per_owner,
            final(self).owner_id == old(self).owner_id,
            final(self).fee_wallet == old(self).fee_wallet,
            final(self).required_cost == old(self).required_cost,
    {
        let ghost c = *self;
        match self.find_token_entry(a) {
            Some(i) => {
                let rest = without_assets(&self.tokens_per_owner[i].tokens, released);
                let e = OwnerTokens { owner: a.clone(), tokens: rest };
                self.tokens_per_owner.set(i, e);
                proof {
                    lemma_tokens_update(&c, self, i as int, e);
                    assert(c.tokens_of(a@).no_duplicates());
                }
            },
            None => {},
        }
        proof {
            assert forall|b1: Seq<char>, b2: Seq<char>, x: AssetV|
                b1 != b2 && self.tokens_of(b1).contains(x) implies !self.tokens_of(b2).contains(x) by {
                assert(c.tokens_of(b1).contains(x));
                if self.tokens_of(b2).contains(x) {
                    assert(c.tokens_of(b2).contains(x));
                }
            }
        }
    }
}

} // verus!

use vstd::prelude::*;

use crate::asset::{assets_view, AssetV, TokenData};
use crate::offer::{HashOffer, OfferView};

verus! {

/// A live offer under its identifier.
#[derive(Clone, Debug)]
pub struct OfferEntry {
    pub hash: String,
    pub offer: HashOffer,
}

/// The offer identifiers an account takes part in.
#[derive(Clone, Debug)]
pub struct OwnerHashes {
    pub owner: String,
    pub hashes: Vec<String>,
}

/// The assets held in escrow on an account's behalf.
#[derive(Clone, Debug)]
pub struct OwnerTokens {
    pub owner: String,
    pub tokens: Vec<TokenData>,
}

/// The views of a list of strings.
pub open spec fn strings_view(s: Seq<String>) -> Seq<Seq<char>> {
    s.map_values(|x: String| x@)
}

/// The escrow engine's state: the offer store, the two owner indices and the
/// configuration.
pub struct Contract {
    pub hash_map: Vec<OfferEntry>,
    pub hashes_per_owner: Vec<OwnerHashes>,
    pub tokens_per_owner: Vec<OwnerTokens>,
    pub owner_id: String,
    pub fee_wallet: String,
    pub required_cost: u128,
}

impl Contract {
    /// Whether a live offer has identifier `h`.
    pub open spec fn has_offer(&self, h: Seq<char>) -> bool {
        exists|i: int| 0 <= i < self.hash_map@.len() && self.hash_map@[i].hash@ == h
    }

    /// The live offer with identifier `h`.
    pub open spec fn offer(&self, h: Seq<char>) -> OfferView {
        self.hash_map@[choose|i: int| 0 <= i < self.hash_map@.len() && self.hash_map@[i].hash@ == h].offer@
    }

    /// The offer store as a map from identifier to offer.
    pub open spec fn offers(&self) -> Map<Seq<char>, OfferView> {
        Map::new(|h: Seq<char>| self.has_offer(h), |h: Seq<char>| self.offer(h))
    }

    pub open spec fn has_hash_entry(&self, a: Seq<char>) -> bool {
        exists|i: int| 0 <= i < self.hashes_per_owner@.len() && self.hashes_per_owner@[i].owner@ == a
    }

    /// The offer identifiers indexed under account `a`.
    pub open spec fn hashes_of(&self, a: Seq<char>) -> Seq<Seq<char>> {
        if self.has_hash_entry(a) {
            strings_view(
                self.hashes_per_owner@[choose|i: int|
                    0 <= i < self.hashes_per_owner@.len() && self.hashes_per_owner@[i].owner@
                        == a].hashes@,
            )
        } else {
            Seq::empty()
        }
    }

    pub open spec fn has_token_entry(&self, a: Seq<char>) -> bool {
        exists|i: int| 0 <= i < self.tokens_per_owner@.len() && self.tokens_per_owner@[i].owner@ == a
    }

    /// The assets held in escrow on behalf of account `a`.
    pub open spec fn tokens_of(&self, a: Seq<char>) -> Seq<AssetV> {
        if self.has_token_entry(a) {
            assets_view(
                self.tokens_per_owner@[choose|i: int|
                    0 <= i < self.tokens_per_owner@.len() && self.tokens_per_owner@[i].owner@
                        == a].tokens@,
            )
        } else {
            Seq::empty()
        }
    }

    /// Whether any account's escrow entry holds asset `x`.
    pub open spec fn escrowed(&self, x: AssetV) -> bool {
        exists|a: Seq<char>| self.tokens_of(a).contains(x)
    }

    /// No asset is held in escrow for two accounts, nor twice for one.
    pub open spec fn no_double_escrow(&self) -> bool {
        &&& forall|a: Seq<char>| self.tokens_of(a).no_duplicates()
        &&& forall|a: Seq<char>, b: Seq<char>, x: AssetV|
            a != b && self.tokens_of(a).contains(x) ==> !self.tokens_of(b).contains(x)
    }

    /// No two live offers share an identifier.
    pub open spec fn offer_keys_unique(&self) -> bool {
        forall|i: int, j: int|
            0 <= i < j < self.hash_map@.len() ==> self.hash_map@[i].hash@ != self.hash_map@[j].hash@
    }

    /// No account has two entries in the hash index.
    pub open spec fn hash_owners_unique(&self) -> bool {
        forall|i: int, j: int|
            0 <= i < j < self.hashes_per_owner@.len() ==> self.hashes_per_owner@[i].owner@
                != self.hashes_per_owner@[j].owner@
    }

    /// No account has two entries in the token index.
    pub open spec fn token_owners_unique(&self) -> bool {
        forall|i: int, j: int|
            0 <= i < j < self.tokens_per_owner@.len() ==> self.tokens_per_owner@[i].owner@
                != self.tokens_per_owner@[j].owner@
    }

    /// Every live offer satisfies the offer invariant.
    pub open spec fn offers_consistent(&self) -> bool {
        forall|h: Seq<char>| #[trigger] self.offers().contains_key(h) ==> self.offers()[h].consistent()
    }

    /// The state's invariant.
    pub open spec fn wf(&self) -> bool {
        &&& self.offer_keys_unique()
        &&& self.hash_owners_unique()
        &&& self.token_owners_unique()
        &&& self.offers_consistent()
        &&& self.no_double_escrow()
        &&& self.hash_index_consistent()
        &&& self.token_index_consistent()
    }

    /// The entry at index `i` of the offer store is the offer of its identifier.
    pub proof fn lemma_offer_at(&self, i: int)
        requires
            self.offer_keys_unique(),
            0 <= i < self.hash_map@.len(),
        ensures
            self.has_offer(self.hash_map@[i].hash@),
            self.offer(self.hash_map@[i].hash@) == self.hash_map@[i].offer@,
            self.offers().contains_key(self.hash_map@[i].hash@),
            self.offers()[self.hash_map@[i].hash@] == self.hash_map@[i].offer@,
    {
        let h = self.hash_map@[i].hash@;
        let j = choose|j: int| 0 <= j < self.hash_map@.len() && self.hash_map@[j].hash@ == h;
        if j < i {
            assert(self.hash_map@[j].hash@ != self.hash_map@[i].hash@);
        } else if i < j {
            assert(self.hash_map@[i].hash@ != self.hash_map@[j].hash@);
        }
    }

    /// The entry at index `i` of the hash index is the list of its owner.
    pub proof fn lemma_hashes_at(&self, i: int)
        requires
            self.hash_owners_unique(),
            0 <= i < self.hashes_per_owner@.len(),
        ensures
            self.has_hash_entry(self.hashes_per_owner@[i].owner@),
            self.hashes_of(self.hashes_per_owner@[i].owner@) == strings_view(
                self.hashes_per_owner@[i].hashes@,
            ),
    {
        let a = self.hashes_per_owner@[i].owner@;
        let j = choose|j: int| 0 <= j < self.hashes_per_owner@.len() && self.hashes_per_owner@[j].owner@ == a;
        if j < i {
            assert(self.hashes_per_owner@[j].owner@ != self.hashes_per_owner@[i].owner@);
        } else if i < j {
            assert(self.hashes_per_owner@[i].owner@ != self.hashes_per_owner@[j].owner@);
        }
    }

    /// The entry at index `i` of the token index is the list of its owner.
    pub proof fn lemma_tokens_at(&self, i: int)
        requires
            self.token_owners_unique(),
            0 <= i < self.tokens_per_owner@.len(),
        ensures
            self.has_token_entry(self.tokens_per_owner@[i].owner@),
            self.tokens_of(self.tokens_per_owner@[i].owner@) == assets_view(
                self.tokens_per_owner@[i].tokens@,
            ),
    {
        let a = self.tokens_per_owner@[i].owner@;
        let j = choose|j: int| 0 <= j < self.tokens_per_owner@.len() && self.tokens_per_owner@[j].owner@ == a;
        if j < i {
            assert(self.tokens_per_owner@[j].owner@ != self.tokens_per_owner@[i].owner@);
        } else if i < j {
            assert(self.tokens_per_owner@[i].owner@ != self.tokens_per_owner@[j].owner@);
        }
    }

    /// The index of the offer with identifier `h`, if it is live.
    pub fn find_offer(&self, h: &String) -> (r: Option<usize>)
        requires
            self.offer_keys_unique(),
        ensures
            r is None <==> !self.has_offer(h@),
            r matches Some(i) ==> i < self.hash_map@.len() && self.hash_map@[i as int].hash@ == h@
                && self.offer(h@) == self.hash_map@[i as int].offer@,
    {
        let mut i: usize = 0;
        while i < self.hash_map.len()
            invariant
                self.offer_keys_unique(),
                i <= self.hash_map@.len(),
                forall|k: int| 0 <= k < i ==> self.hash_map@[k].hash@ != h@,
            decreases self.hash_map@.len() - i,
        {
            if self.hash_map[i].hash == *h {
                proof {
                    self.lemma_offer_at(i as int);
                }
                return Some(i);
            }
            i += 1;
        }
        None
    }

    /// The index of account `a`'s entry in the hash index, if it has one.
    pub fn find_hash_entry(&self, a: &String) -> (r: Option<usize>)
        requires
            self.hash_owners_unique(),
        ensures
            r is None <==> !self.has_hash_entry(a@),
            r matches Some(i) ==> i < self.hashes_per_owner@.len()
                && self.hashes_per_owner@[i as int].owner@ == a@ && self.hashes_of(a@)
                == strings_view(self.hashes_per_owner@[i as int].hashes@),
    {
        let mut i: usize = 0;
        while i < self.hashes_per_owner.len()
            invariant
                self.hash_owners_unique(),
                i <= self.hashes_per_owner@.len(),
                forall|k: int| 0 <= k < i ==> self.hashes_per_owner@[k].owner@ != a@,
            decreases self.hashes_per_owner@.len() - i,
        {
            if self.hashes_per_owner[i].owner == *a {
                proof {
                    self.lemma_hashes_at(i as int);
                }
                return Some(i);
            }
            i += 1;
        }
        None
    }

    /// The index of account `a`'s entry in the token index, if it has one.
    pub fn find_token_entry(&self, a: &String) -> (r: Option<usize>)
        requires
            self.token_owners_unique(),
        ensures
            r is None <==> !self.has_token_entry(a@),
            r matches Some(i) ==> i < self.tokens_per_owner@.len()
                && self.tokens_per_owner@[i as int].owner@ == a@ && self.tokens_of(a@)
                == assets_view(self.tokens_per_owner@[i as int].tokens@),
    {
        let mut i: usize = 0;
        while i < self.tokens_per_owner.len()
            invariant
                self.token_owners_unique(),
                i <= self.tokens_per_owner@.len(),
                forall|k: int| 0 <= k < i ==> self.tokens_per_owner@[k].owner@ != a@,
            decreases self.tokens_per_owner@.len() - i,
        {
            if self.tokens_per_owner[i].owner == *a {
                proof {
                    self.lemma_tokens_at(i as int);
                }
                return Some(i);
            }
            i += 1;
        }
        None
    }
}

} // verus!

//! The offer lifecycle: creation, deposits, completion and cancellation.
use vstd::prelude::*;
use vstd::set_lib::lemma_len_subset;

use crate::asset::{
    assets_view, contains_asset, copy_assets, lemma_assets_view_push, AssetV, TokenData,
};
use crate::contract::{strings_view, Contract, OfferEntry};
use crate::fees::{offer_fee, payment_covers, fee_spec, required_payment_spec};
use crate::filter::{lemma_filter_all, lemma_push_contains, lemma_push_no_duplicates, not_equal_to, not_in};
use crate::frame::{lemma_offers_push, lemma_offers_remove, lemma_offers_update};
use crate::invariants::{
    lemma_close_keeps_indices, lemma_create_keeps_indices, lemma_deposit_keeps_indices,
};
use crate::offer::{
    native_transfers_view, nft_transfers_view, push_transfers, send_all, side_consistent,
    HashOffer, NativeTransfer, NftTransfer, OfferError, OfferView, Settlement,
};

verus! {

/// At most this many assets may be promised in one offer, both sides together.
pub const MAX_ASSETS_PER_OFFER: usize = 8;

/// A duplicate-free selection of a list is no longer than the list.
pub proof fn lemma_selection_len(expected: Seq<AssetV>, actual: Seq<AssetV>)
    requires
        actual.no_duplicates(),
        forall|a: AssetV| actual.contains(a) ==> expected.contains(a),
    ensures
        actual.len() <= expected.len(),
{
    actual.unique_seq_to_set();
    expected.lemma_cardinality_of_set();
    assert(actual.to_set().subset_of(expected.to_set()));
    lemma_len_subset(actual.to_set(), expected.to_set());
}

/// The offer that a successful creation stores.
pub open spec fn created_offer(
    sender: Seq<char>,
    near: int,
    sender_expected: Seq<AssetV>,
    receiver: Seq<char>,
    receiver_expected: Seq<AssetV>,
    timestamp: int,
    privileged: bool,
) -> OfferView {
    OfferView {
        sender,
        near,
        sender_expected,
        sender_actual: Seq::empty(),
        receiver,
        receiver_expected,
        receiver_actual: Seq::empty(),
        timestamp,
        privileged,
    }
}

/// The promised assets of `party`'s side of `o`.
pub open spec fn expected_of(o: OfferView, party: Seq<char>) -> Seq<AssetV> {
    if party == o.sender {
        o.sender_expected
    } else {
        o.receiver_expected
    }
}

/// The deposited assets of `party`'s side of `o`.
pub open spec fn actual_of(o: OfferView, party: Seq<char>) -> Seq<AssetV> {
    if party == o.sender {
        o.sender_actual
    } else {
        o.receiver_actual
    }
}

/// `o` after `party` deposited asset `x`.
pub open spec fn with_deposit(o: OfferView, party: Seq<char>, x: AssetV) -> OfferView {
    if party == o.sender {
        OfferView { sender_actual: o.sender_actual.push(x), ..o }
    } else {
        OfferView { receiver_actual: o.receiver_actual.push(x), ..o }
    }
}

/// The assets that closing `o` takes out of `account`'s escrow entry.
pub open spec fn released(o: OfferView, account: Seq<char>) -> Seq<AssetV> {
    if account == o.sender {
        o.sender_actual
    } else if account == o.receiver {
        o.receiver_actual
    } else {
        Seq::empty()
    }
}

/// The asset transfers of a completed offer: each side's deposits go to the other side.
pub open spec fn completion_transfers(o: OfferView) -> Seq<(AssetV, Seq<char>)> {
    send_all(o.sender_actual, o.receiver) + send_all(o.receiver_actual, o.sender)
}

/// The asset transfers of a cancelled offer: each deposit goes back to its depositor.
pub open spec fn refund_transfers(o: OfferView) -> Seq<(AssetV, Seq<char>)> {
    send_all(o.sender_actual, o.sender) + send_all(o.receiver_actual, o.receiver)
}

/// The native payouts that close `o`: its fee to the fee account, then its
/// amount, if any, to `to`.
pub open spec fn native_payouts(o: OfferView, fee_wallet: Seq<char>, base_fee: int, to: Seq<char>) -> Seq<
    (Seq<char>, int),
> {
    let fee = seq![(fee_wallet, fee_spec(o.near, o.privileged, base_fee))];
    if o.near > 0 {
        fee.push((to, o.near))
    } else {
        fee
    }
}

impl Contract {
    /// Why creating an offer with these arguments is refused, if it is.
    pub open spec fn send_offer_error(
        &self,
        signer: Seq<char>,
        attached: int,
        hash: Seq<char>,
        sender: Seq<char>,
        near: int,
        n_assets: int,
        receiver: Seq<char>,
        is_holder: bool,
    ) -> Option<OfferError> {
        if attached < required_payment_spec(near, is_holder, self.required_cost as int) {
            Some(OfferError::InsufficientDeposit)
        } else if self.has_offer(hash) {
            Some(OfferError::OfferExists)
        } else if signer != sender {
            Some(OfferError::InvalidSender)
        } else if signer == receiver {
            Some(OfferError::ReceiverIsSigner)
        } else if n_assets > MAX_ASSETS_PER_OFFER {
            Some(OfferError::TooManyAssets)
        } else {
            None
        }
    }

    /// Why recording the privilege answer of a creation is refused, if it is.
    pub open spec fn callback_error(
        &self,
        hash: Seq<char>,
        sender: Seq<char>,
        receiver: Seq<char>,
        is_holder: bool,
        held_items: Option<usize>,
    ) -> Option<OfferError> {
        if held_items is None {
            Some(OfferError::PrivilegeQueryFailed)
        } else if (held_items->0 > 0) != is_holder {
            Some(OfferError::InvalidHolderStatus)
        } else if self.has_offer(hash) {
            Some(OfferError::OfferExists)
        } else if sender == receiver {
            Some(OfferError::ReceiverIsSigner)
        } else {
            None
        }
    }

    /// Why a deposit notification is refused, if it is.
    pub open spec fn deposit_error(
        &self,
        registry: Seq<char>,
        signer: Seq<char>,
        previous_owner: Seq<char>,
        token_id: Seq<char>,
        hash: Seq<char>,
    ) -> Option<OfferError> {
        let x = (registry, token_id);
        if registry == signer {
            Some(OfferError::NotCrossContract)
        } else if previous_owner != signer {
            Some(OfferError::OwnerNotSigner)
        } else if !self.has_offer(hash) {
            Some(OfferError::OfferNotFound)
        } else if !self.offer(hash).has_party(signer) {
            Some(OfferError::NotParticipant)
        } else if !expected_of(self.offer(hash), signer).contains(x) {
            Some(OfferError::WrongAsset)
        } else if actual_of(self.offer(hash), signer).contains(x) {
            Some(OfferError::AssetAlreadyRecorded)
        } else if self.escrowed(x) {
            Some(OfferError::AssetAlreadyEscrowed)
        } else {
            None
        }
    }

    /// Why a cancellation is refused, if it is. The contract's own account is
    /// the maintenance caller: it needs neither the proof of intent nor a part
    /// in the offer.
    pub open spec fn cancel_error(
        &self,
        signer: Seq<char>,
        current_account: Seq<char>,
        attached: int,
        hash: Seq<char>,
    ) -> Option<OfferError> {
        if !self.has_offer(hash) {
            Some(OfferError::OfferNotFound)
        } else if signer == current_account {
            None
        } else if attached != 1 {
            Some(OfferError::ProofOfIntentMissing)
        } else if !self.offer(hash).has_party(signer) {
            Some(OfferError::NotParticipant)
        } else {
            None
        }
    }

    /// The configuration is unchanged between `self` and `other`.
    pub open spec fn same_config(&self, other: &Contract) -> bool {
        &&& self.owner_id == other.owner_id
        &&& self.fee_wallet == other.fee_wallet
        &&& self.required_cost == other.required_cost
    }

    /// Whether asset `t` is held in escrow for any account.
    pub fn is_escrowed(&self, t: &TokenData) -> (r: bool)
        requires
            self.token_owners_unique(),
        ensures
            r == self.escrowed(t@),
    {
        let mut i: usize = 0;
        while i < self.tokens_per_owner.len()
            invariant
                self.token_owners_unique(),
                i <= self.tokens_per_owner@.len(),
                forall|k: int| 0 <= k < i ==> !assets_view(self.tokens_per_owner@[k].tokens@).contains(t@),
            decreases self.tokens_per_owner@.len() - i,
        {
            if contains_asset(&self.tokens_per_owner[i].tokens, t) {
                proof {
                    self.lemma_tokens_at(i as int);
                    assert(self.tokens_of(self.tokens_per_owner@[i as int].owner@).contains(t@));
                }
                return true;
            }
            i += 1;
        }
        proof {
            assert forall|a: Seq<char>| !self.tokens_of(a).contains(t@) by {
                if self.has_token_entry(a) {
                    let k = choose|k: int| 0 <= k < self.tokens_per_owner@.len() && self.tokens_per_owner@[k].owner@ == a;
                    self.lemma_tokens_at(k);
                }
            }
        }
        false
    }
}


impl Contract {
    /// An engine with no offers and the given configuration.
    pub fn new(owner_id: String, fee_wallet: String, required_cost: u128) -> (r: Contract)
        ensures
            r.wf(),
            r.offers() == Map::<Seq<char>, OfferView>::empty(),
            forall|a: Seq<char>| #[trigger] r.hashes_of(a) == Seq::<Seq<char>>::empty(),
            forall|a: Seq<char>| #[trigger] r.tokens_of(a) == Seq::<AssetV>::empty(),
            r.owner_id == owner_id,
            r.fee_wallet == fee_wallet,
            r.required_cost == required_cost,
    {
        let r = Contract {
            hash_map: Vec::new(),
            hashes_per_owner: Vec::new(),
            tokens_per_owner: Vec::new(),
            owner_id,
            fee_wallet,
            required_cost,
        };
        assert(r.offers() =~= Map::<Seq<char>, OfferView>::empty());
        assert forall|a: Seq<char>| #[trigger] r.hashes_of(a) == Seq::<Seq<char>>::empty() by {}
        assert forall|a: Seq<char>| #[trigger] r.tokens_of(a) == Seq::<AssetV>::empty() by {}
        r
    }

    /// Whether `account` is the administrative account.
    pub fn is_owner(&self, account: &String) -> (r: bool)
        ensures
            r == (account@ == self.owner_id@),
    {
        *account == self.owner_id
    }

    /// Refuses a signer other than the administrative account.
    pub fn assert_owner(&self, signer: &String) -> (r: Result<(), OfferError>)
        ensures
            r is Ok <==> signer@ == self.owner_id@,
            r is Err ==> r == Err::<(), OfferError>(OfferError::NotOwner),
    {
        if self.signer_is_owner(signer) {
            Ok(())
        } else {
            Err(OfferError::NotOwner)
        }
    }

    /// Whether the transaction's signer is the administrative account.
    pub fn signer_is_owner(&self, signer: &String) -> (r: bool)
        ensures
            r == (signer@ == self.owner_id@),
    {
        self.is_owner(signer)
    }

    /// Checks a request to create an offer. On success the caller issues the
    /// privilege query and hands its answer to `callback_send_offer`; nothing is
    /// stored yet.
    pub fn send_offer(
        &self,
        signer: &String,
        attached_deposit: u128,
        hash: &String,
        sender_id: &String,
        sender_near: u128,
        sender_nfts: &Vec<TokenData>,
        receiver_id: &String,
        receiver_nfts: &Vec<TokenData>,
        is_holder: bool,
    ) -> (r: Result<(), OfferError>)
        requires
            self.wf(),
        ensures
            r == match self.send_offer_error(
                signer@,
                attached_deposit as int,
                hash@,
                sender_id@,
                sender_near as int,
                sender_nfts@.len() + receiver_nfts@.len() as int,
                receiver_id@,
                is_holder,
            ) {
                Some(e) => Err::<(), OfferError>(e),
                None => Ok(()),
            },
    {
        if !payment_covers(attached_deposit, sender_near, is_holder, self.required_cost) {
            return Err(OfferError::InsufficientDeposit);
        }
        if self.find_offer(hash).is_some() {
            return Err(OfferError::OfferExists);
        }
        if *signer != *sender_id {
            return Err(OfferError::InvalidSender);
        }
        if *signer == *receiver_id {
            return Err(OfferError::ReceiverIsSigner);
        }
        if sender_nfts.len() > MAX_ASSETS_PER_OFFER || receiver_nfts.len() > MAX_ASSETS_PER_OFFER
            - sender_nfts.len() {
            return Err(OfferError::TooManyAssets);
        }
        Ok(())
    }

    /// Stores a new offer once the privilege query has answered: `held_items` is
    /// how many items of the reference registry the query found held by the
    /// initiator, or `None` where the query failed or its answer was unreadable.
    /// The initiator is privileged when it holds any; the claim `is_holder` must
    /// match that.
    pub fn callback_send_offer(
        &mut self,
        hash: String,
        sender_id: String,
        sender_near: u128,
        sender_nfts: Vec<TokenData>,
        receiver_id: String,
        receiver_nfts: Vec<TokenData>,
        is_holder: bool,
        held_items: Option<usize>,
        timestamp: u64,
    ) -> (r: Result<(), OfferError>)
        requires
            old(self).wf(),
        ensures
            final(self).wf(),
            match old(self).callback_error(hash@, sender_id@, receiver_id@, is_holder, held_items) {
                Some(e) => r == Err::<(), OfferError>(e) && *final(self) == *old(self),
                None => {
                    &&& r is Ok
                    &&& final(self).offers() == old(self).offers().insert(
                        hash@,
                        created_offer(
                            sender_id@,
                            sender_near as int,
                            assets_view(sender_nfts@),
                            receiver_id@,
                            assets_view(receiver_nfts@),
                            timestamp as int,
                            is_holder,
                        ),
                    )
                    &&& forall|a: Seq<char>|
                        #[trigger] final(self).hashes_of(a) == if a == sender_id@ || a == receiver_id@ {
                            old(self).hashes_of(a).push(hash@)
                        } else {
                            old(self).hashes_of(a)
                        }
                    &&& forall|a: Seq<char>| #[trigger] final(self).tokens_of(a) == old(self).tokens_of(a)
                    &&& final(self).same_config(old(self))
                },
            },
    {
        match held_items {
            None => {
                return Err(OfferError::PrivilegeQueryFailed);
            },
            Some(n) => {
                let is_monarch = n > 0;
                if is_monarch != is_holder {
                    return Err(OfferError::InvalidHolderStatus);
                }
            },
        }
        if self.find_offer(&hash).is_some() {
            return Err(OfferError::OfferExists);
        }
        if sender_id == receiver_id {
            return Err(OfferError::ReceiverIsSigner);
        }
        let ghost c = *self;
        self.index_hash(&sender_id, &hash);
        self.index_hash(&receiver_id, &hash);
        let ghost c2 = *self;
        let offer = HashOffer {
            sender_id,
            sender_near,
            sender_nfts,
            sent_nfts: Vec::new(),
            receiver_id,
            receiver_nfts,
            received_nfts: Vec::new(),
            timestamp,
            is_monarch: is_holder,
        };
        let entry = OfferEntry { hash, offer };
        assert(assets_view(entry.offer.sent_nfts@) =~= Seq::<AssetV>::empty());
        assert(assets_view(entry.offer.received_nfts@) =~= Seq::<AssetV>::empty());
        self.hash_map.push(entry);
        proof {
            lemma_offers_push(&c2, self, entry);
            assert(c2.offers() == c.offers());
            assert(self.tokens_per_owner == c.tokens_per_owner);
            assert(self.hashes_per_owner == c2.hashes_per_owner);
            assert forall|a: Seq<char>| #[trigger] self.tokens_of(a) == c.tokens_of(a) by {
                assert(self.has_token_entry(a) == c.has_token_entry(a));
            }
            assert forall|a: Seq<char>| #[trigger] self.hashes_of(a) == c2.hashes_of(a) by {
                assert(self.has_hash_entry(a) == c2.has_hash_entry(a));
            }
            assert forall|h: Seq<char>| #[trigger] self.offers().contains_key(h) implies self.offers()[h].consistent() by {
                if h != entry.hash@ {
                    assert(c.offers().contains_key(h));
                }
            }
            lemma_create_keeps_indices(&c, self, entry.hash@, entry.offer@);
        }
        Ok(())
    }
}


impl Contract {
    /// Removes the offer at index `i` from the store, takes its deposited assets
    /// out of the token index and its identifier out of both parties' entries of
    /// the hash index. Returns the removed offer.
    fn close_offer(&mut self, i: usize) -> (o: HashOffer)
        requires
            old(self).wf(),
            i < old(self).hash_map@.len(),
        ensures
            final(self).wf(),
            final(self).same_config(old(self)),
            o@ == old(self).hash_map@[i as int].offer@,
            o@ == old(self).offer(old(self).hash_map@[i as int].hash@),
            final(self).offers() == old(self).offers().remove(old(self).hash_map@[i as int].hash@),
            forall|a: Seq<char>|
                #[trigger] final(self).tokens_of(a) == old(self).tokens_of(a).filter(
                    not_in(released(o@, a)),
                ),
            forall|a: Seq<char>|
                #[trigger] final(self).hashes_of(a) == if o@.has_party(a) {
                    old(self).hashes_of(a).filter(not_equal_to(old(self).hash_map@[i as int].hash@))
                } else {
                    old(self).hashes_of(a)
                },
    {
        let ghost c = *self;
        proof {
            c.lemma_offer_at(i as int);
        }
        let entry = self.hash_map.remove(i);
        proof {
            lemma_offers_remove(&c, self, i as int);
            assert(c.offers().contains_key(entry.hash@));
            assert(entry.offer@.consistent());
        }
        let ghost c1 = *self;
        proof {
            assert(c1.tokens_per_owner == c.tokens_per_owner);
            assert(c1.hashes_per_owner == c.hashes_per_owner);
            assert forall|a: Seq<char>| #[trigger] c1.tokens_of(a) == c.tokens_of(a) by {
                assert(c1.has_token_entry(a) == c.has_token_entry(a));
            }
            assert forall|a: Seq<char>| #[trigger] c1.hashes_of(a) == c.hashes_of(a) by {
                assert(c1.has_hash_entry(a) == c.has_hash_entry(a));
            }
        }
        self.release_tokens(&entry.offer.sender_id, &entry.offer.sent_nfts);
        let ghost c2 = *self;
        self.release_tokens(&entry.offer.receiver_id, &entry.offer.received_nfts);
        let ghost c3 = *self;
        self.unindex_hash(&entry.offer.sender_id, &entry.hash);
        let ghost c4 = *self;
        self.unindex_hash(&entry.offer.receiver_id, &entry.hash);
        proof {
            let o = entry.offer@;
            assert(c3.tokens_per_owner == self.tokens_per_owner);
            assert(c2.hashes_per_owner == c1.hashes_per_owner);
            assert(c3.hashes_per_owner == c1.hashes_per_owner);
            assert forall|a: Seq<char>| #[trigger] self.tokens_of(a) == c3.tokens_of(a) by {
                assert(self.has_token_entry(a) == c3.has_token_entry(a));
            }
            assert forall|a: Seq<char>| #[trigger] c3.hashes_of(a) == c1.hashes_of(a) by {
                assert(c3.has_hash_entry(a) == c1.has_hash_entry(a));
            }
            assert forall|a: Seq<char>|
                #[trigger] self.tokens_of(a) == c.tokens_of(a).filter(not_in(released(o, a))) by {
                if a == o.sender {
                    assert(c3.tokens_of(a) == c2.tokens_of(a));
                } else if a == o.receiver {
                } else {
                    assert(c3.tokens_of(a) == c2.tokens_of(a));
                    lemma_filter_all(c.tokens_of(a), not_in(released(o, a)));
                }
            }
            assert forall|a: Seq<char>|
                #[trigger] self.hashes_of(a) == if o.has_party(a) {
                    c.hashes_of(a).filter(not_equal_to(entry.hash@))
                } else {
                    c.hashes_of(a)
                } by {
                if a == o.sender {
                    assert(self.hashes_of(a) == c4.hashes_of(a));
                } else if a == o.receiver {
                } else {
                    assert(self.hashes_of(a) == c4.hashes_of(a));
                }
            }
            assert forall|h: Seq<char>| #[trigger] self.offers().contains_key(h) implies self.offers()[h].consistent() by {
                assert(c.offers().contains_key(h));
            }
            assert(self.hash_map == c1.hash_map);
            assert(self.offers() == c1.offers());
            lemma_close_keeps_indices(&c, self, entry.hash@);
        }
        entry.offer
    }

    /// The transfers that close offer `o`: on completion each side's deposits
    /// go to the other side and the amount to the counterparty; on cancellation
    /// everything goes back. The fee goes to the fee account either way.
    fn settlement(&self, o: &HashOffer, completed: bool) -> (s: Settlement)
        ensures
            nft_transfers_view(s.nft_transfers@) == if completed {
                completion_transfers(o@)
            } else {
                refund_transfers(o@)
            },
            native_transfers_view(s.native_transfers@) == native_payouts(
                o@,
                self.fee_wallet@,
                self.required_cost as int,
                if completed {
                    o@.receiver
                } else {
                    o@.sender
                },
            ),
    {
        let mut nft_transfers: Vec<NftTransfer> = Vec::new();
        assert(nft_transfers_view(nft_transfers@) =~= Seq::<(AssetV, Seq<char>)>::empty());
        if completed {
            push_transfers(&mut nft_transfers, &o.sent_nfts, &o.receiver_id);
            push_transfers(&mut nft_transfers, &o.received_nfts, &o.sender_id);
        } else {
            push_transfers(&mut nft_transfers, &o.sent_nfts, &o.sender_id);
            push_transfers(&mut nft_transfers, &o.received_nfts, &o.receiver_id);
        }
        let fee = offer_fee(o.sender_near, o.is_monarch, self.required_cost);
        let mut native_transfers: Vec<NativeTransfer> = Vec::new();
        native_transfers.push(NativeTransfer { receiver_id: self.fee_wallet.clone(), amount: fee });
        if o.sender_near > 0 {
            let to = if completed {
                o.receiver_id.clone()
            } else {
                o.sender_id.clone()
            };
            native_transfers.push(NativeTransfer { receiver_id: to, amount: o.sender_near });
        }
        assert(native_transfers_view(native_transfers@) =~= native_payouts(
            o@,
            self.fee_wallet@,
            self.required_cost as int,
            if completed {
                o@.receiver
            } else {
                o@.sender
            },
        ));
        Settlement { nft_transfers, native_transfers }
    }
}


impl Contract {
    /// Handles a registry's notice that `signer` transferred item `token_id` of
    /// registry `nft_contract_id` to the engine for offer `msg`. The asset is
    /// recorded on the signer's side; when both sides are then fully funded the
    /// offer is closed at once and the transfers that complete it are returned.
    pub fn nft_on_transfer(
        &mut self,
        nft_contract_id: &String,
        signer_id: &String,
        previous_owner_id: &String,
        token_id: &String,
        msg: &String,
    ) -> (r: Result<Option<Settlement>, OfferError>)
        requires
            old(self).wf(),
        ensures
            final(self).wf(),
            match old(self).deposit_error(
                nft_contract_id@,
                signer_id@,
                previous_owner_id@,
                token_id@,
                msg@,
            ) {
                Some(e) => r == Err::<Option<Settlement>, OfferError>(e) && *final(self) == *old(self),
                None => {
                    let x = (nft_contract_id@, token_id@);
                    let o = with_deposit(old(self).offer(msg@), signer_id@, x);
                    &&& final(self).same_config(old(self))
                    &&& if o.fully_funded() {
                        &&& r matches Ok(Some(s)) && nft_transfers_view(s.nft_transfers@)
                            == completion_transfers(o) && native_transfers_view(s.native_transfers@)
                            == native_payouts(
                            o,
                            old(self).fee_wallet@,
                            old(self).required_cost as int,
                            o.receiver,
                        )
                        &&& final(self).offers() == old(self).offers().remove(msg@)
                        &&& forall|a: Seq<char>|
                            #[trigger] final(self).tokens_of(a) == (if a == signer_id@ {
                                old(self).tokens_of(a).push(x)
                            } else {
                                old(self).tokens_of(a)
                            }).filter(not_in(released(o, a)))
                        &&& forall|a: Seq<char>|
                            #[trigger] final(self).hashes_of(a) == if o.has_party(a) {
                                old(self).hashes_of(a).filter(not_equal_to(msg@))
                            } else {
                                old(self).hashes_of(a)
                            }
                    } else {
                        &&& r == Ok::<Option<Settlement>, OfferError>(None)
                        &&& final(self).offers() == old(self).offers().insert(msg@, o)
                        &&& forall|a: Seq<char>|
                            #[trigger] final(self).tokens_of(a) == if a == signer_id@ {
                                old(self).tokens_of(a).push(x)
                            } else {
                                old(self).tokens_of(a)
                            }
                        &&& forall|a: Seq<char>| #[trigger] final(self).hashes_of(a) == old(self).hashes_of(a)
                    }
                },
            },
    {
        if *nft_contract_id == *signer_id {
            return Err(OfferError::NotCrossContract);
        }
        if *previous_owner_id != *signer_id {
            return Err(OfferError::OwnerNotSigner);
        }
        let i = match self.find_offer(msg) {
            None => {
                return Err(OfferError::OfferNotFound);
            },
            Some(i) => i,
        };
        let is_sender = *signer_id == self.hash_map[i].offer.sender_id;
        if !is_sender && *signer_id != self.hash_map[i].offer.receiver_id {
            return Err(OfferError::NotParticipant);
        }
        let t = TokenData::new(nft_contract_id.clone(), token_id.clone());
        let expected = if is_sender {
            &self.hash_map[i].offer.sender_nfts
        } else {
            &self.hash_map[i].offer.receiver_nfts
        };
        if !contains_asset(expected, &t) {
            return Err(OfferError::WrongAsset);
        }
        let actual = if is_sender {
            &self.hash_map[i].offer.sent_nfts
        } else {
            &self.hash_map[i].offer.received_nfts
        };
        if contains_asset(actual, &t) {
            return Err(OfferError::AssetAlreadyRecorded);
        }
        if self.is_escrowed(&t) {
            return Err(OfferError::AssetAlreadyEscrowed);
        }
        let ghost c = *self;
        let ghost x = t@;
        let ghost o2 = with_deposit(c.offer(msg@), signer_id@, x);
        proof {
            c.lemma_offer_at(i as int);
            assert(c.offers().contains_key(msg@));
            assert(c.offer(msg@).consistent());
        }
        let mut entry = self.hash_map.remove(i);
        let d = t.duplicate();
        if is_sender {
            proof {
                lemma_assets_view_push(entry.offer.sent_nfts@, d);
            }
            entry.offer.sent_nfts.push(d);
        } else {
            proof {
                lemma_assets_view_push(entry.offer.received_nfts@, d);
            }
            entry.offer.received_nfts.push(d);
        }
        assert(entry.offer@ == o2);
        let funded = entry.offer.sent_nfts.len() == entry.offer.sender_nfts.len()
            && entry.offer.received_nfts.len() == entry.offer.receiver_nfts.len();
        proof {
            let o = c.offer(msg@);
            if is_sender {
                lemma_push_contains_all(o.sender_actual, x);
                lemma_selection_len(o2.sender_expected, o2.sender_actual);
            } else {
                lemma_push_contains_all(o.receiver_actual, x);
                lemma_selection_len(o2.receiver_expected, o2.receiver_actual);
            }
            assert(o2.consistent());
        }
        self.hash_map.insert(i, entry);
        proof {
            assert(self.hash_map@ =~= c.hash_map@.update(i as int, entry));
            lemma_offers_update(&c, self, i as int, entry);
            assert forall|h: Seq<char>| #[trigger] self.offers().contains_key(h) implies self.offers()[h].consistent() by {
                if h != msg@ {
                    assert(c.offers().contains_key(h));
                }
            }
        }
        let ghost c1 = *self;
        proof {
            assert(c1.tokens_per_owner == c.tokens_per_owner);
            assert forall|a: Seq<char>| #[trigger] c1.tokens_of(a) == c.tokens_of(a) by {
                assert(c1.has_token_entry(a) == c.has_token_entry(a));
            }
            assert(!c1.escrowed(t@));
        }
        self.index_token(signer_id, &t);
        proof {
            assert(self.hashes_per_owner == c.hashes_per_owner);
            assert forall|a: Seq<char>| #[trigger] self.hashes_of(a) == c.hashes_of(a) by {
                assert(self.has_hash_entry(a) == c.has_hash_entry(a));
            }
            assert(self.hash_map == c1.hash_map);
            assert(self.offers() == c1.offers());
            assert(c.offers()[msg@] == c.offer(msg@));
            lemma_deposit_keeps_indices(&c, self, msg@, signer_id@, x);
        }
        if !funded {
            return Ok(None);
        }
        let ghost c2 = *self;
        let o = self.close_offer(i);
        proof {
            assert(c2.hash_map@[i as int].hash@ == msg@);
            assert(o@ == o2);
        }
        Ok(Some(self.settlement(&o, true)))
    }

    /// Cancels offer `hash`: every deposited asset goes back to its depositor,
    /// the amount back to the initiator and the fee to the fee account. Only the
    /// two parties may cancel, with a single-unit proof of intent attached, or the
    /// contract's own account (`current_account_id`) without either.
    pub fn cancel_offer(
        &mut self,
        signer_id: &String,
        current_account_id: &String,
        attached_deposit: u128,
        hash: &String,
    ) -> (r: Result<Settlement, OfferError>)
        requires
            old(self).wf(),
        ensures
            final(self).wf(),
            match old(self).cancel_error(signer_id@, current_account_id@, attached_deposit as int, hash@) {
                Some(e) => r == Err::<Settlement, OfferError>(e) && *final(self) == *old(self),
                None => {
                    let o = old(self).offer(hash@);
                    &&& r matches Ok(s) && nft_transfers_view(s.nft_transfers@) == refund_transfers(o)
                        && native_transfers_view(s.native_transfers@) == native_payouts(
                        o,
                        old(self).fee_wallet@,
                        old(self).required_cost as int,
                        o.sender,
                    )
                    &&& final(self).same_config(old(self))
                    &&& final(self).offers() == old(self).offers().remove(hash@)
                    &&& forall|a: Seq<char>|
                        #[trigger] final(self).tokens_of(a) == old(self).tokens_of(a).filter(
                            not_in(released(o, a)),
                        )
                    &&& forall|a: Seq<char>|
                        #[trigger] final(self).hashes_of(a) == if o.has_party(a) {
                            old(self).hashes_of(a).filter(not_equal_to(hash@))
                        } else {
                            old(self).hashes_of(a)
                        }
                },
            },
    {
        let i = match self.find_offer(hash) {
            None => {
                return Err(OfferError::OfferNotFound);
            },
            Some(i) => i,
        };
        if *signer_id != *current_account_id {
            if attached_deposit != 1 {
                return Err(OfferError::ProofOfIntentMissing);
            }
            if *signer_id != self.hash_map[i].offer.sender_id && *signer_id
                != self.hash_map[i].offer.receiver_id {
                return Err(OfferError::NotParticipant);
            }
        }
        let o = self.close_offer(i);
        Ok(self.settlement(&o, false))
    }
}

/// Every element of a sequence grown by one is an old element or the new one.
pub proof fn lemma_push_contains_all(s: Seq<AssetV>, v: AssetV)
    requires
        s.no_duplicates(),
        !s.contains(v),
    ensures
        s.push(v).no_duplicates(),
        forall|y: AssetV| #[trigger] s.push(v).contains(y) <==> (s.contains(y) || y == v),
{
    lemma_push_no_duplicates(s, v);
    assert forall|y: AssetV| #[trigger] s.push(v).contains(y) <==> (s.contains(y) || y == v) by {
        lemma_push_contains(s, v, y);
    }
}


/// A copy of a list of strings.
pub fn copy_strings(list: &Vec<String>) -> (r: Vec<String>)
    ensures
        strings_view(r@) == strings_view(list@),
{
    let mut out: Vec<String> = Vec::new();
    let mut i: usize = 0;
    while i < list.len()
        invariant
            i <= list@.len(),
            strings_view(out@) == strings_view(list@.take(i as int)),
        decreases list@.len() - i,
    {
        let d = list[i].clone();
        assert(list@.take(i + 1) =~= list@.take(i as int).push(list@[i as int]));
        assert(strings_view(out@.push(d)) =~= strings_view(out@).push(d@));
        assert(strings_view(list@.take(i + 1)) =~= strings_view(list@.take(i as int)).push(d@));
        out.push(d);
        i += 1;
    }
    assert(list@.take(i as int) =~= list@);
    out
}

impl Contract {
    /// The offer identifiers that `owner_id` takes part in.
    pub fn get_hashes_for_owner(&self, owner_id: &String) -> (r: Vec<String>)
        requires
            self.wf(),
        ensures
            strings_view(r@) == self.hashes_of(owner_id@),
    {
        match self.find_hash_entry(owner_id) {
            Some(i) => copy_strings(&self.hashes_per_owner[i].hashes),
            None => {
                let r: Vec<String> = Vec::new();
                assert(strings_view(r@) =~= Seq::<Seq<char>>::empty());
                r
            },
        }
    }

    /// The assets held in escrow on behalf of `owner_id`.
    pub fn get_tokens_for_owner(&self, owner_id: &String) -> (r: Vec<TokenData>)
        requires
            self.wf(),
        ensures
            assets_view(r@) == self.tokens_of(owner_id@),
    {
        match self.find_token_entry(owner_id) {
            Some(i) => copy_assets(&self.tokens_per_owner[i].tokens),
            None => {
                let r: Vec<TokenData> = Vec::new();
                assert(assets_view(r@) =~= Seq::<AssetV>::empty());
                r
            },
        }
    }

    /// The live offer with identifier `hash`, if there is one.
    pub fn get_transaction_data(&self, hash: &String) -> (r: Option<HashOffer>)
        requires
            self.wf(),
        ensures
            r is Some <==> self.offers().contains_key(hash@),
            r matches Some(o) ==> o@ == self.offers()[hash@],
    {
        match self.find_offer(hash) {
            Some(i) => Some(self.hash_map[i].offer.duplicate()),
            None => None,
        }
    }
}

/// No asset is held in escrow for two different accounts at once. Every
/// operation keeps the invariant, so this holds after any sequence of them.
pub proof fn lemma_no_double_escrow(c: &Contract, a: Seq<char>, b: Seq<char>, x: AssetV)
    requires
        c.wf(),
        a != b,
    ensures
        !(c.tokens_of(a).contains(x) && c.tokens_of(b).contains(x)),
{
}

/// Each live offer is listed exactly once under each of its two parties, and
/// an account's list names only live offers it takes part in.
pub proof fn lemma_offer_listed_once(c: &Contract, h: Seq<char>)
    requires
        c.wf(),
        c.offers().contains_key(h),
    ensures
        c.hashes_of(c.offers()[h].sender).contains(h),
        c.hashes_of(c.offers()[h].receiver).contains(h),
        c.hashes_of(c.offers()[h].sender).no_duplicates(),
        c.hashes_of(c.offers()[h].receiver).no_duplicates(),
        forall|a: Seq<char>, y: Seq<char>|
            #[trigger] c.hashes_of(a).contains(y) ==> c.offers().contains_key(y) && c.offers()[y].has_party(a),
{
}

/// In every live offer, each side's deposited assets are a duplicate-free
/// selection of its promised assets, and never more of them.
pub proof fn lemma_expectation_subset(c: &Contract, h: Seq<char>)
    requires
        c.wf(),
        c.offers().contains_key(h),
    ensures
        side_consistent(c.offers()[h].sender_expected, c.offers()[h].sender_actual),
        side_consistent(c.offers()[h].receiver_expected, c.offers()[h].receiver_actual),
        c.offers()[h].sender_actual.len() <= c.offers()[h].sender_expected.len(),
        c.offers()[h].receiver_actual.len() <= c.offers()[h].receiver_expected.len(),
{
}

/// Once an offer is gone from the store, neither a deposit (which is what
/// completes an offer) nor a cancellation can close it again: both are refused.
/// Completion and cancellation each remove the offer they close, so an offer
/// is closed exactly once, by one of the two.
pub proof fn lemma_teardown_once(c: &Contract, h: Seq<char>)
    requires
        c.wf(),
        !c.offers().contains_key(h),
    ensures
        forall|signer: Seq<char>, current: Seq<char>, attached: int|
            #[trigger] c.cancel_error(signer, current, attached, h) == Some(OfferError::OfferNotFound),
        forall|registry: Seq<char>, signer: Seq<char>, previous_owner: Seq<char>, token_id: Seq<char>|
            #[trigger] c.deposit_error(registry, signer, previous_owner, token_id, h) is Some,
{
}

/// The asset transfers of a cancellation are exactly the deposited assets,
/// each back to its depositor: no promised but undeposited asset appears.
pub proof fn lemma_refund_exact(o: OfferView)
    ensures
        refund_transfers(o).len() == o.sender_actual.len() + o.receiver_actual.len(),
        forall|k: int|
            0 <= k < o.sender_actual.len() ==> #[trigger] refund_transfers(o)[k] == (
                o.sender_actual[k],
                o.sender,
            ),
        forall|k: int|
            0 <= k < o.receiver_actual.len() ==> #[trigger] refund_transfers(o)[o.sender_actual.len()
                + k] == (o.receiver_actual[k], o.receiver),
        forall|x: AssetV, to: Seq<char>|
            #[trigger] refund_transfers(o).contains((x, to)) ==> (o.sender_actual.contains(x) && to
                == o.sender) || (o.receiver_actual.contains(x) && to == o.receiver),
{
    let t = refund_transfers(o);
    let n = o.sender_actual.len();
    assert forall|x: AssetV, to: Seq<char>| #[trigger] t.contains((x, to)) implies (o.sender_actual.contains(x)
        && to == o.sender) || (o.receiver_actual.contains(x) && to == o.receiver) by {
        let k = choose|k: int| 0 <= k < t.len() && t[k] == (x, to);
        if k < n {
            assert(o.sender_actual[k] == x);
        } else {
            assert(o.receiver_actual[k - n] == x);
        }
    }
}


/// The administrative account of a default deployment.
pub const DEFAULT_OWNER_ID: &'static str = "v1.havenswap.near";

/// The fee account of a default deployment.
pub const DEFAULT_FEE_WALLET: &'static str = "fee.havenswap.near";

/// The flat base fee of a default deployment: a tenth of a native unit.
pub const DEFAULT_REQUIRED_COST: u128 = 100_000_000_000_000_000_000_000;

impl Default for Contract {
    fn default() -> (r: Contract)
        ensures
            r.wf(),
            r.offers() == Map::<Seq<char>, OfferView>::empty(),
            forall|a: Seq<char>| #[trigger] r.hashes_of(a) == Seq::<Seq<char>>::empty(),
            forall|a: Seq<char>| #[trigger] r.tokens_of(a) == Seq::<AssetV>::empty(),
            r.owner_id@ == DEFAULT_OWNER_ID@,
            r.fee_wallet@ == DEFAULT_FEE_WALLET@,
            r.required_cost == DEFAULT_REQUIRED_COST,
    {
        Contract::new(DEFAULT_OWNER_ID.to_owned(), DEFAULT_FEE_WALLET.to_owned(), DEFAULT_REQUIRED_COST)
    }
}

} // verus!

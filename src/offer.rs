use vstd::prelude::*;

use crate::asset::{assets_view, copy_assets, lemma_assets_view_take, AssetV, TokenData};

verus! {

/// One live offer: what each side promised, what each side has deposited so
/// far, and the native amount the initiator hands over on completion.
#[derive(Clone, Debug)]
pub struct HashOffer {
    pub sender_id: String,
    pub sender_near: u128,
    pub sender_nfts: Vec<TokenData>,
    pub sent_nfts: Vec<TokenData>,
    pub receiver_id: String,
    pub receiver_nfts: Vec<TokenData>,
    pub received_nfts: Vec<TokenData>,
    pub timestamp: u64,
    pub is_monarch: bool,
}

/// The mathematical value of an offer.
pub struct OfferView {
    pub sender: Seq<char>,
    pub near: int,
    pub sender_expected: Seq<AssetV>,
    pub sender_actual: Seq<AssetV>,
    pub receiver: Seq<char>,
    pub receiver_expected: Seq<AssetV>,
    pub receiver_actual: Seq<AssetV>,
    pub timestamp: int,
    pub privileged: bool,
}

impl View for HashOffer {
    type V = OfferView;

    open spec fn view(&self) -> OfferView {
        OfferView {
            sender: self.sender_id@,
            near: self.sender_near as int,
            sender_expected: assets_view(self.sender_nfts@),
            sender_actual: assets_view(self.sent_nfts@),
            receiver: self.receiver_id@,
            receiver_expected: assets_view(self.receiver_nfts@),
            receiver_actual: assets_view(self.received_nfts@),
            timestamp: self.timestamp as int,
            privileged: self.is_monarch,
        }
    }
}

/// `actual` is a duplicate-free selection of `expected`, no longer than it.
pub open spec fn side_consistent(expected: Seq<AssetV>, actual: Seq<AssetV>) -> bool {
    &&& actual.no_duplicates()
    &&& forall|a: AssetV| actual.contains(a) ==> expected.contains(a)
    &&& actual.len() <= expected.len()
}

impl OfferView {
    /// The invariant of a live offer: distinct parties, and on each side the
    /// deposited assets are a selection of the promised ones.
    pub open spec fn consistent(self) -> bool {
        &&& self.sender != self.receiver
        &&& side_consistent(self.sender_expected, self.sender_actual)
        &&& side_consistent(self.receiver_expected, self.receiver_actual)
    }

    /// Whether `account` takes part in the offer.
    pub open spec fn has_party(self, account: Seq<char>) -> bool {
        account == self.sender || account == self.receiver
    }

    /// Both sides have deposited as many assets as they promised.
    pub open spec fn fully_funded(self) -> bool {
        &&& self.sender_actual.len() == self.sender_expected.len()
        &&& self.receiver_actual.len() == self.receiver_expected.len()
    }
}

impl HashOffer {
    /// A copy of this offer.
    pub fn duplicate(&self) -> (r: HashOffer)
        ensures
            r@ == self@,
    {
        HashOffer {
            sender_id: self.sender_id.clone(),
            sender_near: self.sender_near,
            sender_nfts: copy_assets(&self.sender_nfts),
            sent_nfts: copy_assets(&self.sent_nfts),
            receiver_id: self.receiver_id.clone(),
            receiver_nfts: copy_assets(&self.receiver_nfts),
            received_nfts: copy_assets(&self.received_nfts),
            timestamp: self.timestamp,
            is_monarch: self.is_monarch,
        }
    }
}

/// Why an operation was refused. A refused operation changes nothing.
#[derive(Clone, Copy, Debug, PartialEq, Eq)]
pub enum OfferError {
    /// The attached payment does not cover the amount and its fee.
    InsufficientDeposit,
    /// An offer with this identifier already exists.
    OfferExists,
    /// The initiator is not the signer of the transaction.
    InvalidSender,
    /// The counterparty is the signer of the transaction.
    ReceiverIsSigner,
    /// More than eight assets are promised in all.
    TooManyAssets,
    /// The privilege query failed or returned no readable answer.
    PrivilegeQueryFailed,
    /// The claimed privilege disagrees with the query's answer.
    InvalidHolderStatus,
    /// A notification that did not come from a registry on behalf of the signer.
    NotCrossContract,
    /// The previous owner of a deposited asset is not the signer.
    OwnerNotSigner,
    /// No live offer has this identifier.
    OfferNotFound,
    /// The signer takes no part in the offer.
    NotParticipant,
    /// The deposited asset is not among the depositor's promised assets.
    WrongAsset,
    /// The deposited asset was already recorded for this offer.
    AssetAlreadyRecorded,
    /// The deposited asset is already held in escrow.
    AssetAlreadyEscrowed,
    /// A cancellation without the single-unit proof of intent.
    ProofOfIntentMissing,
    /// The signer is not the administrative account.
    NotOwner,
}

/// An outgoing transfer of one asset to an account.
#[derive(Clone, Debug)]
pub struct NftTransfer {
    pub token: TokenData,
    pub receiver_id: String,
}

impl View for NftTransfer {
    type V = (AssetV, Seq<char>);

    open spec fn view(&self) -> (AssetV, Seq<char>) {
        (self.token@, self.receiver_id@)
    }
}

/// An outgoing transfer of a native amount to an account.
#[derive(Clone, Debug)]
pub struct NativeTransfer {
    pub receiver_id: String,
    pub amount: u128,
}

impl View for NativeTransfer {
    type V = (Seq<char>, int);

    open spec fn view(&self) -> (Seq<char>, int) {
        (self.receiver_id@, self.amount as int)
    }
}

/// The transfers that close an offer, to be dispatched after the state change.
#[derive(Clone, Debug)]
pub struct Settlement {
    pub nft_transfers: Vec<NftTransfer>,
    pub native_transfers: Vec<NativeTransfer>,
}

/// The views of a list of asset transfers.
pub open spec fn nft_transfers_view(s: Seq<NftTransfer>) -> Seq<(AssetV, Seq<char>)> {
    s.map_values(|t: NftTransfer| t@)
}

/// The views of a list of native transfers.
pub open spec fn native_transfers_view(s: Seq<NativeTransfer>) -> Seq<(Seq<char>, int)> {
    s.map_values(|t: NativeTransfer| t@)
}

/// Each asset of `assets`, in order, sent to `to`.
pub open spec fn send_all(assets: Seq<AssetV>, to: Seq<char>) -> Seq<(AssetV, Seq<char>)> {
    assets.map_values(|a: AssetV| (a, to))
}

/// Appends a transfer to `to` of each asset of `assets`, in order.
pub fn push_transfers(out: &mut Vec<NftTransfer>, assets: &Vec<TokenData>, to: &String)
    ensures
        nft_transfers_view(final(out)@) == nft_transfers_view(old(out)@) + send_all(
            assets_view(assets@),
            to@,
        ),
{
    let ghost start = nft_transfers_view(out@);
    let mut i: usize = 0;
    while i < assets.len()
        invariant
            i <= assets@.len(),
            nft_transfers_view(out@) == start + send_all(assets_view(assets@.take(i as int)), to@),
        decreases assets@.len() - i,
    {
        let tr = NftTransfer { token: assets[i].duplicate(), receiver_id: to.clone() };
        proof {
            lemma_assets_view_take(assets@, i as int);
            assert(nft_transfers_view(out@.push(tr)) =~= nft_transfers_view(out@).push(tr@));
            assert(send_all(assets_view(assets@.take(i + 1)), to@) =~= send_all(
                assets_view(assets@.take(i as int)),
                to@,
            ).push(tr@));
            assert(nft_transfers_view(out@.push(tr)) =~= start + send_all(
                assets_view(assets@.take(i + 1)),
                to@,
            ));
        }
        out.push(tr);
        i += 1;
    }
    assert(assets@.take(i as int) =~= assets@);
}

} // verus!

//! Escrow engine for two-party swaps of uniquely identified assets and a native
//! amount: offer creation, deposit tracking, completion and cancellation.
//!
//! The engine is a state machine over plain values. The caller runs it inside
//! its host: it supplies the signer, the attached payment and the answers of
//! outside queries, and dispatches the transfers that closing an offer returns.
use vstd::prelude::*;

pub mod asset;
pub mod contract;
pub mod fees;
pub mod filter;
pub mod frame;
pub mod index;
pub mod invariants;
pub mod lifecycle;
pub mod offer;

pub use asset::{TokenData, TokenMetadata};
pub use contract::{Contract, OfferEntry, OwnerHashes, OwnerTokens};
pub use fees::{offer_fee, payment_covers, required_payment, FEE_THRESHOLD};
pub use lifecycle::{
    DEFAULT_FEE_WALLET, DEFAULT_OWNER_ID, DEFAULT_REQUIRED_COST, MAX_ASSETS_PER_OFFER,
};
pub use offer::{HashOffer, NativeTransfer, NftTransfer, OfferError, Settlement};

verus! {

/// The identifier of an offer, chosen by its initiator.
pub type Hash = String;

/// The identifier of an item within a registry.
pub type TokenId = String;

/// The arguments that name an offer to a sale: its owner and its identifier.
#[derive(Clone, Debug)]
pub struct SaleArgs {
    pub owner: String,
    pub hash: String,
}

} // verus!

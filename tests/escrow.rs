use havenswap::{
    offer_fee, payment_covers, required_payment, Contract, OfferError, Settlement, TokenData,
    DEFAULT_REQUIRED_COST, FEE_THRESHOLD,
};

const BASE: u128 = 100_000_000_000_000_000_000_000;

fn s(x: &str) -> String {
    x.to_string()
}

fn tok(registry: &str, item: &str) -> TokenData {
    TokenData::new(s(registry), s(item))
}

fn pairs(list: &[TokenData]) -> Vec<(String, String)> {
    list.iter().map(|t| (t.contract_id.clone(), t.token_id.clone())).collect()
}

fn nft_moves(st: &Settlement) -> Vec<(String, String, String)> {
    st.nft_transfers
        .iter()
        .map(|t| (t.token.contract_id.clone(), t.token.token_id.clone(), t.receiver_id.clone()))
        .collect()
}

fn native_moves(st: &Settlement) -> Vec<(String, u128)> {
    st.native_transfers.iter().map(|t| (t.receiver_id.clone(), t.amount)).collect()
}

/// Creates offer `hash` from alice to bob, with the payment that it requires.
fn create(
    c: &mut Contract,
    hash: &str,
    near: u128,
    alice_gives: Vec<TokenData>,
    bob_gives: Vec<TokenData>,
) {
    let attached = required_payment(near, false, c.required_cost).unwrap();
    assert_eq!(
        c.send_offer(&s("alice"), attached, &s(hash), &s("alice"), near, &alice_gives, &s("bob"), &bob_gives, false),
        Ok(())
    );
    assert_eq!(
        c.callback_send_offer(s(hash), s("alice"), near, alice_gives, s("bob"), bob_gives, false, Some(0), 7),
        Ok(())
    );
}

fn deposit(c: &mut Contract, who: &str, registry: &str, item: &str, hash: &str) -> Result<Option<Settlement>, OfferError> {
    c.nft_on_transfer(&s(registry), &s(who), &s(who), &s(item), &s(hash))
}

#[test]
fn scenario_full_swap_completes_on_last_deposit() {
    let mut c = Contract::new(s("admin"), s("fees"), BASE);
    create(&mut c, "H1", 0, vec![tok("r1", "a1"), tok("r1", "a2")], vec![tok("r2", "b1")]);
    assert_eq!(c.get_hashes_for_owner(&s("alice")), vec![s("H1")]);
    assert_eq!(c.get_hashes_for_owner(&s("bob")), vec![s("H1")]);

    assert!(matches!(deposit(&mut c, "alice", "r1", "a1", "H1"), Ok(None)));
    assert!(matches!(deposit(&mut c, "alice", "r1", "a2", "H1"), Ok(None)));
    assert_eq!(pairs(&c.get_tokens_for_owner(&s("alice"))), vec![(s("r1"), s("a1")), (s("r1"), s("a2"))]);
    let live = c.get_transaction_data(&s("H1")).unwrap();
    assert_eq!(pairs(&live.sent_nfts), vec![(s("r1"), s("a1")), (s("r1"), s("a2"))]);
    assert!(live.received_nfts.is_empty());

    let done = deposit(&mut c, "bob", "r2", "b1", "H1").unwrap().unwrap();
    assert_eq!(
        nft_moves(&done),
        vec![
            (s("r1"), s("a1"), s("bob")),
            (s("r1"), s("a2"), s("bob")),
            (s("r2"), s("b1"), s("alice")),
        ]
    );
    assert_eq!(native_moves(&done), vec![(s("fees"), BASE)]);
    assert!(c.get_transaction_data(&s("H1")).is_none());
    assert!(c.get_tokens_for_owner(&s("alice")).is_empty());
    assert!(c.get_tokens_for_owner(&s("bob")).is_empty());
    assert!(c.get_hashes_for_owner(&s("alice")).is_empty());
    assert!(c.get_hashes_for_owner(&s("bob")).is_empty());
}

#[test]
fn scenario_below_threshold_requires_flat_fee() {
    let c = Contract::default();
    let near: u128 = 5_000_000_000_000_000_000_000_000;
    let need = near + DEFAULT_REQUIRED_COST;
    assert_eq!(required_payment(near, false, c.required_cost), Some(need));
    let gives = vec![tok("r1", "a1")];
    let wants = vec![tok("r2", "b1")];
    assert_eq!(
        c.send_offer(&s("alice"), need - 1, &s("H2"), &s("alice"), near, &gives, &s("bob"), &wants, false),
        Err(OfferError::InsufficientDeposit)
    );
    assert_eq!(
        c.send_offer(&s("alice"), need, &s("H2"), &s("alice"), near, &gives, &s("bob"), &wants, false),
        Ok(())
    );
}

#[test]
fn scenario_at_threshold_requires_percentage_fee() {
    let c = Contract::default();
    let near: u128 = 20_000_000_000_000_000_000_000_000;
    let need = near + near / 100;
    assert_eq!(need, 20_200_000_000_000_000_000_000_000);
    assert_eq!(required_payment(near, false, c.required_cost), Some(need));
    let gives = vec![tok("r1", "a1")];
    let wants = vec![];
    assert_eq!(
        c.send_offer(&s("alice"), near + DEFAULT_REQUIRED_COST, &s("H3"), &s("alice"), near, &gives, &s("bob"), &wants, false),
        Err(OfferError::InsufficientDeposit)
    );
    assert_eq!(
        c.send_offer(&s("alice"), need, &s("H3"), &s("alice"), near, &gives, &s("bob"), &wants, false),
        Ok(())
    );
}

#[test]
fn scenario_unexpected_asset_is_rejected_without_change() {
    let mut c = Contract::new(s("admin"), s("fees"), BASE);
    create(&mut c, "H4", 0, vec![tok("r1", "a1")], vec![tok("r2", "b1")]);
    assert_eq!(deposit(&mut c, "alice", "r9", "zz", "H4").err(), Some(OfferError::WrongAsset));
    assert_eq!(deposit(&mut c, "bob", "r1", "a1", "H4").err(), Some(OfferError::WrongAsset));
    assert!(c.get_tokens_for_owner(&s("alice")).is_empty());
    assert!(c.get_tokens_for_owner(&s("bob")).is_empty());
    let live = c.get_transaction_data(&s("H4")).unwrap();
    assert!(live.sent_nfts.is_empty());
    assert!(live.received_nfts.is_empty());
}

#[test]
fn scenario_cancel_returns_only_deposited_assets() {
    let mut c = Contract::new(s("admin"), s("fees"), BASE);
    let near: u128 = 1_000;
    create(&mut c, "H5", near, vec![tok("r1", "a1"), tok("r1", "a2")], vec![tok("r2", "b1")]);
    assert!(matches!(deposit(&mut c, "alice", "r1", "a1", "H5"), Ok(None)));
    let st = c.cancel_offer(&s("alice"), &s("engine"), 1, &s("H5")).unwrap();
    assert_eq!(nft_moves(&st), vec![(s("r1"), s("a1"), s("alice"))]);
    assert_eq!(native_moves(&st), vec![(s("fees"), BASE), (s("alice"), near)]);
    assert!(c.get_transaction_data(&s("H5")).is_none());
    assert!(c.get_tokens_for_owner(&s("alice")).is_empty());
    assert!(c.get_hashes_for_owner(&s("alice")).is_empty());
    assert!(c.get_hashes_for_owner(&s("bob")).is_empty());
}

#[test]
fn asset_in_escrow_cannot_be_escrowed_twice() {
    let mut c = Contract::new(s("admin"), s("fees"), BASE);
    create(&mut c, "H6", 0, vec![tok("r1", "a1")], vec![tok("r2", "b1")]);
    create(&mut c, "H7", 0, vec![tok("r1", "a1")], vec![tok("r2", "b2")]);
    assert!(matches!(deposit(&mut c, "alice", "r1", "a1", "H6"), Ok(None)));
    assert_eq!(deposit(&mut c, "alice", "r1", "a1", "H7").err(), Some(OfferError::AssetAlreadyEscrowed));
    assert_eq!(deposit(&mut c, "alice", "r1", "a1", "H6").err(), Some(OfferError::AssetAlreadyRecorded));
    assert_eq!(pairs(&c.get_tokens_for_owner(&s("alice"))), vec![(s("r1"), s("a1"))]);
}

#[test]
fn offer_is_closed_only_once() {
    let mut c = Contract::new(s("admin"), s("fees"), BASE);
    create(&mut c, "H8", 0, vec![tok("r1", "a1")], vec![]);
    assert!(c.cancel_offer(&s("bob"), &s("engine"), 1, &s("H8")).is_ok());
    assert_eq!(c.cancel_offer(&s("bob"), &s("engine"), 1, &s("H8")).err(), Some(OfferError::OfferNotFound));
    assert_eq!(deposit(&mut c, "alice", "r1", "a1", "H8").err(), Some(OfferError::OfferNotFound));

    create(&mut c, "H9", 0, vec![tok("r1", "a1")], vec![]);
    assert!(matches!(deposit(&mut c, "alice", "r1", "a1", "H9"), Ok(Some(_))));
    assert_eq!(c.cancel_offer(&s("alice"), &s("engine"), 1, &s("H9")).err(), Some(OfferError::OfferNotFound));
}

#[test]
fn fee_schedule_values() {
    assert_eq!(FEE_THRESHOLD, 10_000_000_000_000_000_000_000_000);
    assert_eq!(offer_fee(0, false, BASE), BASE);
    assert_eq!(offer_fee(FEE_THRESHOLD - 1, false, BASE), BASE);
    assert_eq!(offer_fee(FEE_THRESHOLD, false, BASE), FEE_THRESHOLD / 100);
    assert_eq!(offer_fee(FEE_THRESHOLD, true, BASE), BASE);
    assert_eq!(required_payment(FEE_THRESHOLD, true, BASE), Some(FEE_THRESHOLD + BASE));
    assert_eq!(required_payment(u128::MAX, false, BASE), None);
    assert!(payment_covers(FEE_THRESHOLD + FEE_THRESHOLD / 100, FEE_THRESHOLD, false, BASE));
    assert!(!payment_covers(FEE_THRESHOLD + FEE_THRESHOLD / 100 - 1, FEE_THRESHOLD, false, BASE));
    assert!(!payment_covers(u128::MAX, u128::MAX, false, BASE));
}

#[test]
fn completion_above_threshold_pays_percentage_fee() {
    let mut c = Contract::new(s("admin"), s("fees"), BASE);
    let near: u128 = 20_000_000_000_000_000_000_000_000;
    create(&mut c, "H10", near, vec![], vec![tok("r2", "b1")]);
    let done = deposit(&mut c, "bob", "r2", "b1", "H10").unwrap().unwrap();
    assert_eq!(nft_moves(&done), vec![(s("r2"), s("b1"), s("alice"))]);
    assert_eq!(native_moves(&done), vec![(s("fees"), near / 100), (s("bob"), near)]);
}

#[test]
fn privileged_offer_pays_flat_fee() {
    let mut c = Contract::new(s("admin"), s("fees"), BASE);
    let near: u128 = 20_000_000_000_000_000_000_000_000;
    let gives = vec![tok("r1", "a1")];
    assert_eq!(
        c.send_offer(&s("alice"), near + BASE, &s("P"), &s("alice"), near, &gives, &s("bob"), &vec![], true),
        Ok(())
    );
    assert_eq!(
        c.callback_send_offer(s("P"), s("alice"), near, gives, s("bob"), vec![], true, Some(1), 1),
        Ok(())
    );
    assert!(c.get_transaction_data(&s("P")).unwrap().is_monarch);
    let st = c.cancel_offer(&s("admin-engine"), &s("admin-engine"), 0, &s("P")).unwrap();
    assert!(st.nft_transfers.is_empty());
    assert_eq!(native_moves(&st), vec![(s("fees"), BASE), (s("alice"), near)]);
}

#[test]
fn creation_errors() {
    let mut c = Contract::new(s("admin"), s("fees"), BASE);
    create(&mut c, "X", 0, vec![], vec![tok("r2", "b1")]);
    let one = vec![tok("r1", "a1")];
    let nine: Vec<TokenData> = (0..9).map(|i| tok("r1", &format!("n{}", i))).collect();
    let empty: Vec<TokenData> = vec![];
    assert_eq!(
        c.send_offer(&s("alice"), BASE, &s("X"), &s("alice"), 0, &one, &s("bob"), &empty, false),
        Err(OfferError::OfferExists)
    );
    assert_eq!(
        c.send_offer(&s("mallory"), BASE, &s("Y"), &s("alice"), 0, &one, &s("bob"), &empty, false),
        Err(OfferError::InvalidSender)
    );
    assert_eq!(
        c.send_offer(&s("alice"), BASE, &s("Y"), &s("alice"), 0, &one, &s("alice"), &empty, false),
        Err(OfferError::ReceiverIsSigner)
    );
    assert_eq!(
        c.send_offer(&s("alice"), BASE, &s("Y"), &s("alice"), 0, &nine, &s("bob"), &empty, false),
        Err(OfferError::TooManyAssets)
    );
    assert_eq!(
        c.callback_send_offer(s("Y"), s("alice"), 0, one.clone(), s("bob"), vec![], false, None, 1),
        Err(OfferError::PrivilegeQueryFailed)
    );
    assert_eq!(
        c.callback_send_offer(s("Y"), s("alice"), 0, one.clone(), s("bob"), vec![], false, Some(3), 1),
        Err(OfferError::InvalidHolderStatus)
    );
    assert_eq!(
        c.callback_send_offer(s("X"), s("alice"), 0, one.clone(), s("bob"), vec![], false, Some(0), 1),
        Err(OfferError::OfferExists)
    );
    assert_eq!(
        c.callback_send_offer(s("Y"), s("alice"), 0, one, s("alice"), vec![], false, Some(0), 1),
        Err(OfferError::ReceiverIsSigner)
    );
    assert!(c.get_transaction_data(&s("Y")).is_none());
}

#[test]
fn notification_and_cancel_errors() {
    let mut c = Contract::new(s("admin"), s("fees"), BASE);
    create(&mut c, "Z", 0, vec![tok("r1", "a1")], vec![tok("r2", "b1")]);
    assert_eq!(
        c.nft_on_transfer(&s("alice"), &s("alice"), &s("alice"), &s("a1"), &s("Z")).err(),
        Some(OfferError::NotCrossContract)
    );
    assert_eq!(
        c.nft_on_transfer(&s("r1"), &s("alice"), &s("bob"), &s("a1"), &s("Z")).err(),
        Some(OfferError::OwnerNotSigner)
    );
    assert_eq!(deposit(&mut c, "alice", "r1", "a1", "nope").err(), Some(OfferError::OfferNotFound));
    assert_eq!(deposit(&mut c, "carol", "r1", "a1", "Z").err(), Some(OfferError::NotParticipant));
    assert_eq!(c.cancel_offer(&s("alice"), &s("engine"), 0, &s("Z")).err(), Some(OfferError::ProofOfIntentMissing));
    assert_eq!(c.cancel_offer(&s("carol"), &s("engine"), 1, &s("Z")).err(), Some(OfferError::NotParticipant));
    assert_eq!(c.cancel_offer(&s("alice"), &s("engine"), 1, &s("nope")).err(), Some(OfferError::OfferNotFound));
    assert!(c.get_transaction_data(&s("Z")).is_some());
}

#[test]
fn owner_checks() {
    let c = Contract::default();
    assert!(c.is_owner(&s("v1.havenswap.near")));
    assert!(!c.is_owner(&s("alice")));
    assert!(c.signer_is_owner(&s("v1.havenswap.near")));
    assert_eq!(c.assert_owner(&s("v1.havenswap.near")), Ok(()));
    assert_eq!(c.assert_owner(&s("alice")), Err(OfferError::NotOwner));
    assert_eq!(c.fee_wallet, s("fee.havenswap.near"));
    assert_eq!(c.required_cost, DEFAULT_REQUIRED_COST);
}

#[test]
fn closing_an_offer_keeps_the_order_of_the_other_entries() {
    let mut c = Contract::new(s("admin"), s("fees"), BASE);
    create(&mut c, "K1", 0, vec![tok("r1", "a1"), tok("r1", "a9")], vec![tok("r2", "b1")]);
    create(&mut c, "K2", 0, vec![tok("r1", "a2")], vec![tok("r2", "b2")]);
    create(&mut c, "K3", 0, vec![tok("r1", "a3")], vec![tok("r2", "b3")]);
    assert!(matches!(deposit(&mut c, "alice", "r1", "a1", "K1"), Ok(None)));
    assert!(matches!(deposit(&mut c, "alice", "r1", "a2", "K2"), Ok(None)));
    assert!(matches!(deposit(&mut c, "alice", "r1", "a3", "K3"), Ok(None)));
    assert!(c.cancel_offer(&s("bob"), &s("engine"), 1, &s("K2")).is_ok());
    assert_eq!(c.get_hashes_for_owner(&s("alice")), vec![s("K1"), s("K3")]);
    assert_eq!(c.get_hashes_for_owner(&s("bob")), vec![s("K1"), s("K3")]);
    assert_eq!(pairs(&c.get_tokens_for_owner(&s("alice"))), vec![(s("r1"), s("a1")), (s("r1"), s("a3"))]);
    let done = deposit(&mut c, "bob", "r2", "b3", "K3").unwrap().unwrap();
    assert_eq!(nft_moves(&done), vec![(s("r1"), s("a3"), s("bob")), (s("r2"), s("b3"), s("alice"))]);
    assert_eq!(c.get_hashes_for_owner(&s("alice")), vec![s("K1")]);
    assert_eq!(pairs(&c.get_tokens_for_owner(&s("alice"))), vec![(s("r1"), s("a1"))]);
    assert!(c.get_tokens_for_owner(&s("bob")).is_empty());
}

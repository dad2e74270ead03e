use vstd::prelude::*;

verus! {

/// Ten whole native units, in the smallest unit: at or above this amount an
/// unprivileged offer pays a percentage fee instead of the flat fee.
pub const FEE_THRESHOLD: u128 = 10_000_000_000_000_000_000_000_000;

/// The fee an offer of `amount` pays: the flat `base_fee`, or one percent of the
/// amount once it reaches the threshold and the initiator is not privileged.
pub open spec fn fee_spec(amount: int, privileged: bool, base_fee: int) -> int {
    if amount < FEE_THRESHOLD as int || privileged {
        base_fee
    } else {
        amount / 100
    }
}

/// What must be attached to create an offer: the native amount plus its fee.
pub open spec fn required_payment_spec(amount: int, privileged: bool, base_fee: int) -> int {
    amount + fee_spec(amount, privileged, base_fee)
}

/// The fee of an offer of `amount`.
pub fn offer_fee(amount: u128, privileged: bool, base_fee: u128) -> (r: u128)
    ensures
        r as int == fee_spec(amount as int, privileged, base_fee as int),
{
    if amount < FEE_THRESHOLD || privileged {
        base_fee
    } else {
        amount / 100
    }
}

/// The payment that creating an offer of `amount` requires, or `None` where it
/// does not fit in 128 bits (then no attached payment can cover it).
pub fn required_payment(amount: u128, privileged: bool, base_fee: u128) -> (r: Option<u128>)
    ensures
        r is Some <==> required_payment_spec(amount as int, privileged, base_fee as int)
            <= u128::MAX,
        r matches Some(p) ==> p as int == required_payment_spec(
            amount as int,
            privileged,
            base_fee as int,
        ),
{
    let fee = offer_fee(amount, privileged, base_fee);
    amount.checked_add(fee)
}

/// Whether an attached payment covers the creation of an offer of `amount`.
pub fn payment_covers(attached: u128, amount: u128, privileged: bool, base_fee: u128) -> (r: bool)
    ensures
        r == (attached as int >= required_payment_spec(amount as int, privileged, base_fee as int)),
{
    match required_payment(amount, privileged, base_fee) {
        Some(p) => attached >= p,
        None => false,
    }
}

/// Below the threshold the flat fee applies; at or above it, one percent unless
/// the initiator is privileged, in which case the flat fee applies again.
pub proof fn lemma_fee_schedule(amount: u128, privileged: bool, base_fee: u128)
    ensures
        amount < FEE_THRESHOLD ==> required_payment_spec(amount as int, privileged, base_fee as int)
            == amount + base_fee,
        amount >= FEE_THRESHOLD && !privileged ==> required_payment_spec(
            amount as int,
            privileged,
            base_fee as int,
        ) == amount + amount / 100,
        amount >= FEE_THRESHOLD && privileged ==> required_payment_spec(
            amount as int,
            privileged,
            base_fee as int,
        ) == amount + base_fee,
{
}

} // verus!

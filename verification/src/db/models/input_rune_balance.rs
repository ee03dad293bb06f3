//! Rune balances that a transaction brings in through its inputs.

use vstd::prelude::*;

verus! {

/// An amount of a rune that one input carries, and the address that held it
/// where it is known.
#[derive(Debug, PartialEq, Eq)]
pub struct InputRuneBalance {
    pub address: Option<String>,
    pub amount: u128,
}

/// The total amount of the balances.
pub open spec fn total_amount(inputs: Seq<InputRuneBalance>) -> nat
    decreases inputs.len(),
{
    if inputs.len() == 0 {
        0
    } else {
        total_amount(inputs.drop_last()) + inputs.last().amount as nat
    }
}

/// Adding a balance adds its amount to the total.
pub proof fn lemma_total_push(inputs: Seq<InputRuneBalance>, balance: InputRuneBalance)
    ensures
        total_amount(inputs.push(balance)) == total_amount(inputs) + balance.amount,
{
    assert(inputs.push(balance).drop_last() =~= inputs);
}

pub(crate) fn clone_address(address: &Option<String>) -> (r: Option<String>)
    ensures
        r == *address,
{
    match address {
        Some(text) => Some(text.clone()),
        None => None,
    }
}

} // verus!

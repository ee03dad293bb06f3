//! Reading the protocol message of a transaction.

use std::collections::HashMap;

use vstd::prelude::*;

use crate::chain::{
    address_from_script, hash_text, hash_to_string, is_op_return, is_op_return_script,
    outputs_view, script_address, Network, Transaction, TxIn, TxOut,
};
use crate::mempool::ledger::DecipheredTx;
use crate::runes::{decipher, deciphered};

verus! {

broadcast use vstd::std_specs::hash::group_hash_axioms;

/// Whether a map holds the scripts of the outputs that are no `OP_RETURN`, by the
/// index of the output.
pub open spec fn holds_eligible_outputs(scripts: Map<u32, Vec<u8>>, outputs: Seq<TxOut>) -> bool {
    &&& forall|i: u32|
        #![trigger scripts.contains_key(i)]
        scripts.contains_key(i) <==> i < outputs.len() && !is_op_return_script(
            outputs[i as int].script_pubkey@,
        )
    &&& forall|i: u32|
        #![trigger scripts[i]]
        scripts.contains_key(i) ==> scripts[i]@ == outputs[i as int].script_pubkey@
}

/// The scripts of the outputs that can receive runes, by the index of the output.
pub fn collect_eligible_outputs(outputs: &Vec<TxOut>) -> (r: HashMap<u32, Vec<u8>>)
    requires
        outputs@.len() <= u32::MAX,
    ensures
        holds_eligible_outputs(r@, outputs@),
{
    let mut scripts: HashMap<u32, Vec<u8>> = HashMap::new();
    let mut i: usize = 0;
    while i < outputs.len()
        invariant
            i <= outputs.len() <= u32::MAX,
            holds_eligible_outputs(scripts@, outputs@.take(i as int)),
        decreases outputs.len() - i,
    {
        let script = &outputs[i].script_pubkey;
        let ghost before = scripts@;
        if !is_op_return(script) {
            let copy = script.clone();
            assert(copy@ =~= script@);
            scripts.insert(i as u32, copy);
        }
        i += 1;
    }
    assert(outputs@.take(outputs.len() as int) =~= outputs@);
    scripts
}

/// Whether a map holds the address behind each script, where the script has one.
pub open spec fn holds_addresses(
    receivers: Map<u32, Option<String>>,
    scripts: Map<u32, Vec<u8>>,
    network: Network,
) -> bool {
    &&& receivers.dom() == scripts.dom()
    &&& forall|i: u32| #[trigger]
        receivers.contains_key(i) ==> match receivers[i] {
            Some(address) => script_address(scripts[i]@, network) == Some(address@),
            None => script_address(scripts[i]@, network) is None,
        }
}

/// The address behind each script, where the script has one.
pub fn decode_receivers(scripts: &HashMap<u32, Vec<u8>>, network: Network) -> (r: HashMap<
    u32,
    Option<String>,
>)
    ensures
        holds_addresses(r@, scripts@, network),
{
    let mut receivers: HashMap<u32, Option<String>> = HashMap::new();
    for key in it: scripts.keys()
        invariant
            it.seq().unref().to_set() == scripts@.dom(),
            forall|i: u32|
                receivers@.contains_key(i) <==> it.seq().unref().take(
                    it.index() as int,
                ).contains(i),
            forall|i: u32| #[trigger]
                receivers@.contains_key(i) ==> scripts@.contains_key(i) && match receivers@[i] {
                    Some(address) => script_address(scripts@[i]@, network) == Some(address@),
                    None => script_address(scripts@[i]@, network) is None,
                },
            it.index() == it.seq().len() ==> receivers@.dom() == scripts@.dom(),
    {
        let ghost keys = it.seq().unref();
        let ghost at = it.index() as int;
        assert(keys[at] == *key);
        assert(keys.to_set().contains(*key));
        match scripts.get(key) {
            Some(script) => {
                receivers.insert(*key, address_from_script(script, network));
            },
            None => {
                // Every key has a script.
                assert(false);
            },
        }
        proof {
            assert(keys.take(at + 1) =~= keys.take(at).push(*key));
            assert forall|i: u32|
                receivers@.contains_key(i) <==> keys.take(at + 1).contains(i) by {
                if keys.take(at).contains(i) {
                    let k = choose|k: int| 0 <= k < at && keys.take(at)[k] == i;
                    assert(keys.take(at + 1)[k] == i);
                }
                if i == *key {
                    assert(keys.take(at + 1)[at] == i);
                }
            }
            assert(at + 1 == keys.len() ==> keys.take(at + 1) =~= keys);
            assert forall|i: u32| at + 1 == keys.len() implies (receivers@.dom().contains(i)
                <==> scripts@.dom().contains(i)) by {
                assert(keys.contains(i) <==> keys.to_set().contains(i));
            }
            assert(at + 1 == keys.len() ==> receivers@.dom() =~= scripts@.dom());
        }
    }
    receivers
}

/// Whether a map holds the address behind each output that is no `OP_RETURN`, by
/// the index of the output.
pub open spec fn holds_receivers(
    receivers: Map<u32, Option<String>>,
    outputs: Seq<TxOut>,
    network: Network,
) -> bool {
    &&& forall|i: u32|
        #![trigger receivers.contains_key(i)]
        receivers.contains_key(i) <==> i < outputs.len() && !is_op_return_script(
            outputs[i as int].script_pubkey@,
        )
    &&& forall|i: u32| #[trigger]
        receivers.contains_key(i) ==> match receivers[i] {
            Some(address) => script_address(outputs[i as int].script_pubkey@, network) == Some(
                address@,
            ),
            None => script_address(outputs[i as int].script_pubkey@, network) is None,
        }
}

/// What the ledger needs of a transaction, apart from what its inputs bring in,
/// and nothing where the transaction has no protocol message.
pub fn decipher_mempool_tx(tx: &Transaction, network: Network) -> (r: Option<DecipheredTx>)
    requires
        tx.outputs@.len() <= u32::MAX,
    ensures
        match r {
            Some(message) => {
                &&& deciphered(outputs_view(tx.outputs@)) == Some(message.artifact@)
                &&& holds_receivers(message.receivers@, tx.outputs@, network)
                &&& message.total_outputs == tx.outputs@.len()
            },
            None => deciphered(outputs_view(tx.outputs@)) is None,
        },
{
    match decipher(&tx.outputs) {
        None => None,
        Some(artifact) => {
            let scripts = collect_eligible_outputs(&tx.outputs);
            let receivers = decode_receivers(&scripts, network);
            proof {
                assert forall|i: u32|
                    #![trigger receivers@.contains_key(i)]
                    receivers@.contains_key(i) == scripts@.contains_key(i) by {
                    assert(receivers@.dom().contains(i) == scripts@.dom().contains(i));
                }
            }
            Some(DecipheredTx { artifact, receivers, total_outputs: tx.outputs.len() as u32 })
        },
    }
}

/// An output that an input spends: the index of the input, the notation of the
/// hash of the transaction that has the output, and the index of the output there.
#[derive(Debug, PartialEq, Eq)]
pub struct SpentOutput {
    pub input_index: u32,
    pub tx_id: String,
    pub output: u32,
}

/// Whether the list holds the outputs that the inputs spend, in order.
pub open spec fn spends(spent: Seq<SpentOutput>, inputs: Seq<TxIn>) -> bool {
    &&& spent.len() == inputs.len()
    &&& forall|i: int|
        0 <= i < spent.len() ==> {
            &&& (#[trigger] spent[i]).input_index == i as u32
            &&& spent[i].tx_id@ == hash_text(inputs[i].txid@)
            &&& spent[i].output == inputs[i].vout
        }
}

/// The outputs that the inputs of a transaction spend.
pub fn spent_outputs(inputs: &Vec<TxIn>) -> (r: Vec<SpentOutput>)
    ensures
        spends(r@, inputs@),
{
    let mut spent: Vec<SpentOutput> = Vec::new();
    let mut i: usize = 0;
    while i < inputs.len()
        invariant
            i <= inputs.len(),
            spends(spent@, inputs@.take(i as int)),
        decreases inputs.len() - i,
    {
        let tx_id = hash_to_string(&inputs[i].txid);
        spent.push(
            SpentOutput {
                input_index: #[verifier::truncate] (i as u32),
                tx_id,
                output: inputs[i].vout,
            },
        );
        i += 1;
    }
    assert(inputs@.take(inputs.len() as int) =~= inputs@);
    spent
}

} // verus!

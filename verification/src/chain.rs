//! Bitcoin transactions, as far as the ledger reads them.

use bitcoin::absolute::LockTime;
use bitcoin::hashes::Hash as ByteHash;
use bitcoin::transaction::Version;
use bitcoin::{Amount, ScriptBuf, Sequence, Txid, Witness};
use vstd::prelude::*;

verus! {

/// The network that addresses are written for.
#[derive(Debug, Clone, Copy, PartialEq, Eq, Structural)]
pub enum Network {
    Bitcoin,
    Testnet,
    Testnet4,
    Signet,
    Regtest,
}

/// An input of a transaction: the output that it spends, by the hash of its
/// transaction and its index there, its script and its sequence number.
#[derive(Debug, PartialEq, Eq)]
pub struct TxIn {
    pub txid: [u8; 32],
    pub vout: u32,
    pub script_sig: Vec<u8>,
    pub sequence: u32,
}

/// An output of a transaction: its value in satoshis and its script.
#[derive(Debug, PartialEq, Eq)]
pub struct TxOut {
    pub value: u64,
    pub script_pubkey: Vec<u8>,
}

/// A transaction without its witnesses.
#[derive(Debug, PartialEq, Eq)]
pub struct Transaction {
    pub version: i32,
    pub lock_time: u32,
    pub inputs: Vec<TxIn>,
    pub outputs: Vec<TxOut>,
}

/// The model of [`TxIn`].
pub struct TxInView {
    pub txid: Seq<u8>,
    pub vout: u32,
    pub script_sig: Seq<u8>,
    pub sequence: u32,
}

/// The model of [`TxOut`].
pub struct TxOutView {
    pub value: u64,
    pub script_pubkey: Seq<u8>,
}

/// The model of [`Transaction`].
pub struct TransactionView {
    pub version: i32,
    pub lock_time: u32,
    pub inputs: Seq<TxInView>,
    pub outputs: Seq<TxOutView>,
}

impl View for TxIn {
    type V = TxInView;

    open spec fn view(&self) -> TxInView {
        TxInView {
            txid: self.txid@,
            vout: self.vout,
            script_sig: self.script_sig@,
            sequence: self.sequence,
        }
    }
}

impl View for TxOut {
    type V = TxOutView;

    open spec fn view(&self) -> TxOutView {
        TxOutView { value: self.value, script_pubkey: self.script_pubkey@ }
    }
}

/// The models of the outputs.
pub open spec fn outputs_view(outputs: Seq<TxOut>) -> Seq<TxOutView> {
    outputs.map_values(|output: TxOut| output@)
}

impl View for Transaction {
    type V = TransactionView;

    open spec fn view(&self) -> TransactionView {
        TransactionView {
            version: self.version,
            lock_time: self.lock_time,
            inputs: self.inputs@.map_values(|input: TxIn| input@),
            outputs: outputs_view(self.outputs@),
        }
    }
}

/// The transaction that bytes in consensus encoding hold, where they hold
/// exactly one.
pub uninterp spec fn deserialized_transaction(data: Seq<u8>) -> Option<TransactionView>;

/// The hash that identifies a transaction.
pub uninterp spec fn transaction_hash(tx: TransactionView) -> Seq<u8>;

/// The address that an output script pays to on a network, where it has one.
pub uninterp spec fn script_address(script: Seq<u8>, network: Network) -> Option<Seq<char>>;

/// Calls `bitcoin::consensus::deserialize` for a transaction. What it returns is
/// named by [`deserialized_transaction`].
#[verifier::external_body]
pub(crate) fn deserialize(data: &[u8]) -> (r: Option<Transaction>)
    ensures
        match r {
            Some(tx) => deserialized_transaction(data@) == Some(tx@),
            None => deserialized_transaction(data@) is None,
        },
{
    let tx = bitcoin::consensus::deserialize::<bitcoin::Transaction>(data).ok()?;
    let input = |i: bitcoin::TxIn| TxIn {
        txid: i.previous_output.txid.to_byte_array(),
        vout: i.previous_output.vout,
        script_sig: i.script_sig.into_bytes(),
        sequence: i.sequence.0,
    };
    let output = |o: bitcoin::TxOut| TxOut {
        value: o.value.to_sat(),
        script_pubkey: o.script_pubkey.into_bytes(),
    };
    let (version, lock_time) = (tx.version.0, tx.lock_time.to_consensus_u32());
    let inputs = tx.input.into_iter().map(input).collect();
    let outputs = tx.output.into_iter().map(output).collect();
    Some(Transaction { version, lock_time, inputs, outputs })
}

/// Calls `Transaction::compute_txid`, which reads everything but the witnesses.
/// What it returns is named by [`transaction_hash`].
#[verifier::external_body]
pub(crate) fn compute_txid(tx: &Transaction) -> (r: [u8; 32])
    ensures
        r@ == transaction_hash(tx@),
{
    let input = |i: &TxIn| bitcoin::TxIn {
        previous_output: bitcoin::OutPoint::new(Txid::from_byte_array(i.txid), i.vout),
        script_sig: ScriptBuf::from_bytes(i.script_sig.clone()),
        sequence: Sequence(i.sequence),
        witness: Witness::new(),
    };
    let output = |o: &TxOut| bitcoin::TxOut {
        value: Amount::from_sat(o.value),
        script_pubkey: ScriptBuf::from_bytes(o.script_pubkey.clone()),
    };
    let (version, lock_time) = (Version(tx.version), LockTime::from_consensus(tx.lock_time));
    let input = tx.inputs.iter().map(input).collect();
    let output = tx.outputs.iter().map(output).collect();
    bitcoin::Transaction { version, lock_time, input, output }.compute_txid().to_byte_array()
}

/// The lower case hexadecimal digit for a value below sixteen.
pub open spec fn hex_digit(n: nat) -> char {
    if n < 10 {
        (48 + n) as char
    } else {
        (87 + n) as char
    }
}

/// The notation of a transaction hash: its bytes in hexadecimal, the last byte
/// first.
pub open spec fn hash_text(hash: Seq<u8>) -> Seq<char> {
    Seq::new(
        2 * hash.len(),
        |i: int|
            {
                let byte = hash[hash.len() - 1 - i / 2];
                hex_digit(
                    if i % 2 == 0 {
                        byte as nat / 16
                    } else {
                        byte as nat % 16
                    },
                )
            },
    )
}

/// Calls `Txid::to_string`: the bytes in lower case hexadecimal, the last byte
/// first.
#[verifier::external_body]
pub(crate) fn hash_to_string(hash: &[u8; 32]) -> (r: String)
    ensures
        r@ == hash_text(hash@),
{
    Txid::from_byte_array(*hash).to_string()
}

/// Whether a script begins with `OP_RETURN`.
pub open spec fn is_op_return_script(script: Seq<u8>) -> bool {
    script.len() > 0 && script[0] == 0x6a
}

/// Calls `Script::is_op_return`: whether the first byte is that of `OP_RETURN`.
#[verifier::external_body]
pub(crate) fn is_op_return(script: &Vec<u8>) -> (r: bool)
    ensures
        r == is_op_return_script(script@),
{
    bitcoin::Script::from_bytes(script).is_op_return()
}

/// Calls `Address::from_script` and writes the address out. What comes back is
/// named by [`script_address`].
#[verifier::external_body]
pub(crate) fn address_from_script(script: &Vec<u8>, network: Network) -> (r: Option<String>)
    ensures
        match r {
            Some(address) => script_address(script@, network) == Some(address@),
            None => script_address(script@, network) is None,
        },
{
    let network = match network {
        Network::Bitcoin => bitcoin::Network::Bitcoin,
        Network::Testnet => bitcoin::Network::Testnet,
        Network::Testnet4 => bitcoin::Network::Testnet4,
        Network::Signet => bitcoin::Network::Signet,
        Network::Regtest => bitcoin::Network::Regtest,
    };
    let address = bitcoin::Address::from_script(bitcoin::Script::from_bytes(script), network);
    address.ok().map(|address| address.to_string())
}

} // verus!

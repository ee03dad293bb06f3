//! The parts of the runes protocol that the ledger is built from.

use std::str::FromStr;

use bitcoin::absolute::LockTime;
use bitcoin::transaction::Version;
use bitcoin::{Amount, Transaction as BtcTransaction, TxOut as BtcTxOut};
use ordinals::{Artifact as OrdArtifact, RuneId as OrdRuneId, Runestone as OrdRunestone};
use vstd::prelude::*;

use crate::chain::{outputs_view, TxOut, TxOutView};
use crate::decimal::{decimal, decimal_has_its_value, decimal_reads_back, is_digit, parsed};

verus! {

/// The block height and transaction index at which a rune was etched.
#[derive(Debug, Clone, Copy, PartialEq, Eq, Structural)]
pub struct RuneId {
    pub block: u64,
    pub tx: u32,
}

/// An instruction to move an amount of a rune to a transaction output.
#[derive(Debug, Clone, Copy, PartialEq, Eq, Structural)]
pub struct Edict {
    pub id: RuneId,
    pub amount: u128,
    pub output: u32,
}

impl Edict {
    /// An edict on the rune with the given block height and transaction index.
    pub fn new(block: u64, tx: u32, amount: u128, output: u32) -> (r: Edict)
        ensures
            r == (Edict { id: RuneId { block, tx }, amount, output }),
    {
        Edict { id: RuneId { block, tx }, amount, output }
    }
}

/// The protocol message of a transaction.
#[derive(Debug, PartialEq, Eq)]
pub enum Artifact {
    /// A malformed message, and the rune that it etches if it does.
    Cenotaph { etching: Option<u128> },
    /// A well-formed message: its edicts, and the output that receives what they
    /// leave.
    Runestone { edicts: Vec<Edict>, pointer: Option<u32> },
}

/// The model of [`Artifact`].
pub enum ArtifactView {
    Cenotaph { etching: Option<u128> },
    Runestone { edicts: Seq<Edict>, pointer: Option<u32> },
}

impl View for Artifact {
    type V = ArtifactView;

    open spec fn view(&self) -> ArtifactView {
        match self {
            Artifact::Cenotaph { etching } => ArtifactView::Cenotaph { etching: *etching },
            Artifact::Runestone { edicts, pointer } => ArtifactView::Runestone {
                edicts: edicts@,
                pointer: *pointer,
            },
        }
    }
}

/// The protocol message that the outputs of a transaction hold, where they hold
/// one.
pub uninterp spec fn deciphered(outputs: Seq<TxOutView>) -> Option<ArtifactView>;

/// Calls `Runestone::decipher`, which reads nothing of a transaction but its
/// outputs. What it returns is named by [`deciphered`].
#[verifier::external_body]
pub(crate) fn decipher(outputs: &Vec<TxOut>) -> (r: Option<Artifact>)
    requires
        outputs@.len() <= u32::MAX,
    ensures
        match r {
            Some(artifact) => deciphered(outputs_view(outputs@)) == Some(artifact@),
            None => deciphered(outputs_view(outputs@)) is None,
        },
{
    let txout = |o: &TxOut| BtcTxOut {
        value: Amount::from_sat(o.value),
        script_pubkey: o.script_pubkey.clone().into(),
    };
    let (version, lock_time, input) = (Version::TWO, LockTime::ZERO, vec![]);
    let output = outputs.iter().map(txout).collect();
    Some(match OrdRunestone::decipher(&BtcTransaction { version, lock_time, input, output })? {
        OrdArtifact::Cenotaph(c) => Artifact::Cenotaph { etching: c.etching.map(|r| r.0) },
        OrdArtifact::Runestone(r) => Artifact::Runestone {
            edicts: r.edicts.iter().map(
                |e| Edict::new(e.id.block, e.id.tx, e.amount, e.output),
            ).collect(),
            pointer: r.pointer,
        },
    })
}

/// The notation of a rune id: block and transaction index in decimal, with a
/// colon between them.
pub open spec fn rune_id_text(id: RuneId) -> Seq<char> {
    decimal(id.block as nat) + seq![':'] + decimal(id.tx as nat)
}

/// The position of the first colon, and the length of the text where there is
/// none.
pub open spec fn colon(text: Seq<char>) -> int
    decreases text.len(),
{
    if text.len() == 0 {
        0
    } else if text[0] == ':' {
        0
    } else {
        1 + colon(text.skip(1))
    }
}

/// The rune id that a text denotes: a number below 2^64, a colon, and a number
/// below 2^32.
pub open spec fn rune_id_value(text: Seq<char>) -> Option<RuneId> {
    let at = colon(text);
    if at < text.len() {
        match (parsed(text.take(at), u64::MAX as nat), parsed(text.skip(at + 1), u32::MAX as nat)) {
            (Some(block), Some(tx)) => Some(RuneId { block: block as u64, tx: tx as u32 }),
            _ => None,
        }
    } else {
        None
    }
}

proof fn lemma_colon_after_digits(digits: Seq<char>, rest: Seq<char>)
    requires
        forall|i: int| 0 <= i < digits.len() ==> is_digit(#[trigger] digits[i]),
    ensures
        colon(digits + seq![':'] + rest) == digits.len(),
    decreases digits.len(),
{
    let text = digits + seq![':'] + rest;
    if digits.len() > 0 {
        assert(is_digit(digits[0]));
        assert(text[0] == digits[0]);
        assert forall|i: int| 0 <= i < digits.skip(1).len() implies is_digit(
            #[trigger] digits.skip(1)[i],
        ) by {
            assert(is_digit(digits[i + 1]));
        }
        lemma_colon_after_digits(digits.skip(1), rest);
        assert(text.skip(1) =~= digits.skip(1) + seq![':'] + rest);
    } else {
        assert(text[0] == ':');
    }
}

impl RuneId {
    /// The notation of the id.
    pub fn to_text(&self) -> (r: String)
        ensures
            r@ == rune_id_text(*self),
    {
        rune_id_to_string(self)
    }

    /// The id that a text denotes, where it denotes one.
    pub fn from_text(text: &str) -> (r: Option<RuneId>)
        ensures
            r == rune_id_value(text@),
    {
        rune_id_from_str(text)
    }
}

/// The notation of a rune id denotes that rune id.
pub proof fn rune_id_reads_back(id: RuneId)
    ensures
        rune_id_value(rune_id_text(id)) == Some(id),
{
    let block = decimal(id.block as nat);
    let tx = decimal(id.tx as nat);
    let text = rune_id_text(id);
    decimal_has_its_value(id.block as nat);
    lemma_colon_after_digits(block, tx);
    decimal_reads_back(id.block as nat, u64::MAX as nat);
    decimal_reads_back(id.tx as nat, u32::MAX as nat);
    assert(text.take(block.len() as int) =~= block);
    assert(text.skip(block.len() as int + 1) =~= tx);
}

/// Calls `ordinals::RuneId::to_string`: block and transaction index in decimal,
/// with a colon between them.
#[verifier::external_body]
fn rune_id_to_string(id: &RuneId) -> (r: String)
    ensures
        r@ == rune_id_text(*id),
{
    OrdRuneId { block: id.block, tx: id.tx }.to_string()
}

/// Calls `ordinals::RuneId::from_str`: the parts before and after the first
/// colon, read as numbers below 2^64 and below 2^32.
#[verifier::external_body]
fn rune_id_from_str(text: &str) -> (r: Option<RuneId>)
    ensures
        r == rune_id_value(text@),
{
    OrdRuneId::from_str(text).ok().map(|id| RuneId { block: id.block, tx: id.tx })
}

} // verus!

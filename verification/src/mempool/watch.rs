//! Watching transactions enter and leave the mempool.

use vstd::prelude::*;

use crate::chain::{
    compute_txid, deserialize, deserialized_transaction, hash_text, hash_to_string,
    transaction_hash, Transaction,
};
use crate::mempool::ledger_entry::DBMempoolLedgerEntry;

verus! {

/// A transaction and the notation of its hash.
#[derive(Debug, PartialEq, Eq)]
pub struct WatchedTx {
    pub tx: Transaction,
    pub tx_id: String,
}

impl WatchedTx {
    /// A transaction, with the notation of its hash.
    pub fn new(tx: Transaction) -> (r: Self)
        ensures
            r.tx == tx,
            r.wf(),
    {
        let hash = compute_txid(&tx);
        let tx_id = txid_to_string(&hash);
        WatchedTx { tx, tx_id }
    }

    /// Whether the notation is that of the hash of the transaction.
    pub open spec fn wf(&self) -> bool {
        self.tx_id@ == hash_text(transaction_hash(self.tx@))
    }
}

/// The notation of a transaction hash.
pub fn txid_to_string(hash: &[u8; 32]) -> (r: String)
    ensures
        r@ == hash_text(hash@),
{
    hash_to_string(hash)
}

/// How putting a transaction into the cache went.
#[derive(Debug, Clone, Copy, PartialEq, Eq, Structural)]
pub enum CacheWrite {
    /// It was new.
    Inserted,
    /// It was in the cache before.
    Known,
    /// The cache could not be written.
    Poisoned,
}

/// Whether a transaction is to be processed: unless it was in the cache before.
pub fn is_to_be_processed(write: CacheWrite) -> (r: bool)
    ensures
        r == (write != CacheWrite::Known),
{
    match write {
        CacheWrite::Inserted => true,
        CacheWrite::Known => false,
        CacheWrite::Poisoned => true,
    }
}

/// What the watch on the node waits for.
#[derive(Debug, PartialEq, Eq)]
pub enum WatchState {
    /// The next message.
    Receiving,
    /// A transaction to be put into the cache.
    Claiming(WatchedTx),
    /// A database transaction, for a transaction that is new.
    Opening(WatchedTx),
    /// The entries of a transaction.
    Parsing,
    /// The entries to be inserted.
    Inserting,
    /// The database transaction to be committed.
    Committing,
}

/// What happened to the watch on the node.
#[derive(Debug, PartialEq, Eq)]
pub enum WatchEvent {
    /// A message came, part by part: a topic, a transaction and a sequence number.
    Message(Vec<Vec<u8>>),
    /// A message could not be received.
    Broken,
    /// The transaction was put into the cache.
    Cached(CacheWrite),
    /// The transaction has these entries.
    Parsed(Vec<DBMempoolLedgerEntry>),
    /// The database did what it was asked.
    Done,
    /// The database refused.
    Refused,
}

/// What the watch on the node does next.
#[derive(Debug, PartialEq, Eq)]
pub enum WatchAction {
    /// Wait for the next message.
    Receive,
    /// Connect anew, and wait for the next message.
    Reconnect,
    /// Put a transaction id into the cache.
    Claim(String),
    /// Open a database transaction.
    Open,
    /// Find the entries of a transaction.
    Parse(WatchedTx),
    /// Insert entries.
    Insert(Vec<DBMempoolLedgerEntry>),
    /// Commit the database transaction.
    Commit,
    /// Give up with a message.
    Abort(&'static str),
}

/// Whether an event answers what the watch waits for.
pub open spec fn watch_awaits(state: WatchState, event: WatchEvent) -> bool {
    match state {
        WatchState::Receiving => match event {
            WatchEvent::Message(parts) => parts@.len() >= 3,
            WatchEvent::Broken => true,
            _ => false,
        },
        WatchState::Claiming(_) => event is Cached,
        WatchState::Opening(_) => event is Done || event is Refused,
        WatchState::Parsing => event is Parsed,
        WatchState::Inserting => event is Done,
        WatchState::Committing => event is Done || event is Refused,
    }
}

/// What follows an event. A message with a transaction that is not in the cache
/// leads to a database transaction in which the entries are inserted; a message
/// without a transaction, or with a known one, is passed over.
pub open spec fn watch_follows(
    state: WatchState,
    event: WatchEvent,
    next: WatchState,
    action: WatchAction,
) -> bool {
    match (state, event) {
        (WatchState::Receiving, WatchEvent::Message(parts)) => match deserialized_transaction(
            parts@[1]@,
        ) {
            Some(tx) => {
                &&& next matches WatchState::Claiming(watched)
                &&& watched.tx@ == tx
                &&& watched.wf()
                &&& action == WatchAction::Claim(watched.tx_id)
            },
            None => next == WatchState::Receiving && action == WatchAction::Receive,
        },
        (WatchState::Receiving, _) => next == WatchState::Receiving && action
            == WatchAction::Reconnect,
        (WatchState::Claiming(watched), WatchEvent::Cached(write)) => if write
            == CacheWrite::Known {
            next == WatchState::Receiving && action == WatchAction::Receive
        } else {
            next == WatchState::Opening(watched) && action == WatchAction::Open
        },
        (WatchState::Opening(watched), WatchEvent::Done) => next == WatchState::Parsing && action
            == WatchAction::Parse(watched),
        (WatchState::Opening(_), _) => {
            &&& next == WatchState::Receiving
            &&& action matches WatchAction::Abort(message)
            &&& message@ == "Unable to begin bitcoin tx processing pg transaction"@
        },
        (WatchState::Parsing, WatchEvent::Parsed(entries)) => next == WatchState::Inserting
            && action == WatchAction::Insert(entries),
        (WatchState::Inserting, _) => next == WatchState::Committing && action
            == WatchAction::Commit,
        (WatchState::Committing, WatchEvent::Done) => next == WatchState::Receiving && action
            == WatchAction::Receive,
        (WatchState::Committing, _) => {
            &&& next == WatchState::Receiving
            &&& action matches WatchAction::Abort(message)
            &&& message@ == "Unable to commit pg transaction"@
        },
        _ => false,
    }
}

/// Takes what a message held: a transaction is to be put into the cache, and a
/// message without one is passed over.
pub fn claim(decoded: Option<Transaction>) -> (r: (WatchState, WatchAction))
    ensures
        match decoded {
            Some(tx) => {
                &&& r.0 matches WatchState::Claiming(watched)
                &&& watched.tx == tx
                &&& watched.wf()
                &&& r.1 == WatchAction::Claim(watched.tx_id)
            },
            None => r == (WatchState::Receiving, WatchAction::Receive),
        },
{
    match decoded {
        Some(tx) => {
            let watched = WatchedTx::new(tx);
            let tx_id = watched.tx_id.clone();
            (WatchState::Claiming(watched), WatchAction::Claim(tx_id))
        },
        None => (WatchState::Receiving, WatchAction::Receive),
    }
}

/// Takes what happened to the watch on the node, and tells what to wait for and
/// what to do next.
pub fn start_zeromq_runloop(state: WatchState, event: WatchEvent) -> (r: (WatchState, WatchAction))
    requires
        watch_awaits(state, event),
    ensures
        watch_follows(state, event, r.0, r.1),
{
    match (state, event) {
        (WatchState::Receiving, WatchEvent::Message(parts)) => claim(
            deserialize(parts[1].as_slice()),
        ),
        (WatchState::Receiving, _) => (WatchState::Receiving, WatchAction::Reconnect),
        (WatchState::Claiming(watched), WatchEvent::Cached(write)) => {
            if is_to_be_processed(write) {
                (WatchState::Opening(watched), WatchAction::Open)
            } else {
                (WatchState::Receiving, WatchAction::Receive)
            }
        },
        (WatchState::Opening(watched), WatchEvent::Done) => (
            WatchState::Parsing,
            WatchAction::Parse(watched),
        ),
        (WatchState::Opening(_), _) => (
            WatchState::Receiving,
            WatchAction::Abort("Unable to begin bitcoin tx processing pg transaction"),
        ),
        (WatchState::Parsing, WatchEvent::Parsed(entries)) => (
            WatchState::Inserting,
            WatchAction::Insert(entries),
        ),
        (WatchState::Inserting, _) => (WatchState::Committing, WatchAction::Commit),
        (WatchState::Committing, WatchEvent::Done) => (
            WatchState::Receiving,
            WatchAction::Receive,
        ),
        _ => (WatchState::Receiving, WatchAction::Abort("Unable to commit pg transaction")),
    }
}

/// How taking a transaction out of the cache went.
#[derive(Debug, Clone, Copy, PartialEq, Eq, Structural)]
pub enum CacheRemoval {
    /// It was in the cache.
    Removed,
    /// It was not.
    Unknown,
    /// The cache could not be written.
    Poisoned,
}

/// What the watch on transactions that leave the mempool waits for.
#[derive(Debug, PartialEq, Eq)]
pub enum EscapeState {
    /// The next transaction.
    Receiving,
    /// A transaction to be taken out of the cache.
    Releasing(String),
    /// A database transaction.
    Opening(String),
    /// The entries to be deleted.
    Deleting,
    /// The database transaction to be committed.
    Committing,
}

/// What happened to the watch on transactions that leave the mempool.
#[derive(Debug, PartialEq, Eq)]
pub enum EscapeEvent {
    /// A transaction has left the mempool.
    Escaped(String),
    /// No transaction came.
    Nothing,
    /// The transaction was taken out of the cache.
    Released(CacheRemoval),
    /// The database did what it was asked.
    Done,
    /// The database refused.
    Refused,
}

/// What the watch on transactions that leave the mempool does next.
#[derive(Debug, PartialEq, Eq)]
pub enum EscapeAction {
    /// Wait for the next transaction.
    Receive,
    /// Take a transaction id out of the cache.
    Release(String),
    /// Open a database transaction.
    Open,
    /// Delete the entries of transactions.
    Delete(Vec<String>),
    /// Commit the database transaction.
    Commit,
    /// Give up with a message.
    Abort(&'static str),
}

/// Whether an event answers what the watch waits for.
pub open spec fn escape_awaits(state: EscapeState, event: EscapeEvent) -> bool {
    match state {
        EscapeState::Receiving => event is Escaped || event is Nothing,
        EscapeState::Releasing(_) => event is Released,
        EscapeState::Opening(_) => event is Done || event is Refused,
        EscapeState::Deleting => event is Done,
        EscapeState::Committing => event is Done || event is Refused,
    }
}

/// What follows an event. The entries of a transaction that has left the mempool
/// are deleted where it was in the cache, and nothing is done where it was not.
pub open spec fn escape_follows(
    state: EscapeState,
    event: EscapeEvent,
    next: EscapeState,
    action: EscapeAction,
) -> bool {
    match (state, event) {
        (EscapeState::Receiving, EscapeEvent::Escaped(tx_id)) => next == EscapeState::Releasing(
            tx_id,
        ) && action == EscapeAction::Release(tx_id),
        (EscapeState::Receiving, _) => next == EscapeState::Receiving && action
            == EscapeAction::Receive,
        (EscapeState::Releasing(tx_id), EscapeEvent::Released(removal)) => if removal
            == CacheRemoval::Removed {
            next == EscapeState::Opening(tx_id) && action == EscapeAction::Open
        } else {
            next == EscapeState::Receiving && action == EscapeAction::Receive
        },
        (EscapeState::Opening(tx_id), EscapeEvent::Done) => {
            &&& next == EscapeState::Deleting
            &&& action matches EscapeAction::Delete(tx_ids)
            &&& tx_ids@ == seq![tx_id]
        },
        (EscapeState::Opening(_), _) => {
            &&& next == EscapeState::Receiving
            &&& action matches EscapeAction::Abort(message)
            &&& message@ == "Unable to begin bitcoin tx processing pg transaction"@
        },
        (EscapeState::Deleting, _) => next == EscapeState::Committing && action
            == EscapeAction::Commit,
        (EscapeState::Committing, EscapeEvent::Done) => next == EscapeState::Receiving && action
            == EscapeAction::Receive,
        (EscapeState::Committing, _) => {
            &&& next == EscapeState::Receiving
            &&& action matches EscapeAction::Abort(message)
            &&& message@ == "Unable to commit pg transaction"@
        },
        _ => false,
    }
}

/// Takes what happened to the watch on transactions that leave the mempool, and
/// tells what to wait for and what to do next.
pub fn remove_escaped_transactions(
    state: EscapeState,
    event: EscapeEvent,
) -> (r: (EscapeState, EscapeAction))
    requires
        escape_awaits(state, event),
    ensures
        escape_follows(state, event, r.0, r.1),
{
    match (state, event) {
        (EscapeState::Receiving, EscapeEvent::Escaped(tx_id)) => {
            let copy = tx_id.clone();
            (EscapeState::Releasing(tx_id), EscapeAction::Release(copy))
        },
        (EscapeState::Receiving, _) => (EscapeState::Receiving, EscapeAction::Receive),
        (EscapeState::Releasing(tx_id), EscapeEvent::Released(removal)) => match removal {
            CacheRemoval::Removed => (EscapeState::Opening(tx_id), EscapeAction::Open),
            CacheRemoval::Unknown => (EscapeState::Receiving, EscapeAction::Receive),
            CacheRemoval::Poisoned => (EscapeState::Receiving, EscapeAction::Receive),
        },
        (EscapeState::Opening(tx_id), EscapeEvent::Done) => {
            let mut tx_ids: Vec<String> = Vec::new();
            tx_ids.push(tx_id);
            assert(tx_ids@ =~= seq![tx_id]);
            (EscapeState::Deleting, EscapeAction::Delete(tx_ids))
        },
        (EscapeState::Opening(_), _) => (
            EscapeState::Receiving,
            EscapeAction::Abort("Unable to begin bitcoin tx processing pg transaction"),
        ),
        (EscapeState::Deleting, _) => (EscapeState::Committing, EscapeAction::Commit),
        (EscapeState::Committing, EscapeEvent::Done) => (
            EscapeState::Receiving,
            EscapeAction::Receive,
        ),
        _ => (EscapeState::Receiving, EscapeAction::Abort("Unable to commit pg transaction")),
    }
}

} // verus!

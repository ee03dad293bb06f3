//! Scanning the mempool when the indexer starts.

use vstd::prelude::*;

use crate::mempool::ledger_entry::DBMempoolLedgerEntry;
use crate::mempool::walk::{
    walk_action, walk_after, MempoolWalk, MempoolWalkView, WalkAction, WalkEvent,
};
use crate::mempool::watch::CacheWrite;

verus! {

/// What a scan waits for.
#[derive(Debug, PartialEq, Eq)]
pub enum ScanState {
    /// A client for the node.
    Starting,
    /// A database transaction.
    Opening,
    /// The ids of the transactions in the mempool.
    Listing,
    /// The known transactions that have left the mempool.
    Comparing(MempoolWalk),
    /// Their entries to be deleted.
    Deleting(MempoolWalk),
    /// What becomes of the transactions in the mempool, one after the other.
    Walking(MempoolWalk),
    /// The entries to be inserted.
    Inserting,
    /// The database transaction to be committed.
    Committing,
}

impl ScanState {
    /// While a walk goes on, there is a transaction that it looks at.
    pub open spec fn wf(&self) -> bool {
        match *self {
            ScanState::Walking(walk) => walk.done < walk.tx_ids@.len(),
            _ => true,
        }
    }
}

/// What happened to a scan.
#[derive(Debug, PartialEq, Eq)]
pub enum ScanEvent {
    /// The node or the database did what it was asked.
    Done,
    /// The node or the database refused.
    Refused,
    /// The mempool holds the transactions with these ids.
    Listed(Vec<String>),
    /// These transactions are known and not in the mempool.
    Stale(Vec<String>),
    /// The cache could not be read.
    Poisoned,
    /// A transaction was put into the cache.
    Cached(CacheWrite),
    /// A transaction was fetched from the node and has these entries.
    Parsed(Vec<DBMempoolLedgerEntry>),
    /// The node did not give a transaction.
    Missing,
}

/// What a scan does next.
#[derive(Debug, PartialEq, Eq)]
pub enum ScanAction {
    /// Open a database transaction.
    Open,
    /// Ask the node what is in the mempool.
    List,
    /// Find the known transactions that are not among these.
    Compare(Vec<String>),
    /// Delete the entries of transactions.
    Delete(Vec<String>),
    /// Put a transaction id into the cache.
    Claim(String),
    /// Fetch a transaction from the node and find its entries.
    Fetch(String),
    /// Insert entries.
    Insert(Vec<DBMempoolLedgerEntry>),
    /// Commit the database transaction.
    Commit,
    /// Nothing: the scan is over.
    Finish,
    /// Nothing: the error of the node is the result.
    Fail,
    /// Give up with a message.
    Abort(&'static str),
}

/// Whether an event answers what a scan waits for.
pub open spec fn scan_awaits(state: ScanState, event: ScanEvent) -> bool {
    match state {
        ScanState::Starting | ScanState::Opening | ScanState::Committing => event is Done
            || event is Refused,
        ScanState::Listing => event is Listed || event is Refused,
        ScanState::Comparing(_) => event is Stale || event is Poisoned,
        ScanState::Deleting(_) | ScanState::Inserting => event is Done,
        ScanState::Walking(_) => event is Cached || event is Parsed || event is Missing,
    }
}

/// What happened to the transaction that a walk looks at.
pub open spec fn walk_event(event: ScanEvent) -> WalkEvent {
    match event {
        ScanEvent::Cached(write) => WalkEvent::Claimed(write),
        ScanEvent::Parsed(entries) => WalkEvent::Parsed(entries),
        ScanEvent::Missing => WalkEvent::Missing,
        _ => WalkEvent::Begun,
    }
}

/// Whether a scan goes on with a walk after an event of it, until no transaction is
/// left and all entries are inserted.
pub open spec fn goes_on(
    walk: MempoolWalkView,
    event: WalkEvent,
    next: ScanState,
    action: ScanAction,
) -> bool {
    match walk_action(walk, event) {
        WalkAction::Claim(tx_id) => {
            &&& next matches ScanState::Walking(after)
            &&& after@ == walk
            &&& action == ScanAction::Claim(tx_id)
        },
        WalkAction::Fetch(tx_id) => {
            &&& next matches ScanState::Walking(after)
            &&& after@ == walk
            &&& action == ScanAction::Fetch(tx_id)
        },
        WalkAction::Insert => {
            &&& next == ScanState::Inserting
            &&& action matches ScanAction::Insert(entries)
            &&& entries@ == walk.entries
        },
    }
}

/// Whether an action gives up with a message.
pub open spec fn aborts(action: ScanAction, message: Seq<char>) -> bool {
    action matches ScanAction::Abort(text) && text@ == message
}

/// What follows an event. In one database transaction, the entries of the known
/// transactions that have left the mempool are deleted, and those of the
/// transactions in it that were not known are inserted.
pub open spec fn scan_follows(
    state: ScanState,
    event: ScanEvent,
    next: ScanState,
    action: ScanAction,
) -> bool {
    match state {
        ScanState::Starting => match event {
            ScanEvent::Done => next == ScanState::Opening && action == ScanAction::Open,
            _ => next == ScanState::Starting && aborts(action, "Failed to sart an rpc client."@),
        },
        ScanState::Opening => match event {
            ScanEvent::Done => next == ScanState::Listing && action == ScanAction::List,
            _ => next == ScanState::Starting && aborts(
                action,
                "Unable to begin bitcoin tx processing pg transaction"@,
            ),
        },
        ScanState::Listing => match event {
            ScanEvent::Listed(tx_ids) => {
                &&& next matches ScanState::Comparing(walk)
                &&& walk@ == (MempoolWalkView { tx_ids: tx_ids@, done: 0, entries: Seq::empty() })
                &&& action matches ScanAction::Compare(listed)
                &&& listed@ == tx_ids@
            },
            _ => next == ScanState::Starting && action == ScanAction::Fail,
        },
        ScanState::Comparing(walk) => match event {
            ScanEvent::Stale(tx_ids) => next == ScanState::Deleting(walk) && action
                == ScanAction::Delete(tx_ids),
            _ => next == ScanState::Starting && aborts(
                action,
                "Faielde to get read lock on memcache"@,
            ),
        },
        ScanState::Deleting(walk) => goes_on(walk@, WalkEvent::Begun, next, action),
        ScanState::Walking(walk) => goes_on(
            walk_after(walk@, walk_event(event)),
            walk_event(event),
            next,
            action,
        ),
        ScanState::Inserting => next == ScanState::Committing && action == ScanAction::Commit,
        ScanState::Committing => match event {
            ScanEvent::Done => next == ScanState::Starting && action == ScanAction::Finish,
            _ => next == ScanState::Starting && aborts(action, "Unable to commit pg transaction"@),
        },
    }
}

fn go_on(walk: MempoolWalk, event: WalkEvent) -> (r: (ScanState, ScanAction))
    requires
        !(event is Begun) ==> walk.done < walk.tx_ids@.len(),
    ensures
        goes_on(walk_after(walk@, event), event, r.0, r.1),
        r.0.wf(),
{
    let mut walk = walk;
    match walk.step(event) {
        WalkAction::Claim(tx_id) => (ScanState::Walking(walk), ScanAction::Claim(tx_id)),
        WalkAction::Fetch(tx_id) => (ScanState::Walking(walk), ScanAction::Fetch(tx_id)),
        WalkAction::Insert => (ScanState::Inserting, ScanAction::Insert(walk.entries)),
    }
}

fn copy_of(texts: &Vec<String>) -> (r: Vec<String>)
    ensures
        r@ == texts@,
{
    let mut copy: Vec<String> = Vec::new();
    let mut i: usize = 0;
    while i < texts.len()
        invariant
            i <= texts.len(),
            copy@ == texts@.take(i as int),
        decreases texts.len() - i,
    {
        copy.push(texts[i].clone());
        assert(copy@ =~= texts@.take(i + 1));
        i += 1;
    }
    assert(texts@.take(texts.len() as int) =~= texts@);
    copy
}

/// Takes what happened to a scan, and tells what to wait for and what to do next.
pub fn scan_mempool(state: ScanState, event: ScanEvent) -> (r: (ScanState, ScanAction))
    requires
        state.wf(),
        scan_awaits(state, event),
    ensures
        r.0.wf(),
        scan_follows(state, event, r.0, r.1),
{
    match state {
        ScanState::Starting => match event {
            ScanEvent::Done => (ScanState::Opening, ScanAction::Open),
            _ => (ScanState::Starting, ScanAction::Abort("Failed to sart an rpc client.")),
        },
        ScanState::Opening => match event {
            ScanEvent::Done => (ScanState::Listing, ScanAction::List),
            _ => (
                ScanState::Starting,
                ScanAction::Abort("Unable to begin bitcoin tx processing pg transaction"),
            ),
        },
        ScanState::Listing => match event {
            ScanEvent::Listed(tx_ids) => {
                let listed = copy_of(&tx_ids);
                (ScanState::Comparing(MempoolWalk::new(tx_ids)), ScanAction::Compare(listed))
            },
            _ => (ScanState::Starting, ScanAction::Fail),
        },
        ScanState::Comparing(walk) => match event {
            ScanEvent::Stale(tx_ids) => (ScanState::Deleting(walk), ScanAction::Delete(tx_ids)),
            _ => (ScanState::Starting, ScanAction::Abort("Faielde to get read lock on memcache")),
        },
        ScanState::Deleting(walk) => go_on(walk, WalkEvent::Begun),
        ScanState::Walking(walk) => match event {
            ScanEvent::Cached(write) => go_on(walk, WalkEvent::Claimed(write)),
            ScanEvent::Parsed(entries) => go_on(walk, WalkEvent::Parsed(entries)),
            _ => go_on(walk, WalkEvent::Missing),
        },
        ScanState::Inserting => (ScanState::Committing, ScanAction::Commit),
        ScanState::Committing => match event {
            ScanEvent::Done => (ScanState::Starting, ScanAction::Finish),
            _ => (ScanState::Starting, ScanAction::Abort("Unable to commit pg transaction")),
        },
    }
}

} // verus!

//! Walking over the transactions in the mempool, to find the entries of those that are
//! not known yet.

use vstd::prelude::*;

use crate::mempool::ledger_entry::DBMempoolLedgerEntry;
use crate::mempool::watch::{is_to_be_processed, CacheWrite};

verus! {

/// A walk over the mempool: the ids of the transactions in the mempool, how many of them are done,
/// and the entries that were found so far.
#[derive(Debug, PartialEq, Eq)]
pub struct MempoolWalk {
    pub tx_ids: Vec<String>,
    pub done: usize,
    pub entries: Vec<DBMempoolLedgerEntry>,
}

/// The model of [`MempoolWalk`].
#[verifier::ext_equal]
pub struct MempoolWalkView {
    pub tx_ids: Seq<String>,
    pub done: int,
    pub entries: Seq<DBMempoolLedgerEntry>,
}

impl View for MempoolWalk {
    type V = MempoolWalkView;

    open spec fn view(&self) -> MempoolWalkView {
        MempoolWalkView { tx_ids: self.tx_ids@, done: self.done as int, entries: self.entries@ }
    }
}

/// What happened to the transaction that is looked at.
#[derive(Debug, PartialEq, Eq)]
pub enum WalkEvent {
    /// Nothing yet.
    Begun,
    /// It was put into the cache.
    Claimed(CacheWrite),
    /// It was fetched from the node and has these entries.
    Parsed(Vec<DBMempoolLedgerEntry>),
    /// The node did not give it.
    Missing,
}

/// What is to be done next.
#[derive(Debug, PartialEq, Eq)]
pub enum WalkAction {
    /// Put a transaction into the cache.
    Claim(String),
    /// Fetch a transaction from the node and find its entries.
    Fetch(String),
    /// Insert all entries: the walk is over.
    Insert,
}

/// The walk with the transaction that is looked at done, and its entries added.
pub open spec fn moved_on(
    walk: MempoolWalkView,
    entries: Seq<DBMempoolLedgerEntry>,
) -> MempoolWalkView {
    MempoolWalkView { done: walk.done + 1, entries: walk.entries + entries, ..walk }
}

/// The walk after an event.
pub open spec fn walk_after(walk: MempoolWalkView, event: WalkEvent) -> MempoolWalkView {
    match event {
        WalkEvent::Begun => walk,
        WalkEvent::Claimed(CacheWrite::Known) => moved_on(walk, Seq::empty()),
        WalkEvent::Claimed(_) => walk,
        WalkEvent::Parsed(entries) => moved_on(walk, entries@),
        WalkEvent::Missing => moved_on(walk, Seq::empty()),
    }
}

/// What is to be done after an event that led to a walk: a transaction that was
/// not known is fetched, and otherwise the next one is claimed, until none is left.
pub open spec fn walk_action(walk: MempoolWalkView, event: WalkEvent) -> WalkAction {
    if event matches WalkEvent::Claimed(write) && write != CacheWrite::Known {
        WalkAction::Fetch(walk.tx_ids[walk.done])
    } else if walk.done < walk.tx_ids.len() {
        WalkAction::Claim(walk.tx_ids[walk.done])
    } else {
        WalkAction::Insert
    }
}

impl MempoolWalk {
    /// A walk of the transactions with the given ids.
    pub fn new(tx_ids: Vec<String>) -> (r: Self)
        ensures
            r@ == (MempoolWalkView { tx_ids: tx_ids@, done: 0, entries: Seq::empty() }),
    {
        MempoolWalk { tx_ids, done: 0, entries: Vec::new() }
    }

    /// Takes what happened to the transaction that is looked at.
    pub fn step(&mut self, event: WalkEvent) -> (r: WalkAction)
        requires
            !(event is Begun) ==> old(self).done < old(self).tx_ids@.len(),
        ensures
            final(self)@ == walk_after(old(self)@, event),
            r == walk_action(final(self)@, event),
    {
        let count: usize = self.tx_ids.len();
        match event {
            WalkEvent::Begun => {},
            WalkEvent::Claimed(write) => {
                if is_to_be_processed(write) {
                    return WalkAction::Fetch(self.tx_ids[self.done].clone());
                }
                self.done = self.done + 1;
            },
            WalkEvent::Parsed(entries) => {
                let mut entries = entries;
                self.entries.append(&mut entries);
                self.done = self.done + 1;
            },
            WalkEvent::Missing => {
                self.done = self.done + 1;
            },
        }
        assert(self@ =~= walk_after(old(self)@, event));
        if self.done < count {
            WalkAction::Claim(self.tx_ids[self.done].clone())
        } else {
            WalkAction::Insert
        }
    }
}

/// What became of a transaction: how putting it into the cache went, and what the
/// node gave where it was asked.
pub struct WalkOutcome {
    pub write: CacheWrite,
    pub fetched: WalkEvent,
}

/// Whether the node gave entries or nothing.
pub open spec fn is_fetch_result(event: WalkEvent) -> bool {
    event is Parsed || event is Missing
}

/// The walk after one transaction.
pub open spec fn walk_one(walk: MempoolWalkView, outcome: WalkOutcome) -> MempoolWalkView {
    let claimed = walk_after(walk, WalkEvent::Claimed(outcome.write));
    if outcome.write == CacheWrite::Known {
        claimed
    } else {
        walk_after(claimed, outcome.fetched)
    }
}

/// The walk after several transactions.
pub open spec fn walk_all(walk: MempoolWalkView, outcomes: Seq<WalkOutcome>) -> MempoolWalkView
    decreases outcomes.len(),
{
    if outcomes.len() == 0 {
        walk
    } else {
        walk_one(walk_all(walk, outcomes.drop_last()), outcomes.last())
    }
}

/// The entries of the transactions that were not known and that the node gave.
pub open spec fn fetched_entries(outcomes: Seq<WalkOutcome>) -> Seq<DBMempoolLedgerEntry>
    decreases outcomes.len(),
{
    if outcomes.len() == 0 {
        Seq::empty()
    } else {
        let before = fetched_entries(outcomes.drop_last());
        match outcomes.last().fetched {
            WalkEvent::Parsed(entries) if outcomes.last().write != CacheWrite::Known => before
                + entries@,
            _ => before,
        }
    }
}

/// A walk ends when every transaction was looked at, and then holds the entries of
/// exactly those that were not known and that the node gave, in order.
pub proof fn walk_finds_what_is_new(tx_ids: Seq<String>, outcomes: Seq<WalkOutcome>)
    requires
        outcomes.len() <= tx_ids.len(),
        forall|i: int|
            0 <= i < outcomes.len() ==> is_fetch_result((#[trigger] outcomes[i]).fetched),
    ensures
        ({
            let walk = walk_all(
                MempoolWalkView { tx_ids, done: 0, entries: Seq::empty() },
                outcomes,
            );
            &&& walk.tx_ids == tx_ids
            &&& walk.done == outcomes.len()
            &&& walk.entries == fetched_entries(outcomes)
            &&& walk_action(walk, WalkEvent::Begun) == if outcomes.len() < tx_ids.len() {
                WalkAction::Claim(tx_ids[outcomes.len() as int])
            } else {
                WalkAction::Insert
            }
        }),
    decreases outcomes.len(),
{
    if outcomes.len() > 0 {
        let rest = outcomes.drop_last();
        assert forall|i: int| 0 <= i < rest.len() implies is_fetch_result(
            (#[trigger] rest[i]).fetched,
        ) by {
            assert(is_fetch_result(outcomes[i].fetched));
        }
        walk_finds_what_is_new(tx_ids, rest);
        assert(is_fetch_result(outcomes[outcomes.len() - 1].fetched));
        let start = MempoolWalkView { tx_ids, done: 0, entries: Seq::empty() };
        assert(walk_all(start, outcomes).entries =~= fetched_entries(outcomes));
    }
}

} // verus!

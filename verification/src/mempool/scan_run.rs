//! What a whole scan of the mempool brings about.

use vstd::prelude::*;

use crate::db::statement::texts_view;
use crate::mempool::ledger_entry::DBMempoolLedgerEntry;
use crate::mempool::scan::{scan_follows, ScanAction, ScanEvent, ScanState};
use crate::mempool::walk::MempoolWalkView;
use crate::mempool::watch::CacheWrite;

verus! {

/// What a scan meets: the ids in the cache when it starts, the ids that the node
/// lists, and the entries of each transaction that the node gives.
pub struct ScanWorld {
    pub known: Set<Seq<char>>,
    pub listed: Seq<String>,
    pub node: spec_fn(Seq<char>) -> Option<Seq<DBMempoolLedgerEntry>>,
}

/// A step of a scan: what happened, what the scan waits for and does then, and the
/// cache at that time.
pub struct ScanStep {
    pub event: ScanEvent,
    pub state: ScanState,
    pub action: ScanAction,
    pub cache: Set<Seq<char>>,
}

/// Whether an event is what comes of an action: everything is done as it was asked,
/// and the cache, which can be read and written, answers and changes as a set does.
pub open spec fn answers(
    world: ScanWorld,
    action: ScanAction,
    cache: Set<Seq<char>>,
    event: ScanEvent,
    after: Set<Seq<char>>,
) -> bool {
    match action {
        ScanAction::Open | ScanAction::Delete(_) | ScanAction::Insert(_) | ScanAction::Commit => {
            &&& event == ScanEvent::Done
            &&& after == cache
        },
        ScanAction::List => {
            &&& event matches ScanEvent::Listed(tx_ids)
            &&& tx_ids@ == world.listed
            &&& after == cache
        },
        ScanAction::Compare(others) => {
            &&& event matches ScanEvent::Stale(tx_ids)
            &&& texts_view(tx_ids@).no_duplicates()
            &&& texts_view(tx_ids@).to_set() == cache.difference(texts_view(others@).to_set())
            &&& after == cache
        },
        ScanAction::Claim(tx_id) => {
            &&& event == ScanEvent::Cached(
                if cache.contains(tx_id@) {
                    CacheWrite::Known
                } else {
                    CacheWrite::Inserted
                },
            )
            &&& after == cache.insert(tx_id@)
        },
        ScanAction::Fetch(tx_id) => {
            &&& match (world.node)(tx_id@) {
                Some(entries) => event matches ScanEvent::Parsed(parsed) && parsed@ == entries,
                None => event == ScanEvent::Missing,
            }
            &&& after == cache
        },
        ScanAction::Finish | ScanAction::Fail | ScanAction::Abort(_) => false,
    }
}

/// Whether these are steps of a scan from its start, one after the other.
pub open spec fn is_run(world: ScanWorld, run: Seq<ScanStep>) -> bool
    decreases run.len(),
{
    if run.len() == 0 {
        false
    } else if run.len() == 1 {
        &&& run[0].event == ScanEvent::Done
        &&& run[0].cache == world.known
        &&& scan_follows(ScanState::Starting, run[0].event, run[0].state, run[0].action)
    } else {
        let last = run.last();
        let before = run.drop_last().last();
        &&& is_run(world, run.drop_last())
        &&& answers(world, before.action, before.cache, last.event, last.cache)
        &&& scan_follows(before.state, last.event, last.state, last.action)
    }
}

/// The ids of the transactions whose entries are deleted.
pub open spec fn deleted_ids(run: Seq<ScanStep>) -> Seq<String>
    decreases run.len(),
{
    if run.len() == 0 {
        Seq::empty()
    } else {
        let before = deleted_ids(run.drop_last());
        match run.last().action {
            ScanAction::Delete(tx_ids) => before + tx_ids@,
            _ => before,
        }
    }
}

/// The entries that are inserted.
pub open spec fn inserted_entries(run: Seq<ScanStep>) -> Seq<DBMempoolLedgerEntry>
    decreases run.len(),
{
    if run.len() == 0 {
        Seq::empty()
    } else {
        let before = inserted_entries(run.drop_last());
        match run.last().action {
            ScanAction::Insert(entries) => before + entries@,
            _ => before,
        }
    }
}

/// The ids that are known when the first of the listed ones have been claimed.
pub open spec fn known_after(world: ScanWorld, count: int) -> Set<Seq<char>> {
    world.known.union(texts_view(world.listed.take(count)).to_set())
}

/// The entries of the first of the listed transactions, in order, of those that are
/// not known, are not listed before, and that the node gives.
pub open spec fn new_entries(world: ScanWorld, count: int) -> Seq<DBMempoolLedgerEntry>
    decreases count,
{
    if count <= 0 {
        Seq::empty()
    } else {
        let before = new_entries(world, count - 1);
        let tx_id = world.listed[count - 1]@;
        if known_after(world, count - 1).contains(tx_id) {
            before
        } else {
            match (world.node)(tx_id) {
                Some(entries) => before + entries,
                None => before,
            }
        }
    }
}

/// Whether exactly the known transactions that are not listed are deleted, each
/// once.
pub open spec fn deletes_what_is_stale(world: ScanWorld, deleted: Seq<String>) -> bool {
    &&& texts_view(deleted).no_duplicates()
    &&& texts_view(deleted).to_set() == world.known.difference(texts_view(world.listed).to_set())
}

spec fn walk_at(world: ScanWorld, count: int) -> MempoolWalkView {
    MempoolWalkView {
        tx_ids: world.listed,
        done: count,
        entries: new_entries(world, count),
    }
}

/// What holds after each step of a scan.
spec fn holds(
    world: ScanWorld,
    step: ScanStep,
    deleted: Seq<String>,
    inserted: Seq<DBMempoolLedgerEntry>,
) -> bool {
    let all = world.listed.len() as int;
    let untouched = step.cache == world.known && inserted.len() == 0;
    match step.state {
        ScanState::Opening => untouched && deleted.len() == 0 && step.action == ScanAction::Open,
        ScanState::Listing => untouched && deleted.len() == 0 && step.action == ScanAction::List,
        ScanState::Comparing(walk) => {
            &&& untouched
            &&& deleted.len() == 0
            &&& walk@ == walk_at(world, 0)
            &&& step.action matches ScanAction::Compare(tx_ids)
            &&& tx_ids@ == world.listed
        },
        ScanState::Deleting(walk) => {
            &&& untouched
            &&& deletes_what_is_stale(world, deleted)
            &&& walk@ == walk_at(world, 0)
            &&& step.action is Delete
        },
        ScanState::Walking(walk) => {
            &&& deletes_what_is_stale(world, deleted)
            &&& inserted.len() == 0
            &&& 0 <= walk.done < all
            &&& walk@ == walk_at(world, walk.done as int)
            &&& match step.action {
                ScanAction::Claim(tx_id) => {
                    &&& tx_id == world.listed[walk.done as int]
                    &&& step.cache == known_after(world, walk.done as int)
                },
                ScanAction::Fetch(tx_id) => {
                    &&& tx_id == world.listed[walk.done as int]
                    &&& !known_after(world, walk.done as int).contains(tx_id@)
                    &&& step.cache == known_after(world, walk.done + 1)
                },
                _ => false,
            }
        },
        ScanState::Inserting => {
            &&& deletes_what_is_stale(world, deleted)
            &&& inserted == new_entries(world, all)
            &&& step.cache == known_after(world, all)
            &&& step.action is Insert
        },
        ScanState::Committing => {
            &&& deletes_what_is_stale(world, deleted)
            &&& inserted == new_entries(world, all)
            &&& step.cache == known_after(world, all)
            &&& step.action == ScanAction::Commit
        },
        ScanState::Starting => {
            &&& deletes_what_is_stale(world, deleted)
            &&& inserted == new_entries(world, all)
            &&& step.cache == known_after(world, all)
            &&& step.action == ScanAction::Finish
        },
    }
}

proof fn lemma_known_after_one_more(world: ScanWorld, count: int)
    requires
        0 <= count < world.listed.len(),
    ensures
        known_after(world, count + 1) == known_after(world, count).insert(world.listed[count]@),
{
    let seen = texts_view(world.listed.take(count));
    let next = texts_view(world.listed.take(count + 1));
    let tx_id = world.listed[count]@;
    assert(next =~= seen.push(tx_id));
    seen.lemma_push_to_set_commute(tx_id);
    assert(known_after(world, count + 1) =~= known_after(world, count).insert(tx_id));
}

proof fn lemma_holds(world: ScanWorld, run: Seq<ScanStep>)
    requires
        is_run(world, run),
    ensures
        holds(world, run.last(), deleted_ids(run), inserted_entries(run)),
    decreases run.len(),
{
    let last = run.last();
    let deleted = deleted_ids(run);
    let inserted = inserted_entries(run);
    if run.len() == 1 {
        assert(run.drop_last() =~= Seq::<ScanStep>::empty());
        assert(deleted_ids(run.drop_last()) == Seq::<String>::empty());
        assert(inserted_entries(run.drop_last()) == Seq::<DBMempoolLedgerEntry>::empty());
    } else {
        let rest = run.drop_last();
        let before = rest.last();
        lemma_holds(world, rest);
        assert(texts_view(world.listed.take(0)) =~= Seq::<Seq<char>>::empty());
        assert(known_after(world, 0) =~= world.known);
        match last.action {
            ScanAction::Delete(tx_ids) => {
                assert(deleted_ids(rest).len() == 0 ==> deleted =~= tx_ids@);
            },
            ScanAction::Insert(entries) => {
                assert(inserted_entries(rest).len() == 0 ==> inserted =~= entries@);
            },
            _ => {},
        }
        match before.state {
            ScanState::Walking(walk) => {
                let count = walk.done as int;
                lemma_known_after_one_more(world, count);
                let known = known_after(world, count);
                let tx_id = world.listed[count]@;
                assert(known.contains(tx_id) ==> known.insert(tx_id) =~= known);
                let empty = Seq::<DBMempoolLedgerEntry>::empty();
                assert(new_entries(world, count) + empty =~= new_entries(world, count));
            },
            _ => {},
        }
    }
}

/// A scan that finishes has brought the cache and the table up to date: the cache
/// holds what it held and everything that is listed; the entries that were deleted
/// are those of exactly the known transactions that are not listed; and the entries
/// that were inserted are, in order, those of the listed transactions that were not
/// known and that the node gave.
pub proof fn scan_brings_everything_up_to_date(world: ScanWorld, run: Seq<ScanStep>)
    requires
        is_run(world, run),
        run.last().action == ScanAction::Finish,
    ensures
        run.last().cache == world.known.union(texts_view(world.listed).to_set()),
        deletes_what_is_stale(world, deleted_ids(run)),
        inserted_entries(run) == new_entries(world, world.listed.len() as int),
{
    lemma_holds(world, run);
    assert(world.listed.take(world.listed.len() as int) =~= world.listed);
}

} // verus!

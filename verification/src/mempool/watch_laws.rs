//! What watching and scanning the mempool do when something goes wrong, and how they keep
//! to database transactions.

use vstd::prelude::*;

use crate::chain::deserialized_transaction;
use crate::mempool::ledger_entry::DBMempoolLedgerEntry;
use crate::mempool::scan::{scan_follows, ScanAction, ScanEvent, ScanState};
use crate::mempool::scan_run::{is_run, ScanStep, ScanWorld};
use crate::mempool::walk::{
    walk_action, walk_after, MempoolWalk, MempoolWalkView, WalkAction, WalkEvent,
};
use crate::mempool::watch::{
    escape_follows, watch_follows, CacheRemoval, CacheWrite, EscapeAction, EscapeEvent,
    EscapeState, WatchAction, WatchEvent, WatchState, WatchedTx,
};
use crate::mempool::watch_run::{
    fresh_ids, is_escape_run, is_watch_run, parsed_ids, waits_for_message, watch_action,
    watch_processes_what_is_fresh, watch_state, EscapeStep, WatchStep,
};

verus! {

/// A cache that cannot be written makes a transaction count as new: the watch goes on with
/// it as with one that was put in.
pub proof fn unwritable_cache_counts_as_new(
    watched: WatchedTx,
    next: WatchState,
    action: WatchAction,
)
    ensures
        watch_follows(
            WatchState::Claiming(watched),
            WatchEvent::Cached(CacheWrite::Poisoned),
            next,
            action,
        ) <==> watch_follows(
            WatchState::Claiming(watched),
            WatchEvent::Cached(CacheWrite::Inserted),
            next,
            action,
        ),
{
}

/// On a walk too, a cache that cannot be written makes a transaction count as new: it is
/// fetched, and only then the walk goes on.
pub proof fn unwritable_cache_counts_as_new_on_a_walk(walk: MempoolWalkView)
    ensures
        walk_after(walk, WalkEvent::Claimed(CacheWrite::Poisoned)) == walk,
        walk_after(walk, WalkEvent::Claimed(CacheWrite::Inserted)) == walk,
        walk_action(walk, WalkEvent::Claimed(CacheWrite::Poisoned)) == WalkAction::Fetch(
            walk.tx_ids[walk.done],
        ),
        walk_action(walk, WalkEvent::Claimed(CacheWrite::Inserted)) == WalkAction::Fetch(
            walk.tx_ids[walk.done],
        ),
{
}

/// In a scan too, a cache that cannot be written makes a transaction count as new: the scan
/// goes on with it as with one that was put in, and fetches it.
pub proof fn unwritable_cache_counts_as_new_in_a_scan(
    walk: MempoolWalk,
    next: ScanState,
    action: ScanAction,
)
    ensures
        scan_follows(
            ScanState::Walking(walk),
            ScanEvent::Cached(CacheWrite::Poisoned),
            next,
            action,
        ) <==> scan_follows(
            ScanState::Walking(walk),
            ScanEvent::Cached(CacheWrite::Inserted),
            next,
            action,
        ),
        scan_follows(
            ScanState::Walking(walk),
            ScanEvent::Cached(CacheWrite::Poisoned),
            next,
            action,
        ) ==> action == ScanAction::Fetch(walk.tx_ids@[walk.done as int]),
{
}

/// A cache that cannot be written makes a transaction that leaves the mempool count as not
/// known: nothing is deleted for it.
pub proof fn unwritable_cache_deletes_nothing(
    tx_id: String,
    next: EscapeState,
    action: EscapeAction,
)
    ensures
        escape_follows(
            EscapeState::Releasing(tx_id),
            EscapeEvent::Released(CacheRemoval::Poisoned),
            next,
            action,
        ) <==> escape_follows(
            EscapeState::Releasing(tx_id),
            EscapeEvent::Released(CacheRemoval::Unknown),
            next,
            action,
        ),
        escape_follows(
            EscapeState::Releasing(tx_id),
            EscapeEvent::Released(CacheRemoval::Poisoned),
            next,
            action,
        ) ==> next == EscapeState::Receiving && action == EscapeAction::Receive,
{
}

/// A connection that breaks is set up anew, and a message without a transaction is passed
/// over.
pub proof fn watch_survives_bad_messages(
    parts: Vec<Vec<u8>>,
    next: WatchState,
    action: WatchAction,
)
    ensures
        watch_follows(WatchState::Receiving, WatchEvent::Broken, next, action) ==> next
            == WatchState::Receiving && action == WatchAction::Reconnect,
        deserialized_transaction(parts@[1]@) is None && watch_follows(
            WatchState::Receiving,
            WatchEvent::Message(parts),
            next,
            action,
        ) ==> next == WatchState::Receiving && action == WatchAction::Receive,
{
}

/// Where the database refuses to open or to commit, both watches give up, with a message that
/// says which, and neither inserts, deletes or commits anything.
pub proof fn watches_give_up_on_a_refusal(
    watched: WatchedTx,
    tx_id: String,
    next: WatchState,
    action: WatchAction,
    escape_next: EscapeState,
    escape_action: EscapeAction,
)
    ensures
        watch_follows(WatchState::Opening(watched), WatchEvent::Refused, next, action) ==> (
        action matches WatchAction::Abort(message) && message@
            == "Unable to begin bitcoin tx processing pg transaction"@),
        watch_follows(WatchState::Committing, WatchEvent::Refused, next, action) ==> (
        action matches WatchAction::Abort(message) && message@
            == "Unable to commit pg transaction"@),
        escape_follows(
            EscapeState::Opening(tx_id),
            EscapeEvent::Refused,
            escape_next,
            escape_action,
        ) ==> (escape_action matches EscapeAction::Abort(message) && message@
            == "Unable to begin bitcoin tx processing pg transaction"@),
        escape_follows(
            EscapeState::Committing,
            EscapeEvent::Refused,
            escape_next,
            escape_action,
        ) ==> (escape_action matches EscapeAction::Abort(message) && message@
            == "Unable to commit pg transaction"@),
{
}

/// A scan gives up where there is no client, where the database refuses or where the cache
/// cannot be read, with a message that says which, and fails with the error of the node where
/// the node does not list the mempool. A transaction that the node does not give is passed
/// over.
pub proof fn scan_gives_up_on_a_refusal(
    walk: MempoolWalk,
    next: ScanState,
    action: ScanAction,
)
    ensures
        scan_follows(ScanState::Starting, ScanEvent::Refused, next, action) ==> (
        action matches ScanAction::Abort(message) && message@
            == "Failed to sart an rpc client."@),
        scan_follows(ScanState::Opening, ScanEvent::Refused, next, action) ==> (
        action matches ScanAction::Abort(message) && message@
            == "Unable to begin bitcoin tx processing pg transaction"@),
        scan_follows(ScanState::Listing, ScanEvent::Refused, next, action) ==> action
            == ScanAction::Fail,
        scan_follows(ScanState::Comparing(walk), ScanEvent::Poisoned, next, action) ==> (
        action matches ScanAction::Abort(message) && message@
            == "Faielde to get read lock on memcache"@),
        scan_follows(ScanState::Committing, ScanEvent::Refused, next, action) ==> (
        action matches ScanAction::Abort(message) && message@
            == "Unable to commit pg transaction"@),
        walk_after(walk@, WalkEvent::Missing).done == walk.done + 1,
        walk_after(walk@, WalkEvent::Missing).tx_ids == walk.tx_ids@,
        walk_after(walk@, WalkEvent::Missing).entries == walk.entries@,
{
    assert(walk.entries@ + Seq::<DBMempoolLedgerEntry>::empty() =~= walk.entries@);
}

/// How many of the actions of the watch are picked.
pub open spec fn watch_count(run: Seq<WatchStep>, pick: spec_fn(WatchAction) -> bool) -> nat
    decreases run.len(),
{
    if run.len() == 0 {
        0
    } else {
        watch_count(run.drop_last(), pick) + if pick(run.last().action) {
            1nat
        } else {
            0
        }
    }
}

/// Picks the opening of a database transaction.
pub open spec fn watch_opens() -> spec_fn(WatchAction) -> bool {
    |action: WatchAction| action is Open
}

/// Picks an insertion.
pub open spec fn watch_inserts() -> spec_fn(WatchAction) -> bool {
    |action: WatchAction| action is Insert
}

/// Picks a commit.
pub open spec fn watch_commits() -> spec_fn(WatchAction) -> bool {
    |action: WatchAction| action is Commit
}

spec fn watch_balance(run: Seq<WatchStep>) -> bool {
    let opens = watch_count(run, watch_opens());
    let parses = parsed_ids(run).len();
    let inserts = watch_count(run, watch_inserts());
    let commits = watch_count(run, watch_commits());
    let action = watch_action(run);
    match watch_state(run) {
        WatchState::Receiving => action is Abort || (waits_for_message(run) && opens == parses
            && parses == inserts && inserts == commits),
        WatchState::Claiming(_) => action is Claim && opens == parses && parses == inserts
            && inserts == commits,
        WatchState::Opening(_) => action is Open && opens == parses + 1 && parses == inserts
            && inserts == commits,
        WatchState::Parsing => action is Parse && opens == parses && parses == inserts + 1
            && inserts == commits,
        WatchState::Inserting => action is Insert && opens == parses && parses == inserts
            && inserts == commits + 1,
        WatchState::Committing => action is Commit && opens == parses && parses == inserts
            && inserts == commits,
    }
}

proof fn lemma_watch_balance(
    entries: spec_fn(Seq<char>) -> Seq<DBMempoolLedgerEntry>,
    known: Set<Seq<char>>,
    run: Seq<WatchStep>,
)
    requires
        is_watch_run(entries, known, run),
    ensures
        watch_balance(run),
    decreases run.len(),
{
    if run.len() > 0 {
        lemma_watch_balance(entries, known, run.drop_last());
    }
}

/// Each transaction that is processed has a database transaction of its own: whenever the
/// watch waits for the next message, as many were opened and committed, and as many
/// insertions made, as transactions came that were not in the cache.
pub proof fn watch_commits_what_it_inserts(
    entries: spec_fn(Seq<char>) -> Seq<DBMempoolLedgerEntry>,
    known: Set<Seq<char>>,
    run: Seq<WatchStep>,
)
    requires
        is_watch_run(entries, known, run),
        waits_for_message(run),
    ensures
        watch_count(run, watch_opens()) == fresh_ids(run).len(),
        watch_count(run, watch_inserts()) == fresh_ids(run).len(),
        watch_count(run, watch_commits()) == fresh_ids(run).len(),
{
    lemma_watch_balance(entries, known, run);
    watch_processes_what_is_fresh(entries, known, run);
}

/// How many of the actions of the watch on transactions that leave are picked.
pub open spec fn escape_count(run: Seq<EscapeStep>, pick: spec_fn(EscapeAction) -> bool) -> nat
    decreases run.len(),
{
    if run.len() == 0 {
        0
    } else {
        escape_count(run.drop_last(), pick) + if pick(run.last().action) {
            1nat
        } else {
            0
        }
    }
}

/// Picks the opening of a database transaction.
pub open spec fn escape_opens() -> spec_fn(EscapeAction) -> bool {
    |action: EscapeAction| action is Open
}

/// Picks a deletion.
pub open spec fn escape_deletes() -> spec_fn(EscapeAction) -> bool {
    |action: EscapeAction| action is Delete
}

/// Picks a commit.
pub open spec fn escape_commits() -> spec_fn(EscapeAction) -> bool {
    |action: EscapeAction| action is Commit
}

spec fn escape_balance(run: Seq<EscapeStep>) -> bool {
    let opens = escape_count(run, escape_opens());
    let deletes = escape_count(run, escape_deletes());
    let commits = escape_count(run, escape_commits());
    let action = crate::mempool::watch_run::escape_action(run);
    match crate::mempool::watch_run::escape_state(run) {
        EscapeState::Receiving => action is Abort || (action is Receive && opens == deletes
            && deletes == commits),
        EscapeState::Releasing(_) => action is Release && opens == deletes && deletes == commits,
        EscapeState::Opening(_) => action is Open && opens == deletes + 1 && deletes == commits,
        EscapeState::Deleting => action is Delete && opens == deletes && deletes == commits + 1,
        EscapeState::Committing => action is Commit && opens == deletes && deletes == commits,
    }
}

/// Each deletion has a database transaction of its own: whenever the watch on transactions
/// that leave waits for the next one, as many were opened and committed as deletions made.
pub proof fn escapes_commit_what_they_delete(known: Set<Seq<char>>, run: Seq<EscapeStep>)
    requires
        is_escape_run(known, run),
        crate::mempool::watch_run::escape_action(run) is Receive,
    ensures
        escape_count(run, escape_opens()) == escape_count(run, escape_deletes()),
        escape_count(run, escape_commits()) == escape_count(run, escape_deletes()),
{
    lemma_escape_balance(known, run);
}

proof fn lemma_escape_balance(known: Set<Seq<char>>, run: Seq<EscapeStep>)
    requires
        is_escape_run(known, run),
    ensures
        escape_balance(run),
    decreases run.len(),
{
    if run.len() > 0 {
        lemma_escape_balance(known, run.drop_last());
    }
}

/// How many of the actions of a scan are picked.
pub open spec fn scan_count(run: Seq<ScanStep>, pick: spec_fn(ScanAction) -> bool) -> nat
    decreases run.len(),
{
    if run.len() == 0 {
        0
    } else {
        scan_count(run.drop_last(), pick) + if pick(run.last().action) {
            1nat
        } else {
            0
        }
    }
}

/// Picks the opening of a database transaction.
pub open spec fn scan_opens() -> spec_fn(ScanAction) -> bool {
    |action: ScanAction| action is Open
}

/// Picks a deletion.
pub open spec fn scan_deletes() -> spec_fn(ScanAction) -> bool {
    |action: ScanAction| action is Delete
}

/// Picks an insertion.
pub open spec fn scan_inserts() -> spec_fn(ScanAction) -> bool {
    |action: ScanAction| action is Insert
}

/// Picks a commit.
pub open spec fn scan_commits() -> spec_fn(ScanAction) -> bool {
    |action: ScanAction| action is Commit
}

spec fn scan_has(run: Seq<ScanStep>, opens: nat, deletes: nat, inserts: nat, commits: nat) -> bool {
    &&& scan_count(run, scan_opens()) == opens
    &&& scan_count(run, scan_deletes()) == deletes
    &&& scan_count(run, scan_inserts()) == inserts
    &&& scan_count(run, scan_commits()) == commits
}

spec fn scan_balance(run: Seq<ScanStep>) -> bool {
    let action = run.last().action;
    match run.last().state {
        ScanState::Opening => action is Open && scan_has(run, 1, 0, 0, 0),
        ScanState::Listing => action is List && scan_has(run, 1, 0, 0, 0),
        ScanState::Comparing(_) => action is Compare && scan_has(run, 1, 0, 0, 0),
        ScanState::Deleting(_) => action is Delete && scan_has(run, 1, 1, 0, 0),
        ScanState::Walking(_) => (action is Claim || action is Fetch) && scan_has(run, 1, 1, 0, 0),
        ScanState::Inserting => action is Insert && scan_has(run, 1, 1, 1, 0),
        ScanState::Committing => action is Commit && scan_has(run, 1, 1, 1, 1),
        ScanState::Starting => action is Finish && scan_has(run, 1, 1, 1, 1),
    }
}

proof fn lemma_scan_balance(world: ScanWorld, run: Seq<ScanStep>)
    requires
        is_run(world, run),
    ensures
        scan_balance(run),
    decreases run.len(),
{
    if run.len() > 1 {
        lemma_scan_balance(world, run.drop_last());
    } else {
        let none = run.drop_last();
        assert(none =~= Seq::<ScanStep>::empty());
        assert(scan_has(none, 0, 0, 0, 0));
    }
}

/// A scan that finishes has worked in one database transaction: it was opened once and
/// committed once, with one deletion and one insertion in it, and the commit came last.
pub proof fn scan_works_in_one_transaction(world: ScanWorld, run: Seq<ScanStep>)
    requires
        is_run(world, run),
        run.last().action == ScanAction::Finish,
    ensures
        run.len() >= 2,
        run[run.len() - 2].action == ScanAction::Commit,
        scan_count(run, scan_opens()) == 1,
        scan_count(run, scan_deletes()) == 1,
        scan_count(run, scan_inserts()) == 1,
        scan_count(run, scan_commits()) == 1,
{
    lemma_scan_balance(world, run);
    if run.len() > 1 {
        lemma_scan_balance(world, run.drop_last());
    }
}

} // verus!

//! What watching the mempool brings about, message by message.

use vstd::prelude::*;

use crate::chain::{deserialized_transaction, hash_text, transaction_hash};
use crate::mempool::ledger_entry::DBMempoolLedgerEntry;
use crate::mempool::watch::{
    escape_follows, watch_follows, CacheRemoval, CacheWrite, EscapeAction, EscapeEvent,
    EscapeState, WatchAction, WatchEvent, WatchState,
};

verus! {

/// A step of the watch on the node: what happened, what the watch waits for and does
/// then, and the ids in the cache when it does that. Others may put ids into the
/// cache and take them out in between.
pub struct WatchStep {
    pub event: WatchEvent,
    pub state: WatchState,
    pub action: WatchAction,
    pub cache: Set<Seq<char>>,
}

/// What the watch waits for after some steps.
pub open spec fn watch_state(run: Seq<WatchStep>) -> WatchState {
    if run.len() == 0 {
        WatchState::Receiving
    } else {
        run.last().state
    }
}

/// What the watch does after some steps.
pub open spec fn watch_action(run: Seq<WatchStep>) -> WatchAction {
    if run.len() == 0 {
        WatchAction::Receive
    } else {
        run.last().action
    }
}

/// The ids in the cache after some steps, `known` at the start.
pub open spec fn watch_cache(known: Set<Seq<char>>, run: Seq<WatchStep>) -> Set<Seq<char>> {
    if run.len() == 0 {
        known
    } else {
        run.last().cache
    }
}

/// Whether an event is what can come of an action. `entries` gives the entries of the
/// transaction with an id. The cache can be written, and tells whether it holds an id.
pub open spec fn watch_answers(
    entries: spec_fn(Seq<char>) -> Seq<DBMempoolLedgerEntry>,
    action: WatchAction,
    cache: Set<Seq<char>>,
    event: WatchEvent,
) -> bool {
    match action {
        WatchAction::Receive | WatchAction::Reconnect => event is Message || event is Broken,
        WatchAction::Claim(tx_id) => event == WatchEvent::Cached(
            if cache.contains(tx_id@) {
                CacheWrite::Known
            } else {
                CacheWrite::Inserted
            },
        ),
        WatchAction::Open | WatchAction::Commit => event is Done || event is Refused,
        WatchAction::Parse(watched) => event matches WatchEvent::Parsed(parsed) && parsed@
            == entries(watched.tx_id@),
        WatchAction::Insert(_) => event == WatchEvent::Done,
        WatchAction::Abort(_) => false,
    }
}

/// Whether these are steps of the watch from its start, one after the other.
pub open spec fn is_watch_run(
    entries: spec_fn(Seq<char>) -> Seq<DBMempoolLedgerEntry>,
    known: Set<Seq<char>>,
    run: Seq<WatchStep>,
) -> bool
    decreases run.len(),
{
    run.len() == 0 || {
        let before = run.drop_last();
        let last = run.last();
        &&& is_watch_run(entries, known, before)
        &&& watch_answers(entries, watch_action(before), watch_cache(known, before), last.event)
        &&& watch_follows(watch_state(before), last.event, last.state, last.action)
    }
}

/// The id of the transaction that an event brings, where it is a message with one.
pub open spec fn message_id(event: WatchEvent) -> Option<Seq<char>> {
    match event {
        WatchEvent::Message(parts) => match deserialized_transaction(parts@[1]@) {
            Some(tx) => Some(hash_text(transaction_hash(tx))),
            None => None,
        },
        _ => None,
    }
}

/// The ids of the transactions that came and were not in the cache then, in order.
pub open spec fn fresh_ids(run: Seq<WatchStep>) -> Seq<Seq<char>>
    decreases run.len(),
{
    if run.len() == 0 {
        Seq::empty()
    } else {
        let before = fresh_ids(run.drop_last());
        match message_id(run.last().event) {
            Some(tx_id) if !run.last().cache.contains(tx_id) => before.push(tx_id),
            _ => before,
        }
    }
}

/// The ids of the transactions for which a database transaction is opened.
pub open spec fn opened_ids(run: Seq<WatchStep>) -> Seq<Seq<char>>
    decreases run.len(),
{
    if run.len() == 0 {
        Seq::empty()
    } else {
        let before = opened_ids(run.drop_last());
        match run.last().state {
            WatchState::Opening(watched) => before.push(watched.tx_id@),
            _ => before,
        }
    }
}

/// The ids of the transactions that are parsed.
pub open spec fn parsed_ids(run: Seq<WatchStep>) -> Seq<Seq<char>>
    decreases run.len(),
{
    if run.len() == 0 {
        Seq::empty()
    } else {
        let before = parsed_ids(run.drop_last());
        match run.last().action {
            WatchAction::Parse(watched) => before.push(watched.tx_id@),
            _ => before,
        }
    }
}

/// The entries that are inserted.
pub open spec fn watch_entries(run: Seq<WatchStep>) -> Seq<DBMempoolLedgerEntry>
    decreases run.len(),
{
    if run.len() == 0 {
        Seq::empty()
    } else {
        let before = watch_entries(run.drop_last());
        match run.last().action {
            WatchAction::Insert(entries) => before + entries@,
            _ => before,
        }
    }
}

/// The entries of transactions, one after the other.
pub open spec fn entries_of(
    entries: spec_fn(Seq<char>) -> Seq<DBMempoolLedgerEntry>,
    tx_ids: Seq<Seq<char>>,
) -> Seq<DBMempoolLedgerEntry>
    decreases tx_ids.len(),
{
    if tx_ids.len() == 0 {
        Seq::empty()
    } else {
        entries_of(entries, tx_ids.drop_last()) + entries(tx_ids.last())
    }
}

/// Whether the watch waits for a message.
pub open spec fn waits_for_message(run: Seq<WatchStep>) -> bool {
    watch_action(run) is Receive || watch_action(run) is Reconnect
}

/// What holds after each step of the watch on the node.
spec fn watch_holds(
    entries: spec_fn(Seq<char>) -> Seq<DBMempoolLedgerEntry>,
    known: Set<Seq<char>>,
    run: Seq<WatchStep>,
) -> bool {
    let action = watch_action(run);
    let fresh = fresh_ids(run);
    let opened = opened_ids(run);
    let parsed = parsed_ids(run);
    let inserted = watch_entries(run);
    let settled = opened == fresh && parsed == fresh && inserted == entries_of(entries, fresh);
    let refused = {
        &&& fresh.len() > 0
        &&& opened == fresh
        &&& parsed == fresh.drop_last()
        &&& inserted == entries_of(entries, parsed)
    };
    match watch_state(run) {
        WatchState::Receiving => if waits_for_message(run) {
            settled
        } else {
            action is Abort && (settled || refused)
        },
        WatchState::Claiming(watched) => {
            let tx_id = watched.tx_id@;
            &&& action == WatchAction::Claim(watched.tx_id)
            &&& if watch_cache(known, run).contains(tx_id) {
                settled
            } else {
                &&& fresh.len() > 0
                &&& fresh.last() == tx_id
                &&& opened == fresh.drop_last()
                &&& parsed == opened
                &&& inserted == entries_of(entries, parsed)
            }
        },
        WatchState::Opening(watched) => {
            &&& action == WatchAction::Open
            &&& refused
            &&& fresh.last() == watched.tx_id@
        },
        WatchState::Parsing => {
            &&& action matches WatchAction::Parse(watched)
            &&& fresh.len() > 0
            &&& fresh.last() == watched.tx_id@
            &&& opened == fresh
            &&& parsed == fresh
            &&& inserted == entries_of(entries, fresh.drop_last())
        },
        WatchState::Inserting => action is Insert && settled,
        WatchState::Committing => action is Commit && settled,
    }
}

proof fn lemma_watch_holds(
    entries: spec_fn(Seq<char>) -> Seq<DBMempoolLedgerEntry>,
    known: Set<Seq<char>>,
    run: Seq<WatchStep>,
)
    requires
        is_watch_run(entries, known, run),
    ensures
        watch_holds(entries, known, run),
    decreases run.len(),
{
    if run.len() > 0 {
        let before = run.drop_last();
        lemma_watch_holds(entries, known, before);
        let last = run.last();
        let fresh = fresh_ids(before);
        if let Some(tx_id) = message_id(last.event) {
            assert(fresh.push(tx_id).drop_last() =~= fresh);
        }
        if fresh.len() > 0 {
            assert(fresh.drop_last().push(fresh.last()) =~= fresh);
        }
    }
}

/// Whether a transaction is processed depends on the cache alone. A transaction that
/// is in the cache when it comes is never opened, parsed or inserted. Those that are
/// not are opened and parsed in the order in which they come, and whenever the watch
/// waits for the next message, exactly their entries are inserted.
pub proof fn watch_processes_what_is_fresh(
    entries: spec_fn(Seq<char>) -> Seq<DBMempoolLedgerEntry>,
    known: Set<Seq<char>>,
    run: Seq<WatchStep>,
)
    requires
        is_watch_run(entries, known, run),
    ensures
        opened_ids(run).is_prefix_of(fresh_ids(run)),
        parsed_ids(run).is_prefix_of(fresh_ids(run)),
        exists|count: int|
            0 <= count <= parsed_ids(run).len() && watch_entries(run) == #[trigger] entries_of(
                entries,
                parsed_ids(run).take(count),
            ),
        waits_for_message(run) ==> {
            &&& opened_ids(run) == fresh_ids(run)
            &&& parsed_ids(run) == fresh_ids(run)
            &&& watch_entries(run) == entries_of(entries, fresh_ids(run))
        },
{
    lemma_watch_holds(entries, known, run);
    let fresh = fresh_ids(run);
    let parsed = parsed_ids(run);
    if fresh.len() > 0 {
        assert(fresh.drop_last().is_prefix_of(fresh));
    }
    let count = parsed.len() as int;
    assert(parsed.take(count) =~= parsed);
    if watch_entries(run) == entries_of(entries, parsed) {
        assert(watch_entries(run) == entries_of(entries, parsed.take(count)));
    } else {
        assert(parsed.take(count - 1) =~= parsed.drop_last());
        assert(watch_entries(run) == entries_of(entries, parsed.take(count - 1)));
    }
}

/// Whether no id leaves the cache during a run, and those that the watch puts in are
/// in it.
pub open spec fn nothing_leaves(known: Set<Seq<char>>, run: Seq<WatchStep>) -> bool
    decreases run.len(),
{
    run.len() == 0 || {
        let before = run.drop_last();
        let cache = run.last().cache;
        &&& nothing_leaves(known, before)
        &&& watch_cache(known, before).subset_of(cache)
        &&& watch_action(before) matches WatchAction::Claim(tx_id) ==> cache.contains(tx_id@)
    }
}

/// Where no id leaves the cache, every transaction is processed at most once, however
/// often it comes, and not at all where it was in the cache at the start.
pub proof fn watch_processes_each_transaction_once(
    entries: spec_fn(Seq<char>) -> Seq<DBMempoolLedgerEntry>,
    known: Set<Seq<char>>,
    run: Seq<WatchStep>,
)
    requires
        is_watch_run(entries, known, run),
        nothing_leaves(known, run),
    ensures
        fresh_ids(run).no_duplicates(),
        opened_ids(run).no_duplicates(),
        parsed_ids(run).no_duplicates(),
        forall|i: int|
            0 <= i < fresh_ids(run).len() ==> !known.contains(#[trigger] fresh_ids(run)[i]),
{
    lemma_fresh_ids_are_new(entries, known, run);
    watch_processes_what_is_fresh(entries, known, run);
}

proof fn lemma_fresh_ids_are_new(
    entries: spec_fn(Seq<char>) -> Seq<DBMempoolLedgerEntry>,
    known: Set<Seq<char>>,
    run: Seq<WatchStep>,
)
    requires
        is_watch_run(entries, known, run),
        nothing_leaves(known, run),
    ensures
        known.subset_of(watch_cache(known, run)),
        fresh_ids(run).no_duplicates(),
        forall|i: int|
            0 <= i < fresh_ids(run).len() ==> !known.contains(#[trigger] fresh_ids(run)[i]),
        forall|i: int|
            0 <= i < fresh_ids(run).len() ==> watch_cache(known, run).contains(
                #[trigger] fresh_ids(run)[i],
            ) || (watch_action(run) matches WatchAction::Claim(tx_id) && fresh_ids(run)[i]
                == tx_id@),
    decreases run.len(),
{
    if run.len() > 0 {
        let before = run.drop_last();
        lemma_fresh_ids_are_new(entries, known, before);
        lemma_watch_holds(entries, known, before);
        lemma_watch_holds(entries, known, run);
        let old = fresh_ids(before);
        let fresh = fresh_ids(run);
        let cache = run.last().cache;
        assert(forall|i: int| 0 <= i < old.len() ==> cache.contains(#[trigger] old[i]));
        assert forall|i: int| 0 <= i < fresh.len() implies cache.contains(#[trigger] fresh[i])
            || (watch_action(run) matches WatchAction::Claim(tx_id) && fresh[i] == tx_id@) by {
            if i < old.len() {
                assert(fresh[i] == old[i]);
            }
        }
        assert forall|i: int| 0 <= i < fresh.len() implies !known.contains(
            #[trigger] fresh[i],
        ) by {
            if i < old.len() {
                assert(fresh[i] == old[i]);
            }
        }
        assert forall|i: int, j: int| 0 <= i < j < fresh.len() implies fresh[i] != fresh[j] by {
            assert(fresh[i] == old[i]);
            assert(cache.contains(old[i]));
        }
    }
}

/// A step of the watch on transactions that leave the mempool: what happened, what
/// the watch waits for and does then, and the ids in the cache when it does that.
/// Others may put ids into the cache and take them out in between.
pub struct EscapeStep {
    pub event: EscapeEvent,
    pub state: EscapeState,
    pub action: EscapeAction,
    pub cache: Set<Seq<char>>,
}

/// What the watch waits for after some steps.
pub open spec fn escape_state(run: Seq<EscapeStep>) -> EscapeState {
    if run.len() == 0 {
        EscapeState::Receiving
    } else {
        run.last().state
    }
}

/// What the watch does after some steps.
pub open spec fn escape_action(run: Seq<EscapeStep>) -> EscapeAction {
    if run.len() == 0 {
        EscapeAction::Receive
    } else {
        run.last().action
    }
}

/// Whether an event is what can come of an action. The cache can be written, and
/// tells whether it held an id.
pub open spec fn escape_answers(
    action: EscapeAction,
    cache: Set<Seq<char>>,
    event: EscapeEvent,
) -> bool {
    match action {
        EscapeAction::Receive => event is Escaped || event is Nothing,
        EscapeAction::Release(tx_id) => event == EscapeEvent::Released(
            if cache.contains(tx_id@) {
                CacheRemoval::Removed
            } else {
                CacheRemoval::Unknown
            },
        ),
        EscapeAction::Open | EscapeAction::Commit => event is Done || event is Refused,
        EscapeAction::Delete(_) => event == EscapeEvent::Done,
        EscapeAction::Abort(_) => false,
    }
}

/// Whether these are steps of the watch from its start, one after the other.
pub open spec fn is_escape_run(known: Set<Seq<char>>, run: Seq<EscapeStep>) -> bool
    decreases run.len(),
{
    run.len() == 0 || {
        let before = run.drop_last();
        let last = run.last();
        let cache = if before.len() == 0 {
            known
        } else {
            before.last().cache
        };
        &&& is_escape_run(known, before)
        &&& escape_answers(escape_action(before), cache, last.event)
        &&& escape_follows(escape_state(before), last.event, last.state, last.action)
    }
}

/// The ids of the transactions that left the mempool and were in the cache then, in
/// order.
pub open spec fn escaped_ids(run: Seq<EscapeStep>) -> Seq<String>
    decreases run.len(),
{
    if run.len() == 0 {
        Seq::empty()
    } else {
        let before = escaped_ids(run.drop_last());
        match run.last().event {
            EscapeEvent::Escaped(tx_id) if run.last().cache.contains(tx_id@) => before.push(tx_id),
            _ => before,
        }
    }
}

/// The ids of the transactions whose entries are deleted.
pub open spec fn removed_ids(run: Seq<EscapeStep>) -> Seq<String>
    decreases run.len(),
{
    if run.len() == 0 {
        Seq::empty()
    } else {
        let before = removed_ids(run.drop_last());
        match run.last().action {
            EscapeAction::Delete(tx_ids) => before + tx_ids@,
            _ => before,
        }
    }
}

/// What holds after each step of the watch on transactions that leave the mempool.
spec fn escape_holds(known: Set<Seq<char>>, run: Seq<EscapeStep>) -> bool {
    let action = escape_action(run);
    let escaped = escaped_ids(run);
    let removed = removed_ids(run);
    let settled = removed == escaped;
    let pending = escaped.len() > 0 && removed == escaped.drop_last();
    match escape_state(run) {
        EscapeState::Receiving => if action is Receive {
            settled
        } else {
            action is Abort && (settled || pending)
        },
        EscapeState::Releasing(tx_id) => {
            &&& action == EscapeAction::Release(tx_id)
            &&& run.len() > 0
            &&& if run.last().cache.contains(tx_id@) {
                pending && escaped.last() == tx_id
            } else {
                settled
            }
        },
        EscapeState::Opening(tx_id) => action == EscapeAction::Open && pending && escaped.last()
            == tx_id,
        EscapeState::Deleting => action is Delete && settled,
        EscapeState::Committing => action is Commit && settled,
    }
}

proof fn lemma_escape_holds(known: Set<Seq<char>>, run: Seq<EscapeStep>)
    requires
        is_escape_run(known, run),
    ensures
        escape_holds(known, run),
    decreases run.len(),
{
    if run.len() > 0 {
        let before = run.drop_last();
        lemma_escape_holds(known, before);
        let last = run.last();
        let escaped = escaped_ids(before);
        if let EscapeEvent::Escaped(tx_id) = last.event {
            assert(escaped.push(tx_id).drop_last() =~= escaped);
        }
        if escaped.len() > 0 {
            assert(escaped.drop_last() + seq![escaped.last()] =~= escaped);
        }
    }
}

/// Entries are deleted for the transactions that left the mempool and were in the
/// cache then, in that order and for no others; whenever the watch waits for the next
/// transaction, they are deleted for all of them.
pub proof fn escapes_delete_what_is_known(known: Set<Seq<char>>, run: Seq<EscapeStep>)
    requires
        is_escape_run(known, run),
    ensures
        removed_ids(run).is_prefix_of(escaped_ids(run)),
        escape_action(run) is Receive ==> removed_ids(run) == escaped_ids(run),
{
    lemma_escape_holds(known, run);
    let escaped = escaped_ids(run);
    if escaped.len() > 0 {
        assert(escaped.drop_last().is_prefix_of(escaped));
    }
}

} // verus!

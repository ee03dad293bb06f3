use ordinals::{Edict, RuneId, Runestone};
use runehook::chain::{Network, Transaction, TxIn, TxOut};
use runehook::db::models::db_ledger_operation::DbLedgerOperation;
use runehook::db::models::input_rune_balance::InputRuneBalance;
use runehook::db::statement::{PgParam, Statement};
use runehook::db::step::{Progress, Reply, Step};
use runehook::db::types::pg_bigint_u32::PgBigIntU32;
use runehook::db::types::pg_numeric_u128::PgNumericU128;
use runehook::db::types::pg_text_u128::PgTextU128;
use runehook::mempool::cache::{pg_actualize_mempool_cache, MempoolCache};
use runehook::mempool::decipher::SpentOutput;
use runehook::mempool::input_balances::{
    collect_input_rune_balances, group_input_rune_balances, pg_get_input_rune_balances,
    rows_denote_runes, InputBalanceRow,
};
use runehook::mempool::ledger_entry::DBMempoolLedgerEntry;
use runehook::mempool::parse::parse_mempool_tx;
use runehook::mempool::scan::{scan_mempool, ScanAction, ScanEvent, ScanState};
use runehook::mempool::table::{pg_insert_mempool_ledger_entries, pg_remove_mempool_tx};
use runehook::mempool::walk::{MempoolWalk, WalkAction, WalkEvent};
use runehook::mempool::watch::{
    is_to_be_processed, remove_escaped_transactions, start_zeromq_runloop, CacheRemoval,
    CacheWrite, EscapeAction, EscapeEvent, EscapeState, WatchAction, WatchEvent, WatchState,
    WatchedTx,
};
use runehook::runes::RuneId as LedgerRuneId;

fn statement<T: std::fmt::Debug>(step: Step<T>) -> Statement {
    match step {
        Step::Run(statement) => statement,
        other => panic!("{:?} is no statement", other),
    }
}

fn text(value: &str) -> PgParam {
    PgParam::Text(Some(value.to_string()))
}

fn row(index: u32, rune_id: &str, address: &str, amount: u128) -> InputBalanceRow {
    InputBalanceRow {
        index: PgBigIntU32(index),
        rune_id: rune_id.to_string(),
        address: Some(address.to_string()),
        amount: PgTextU128(amount),
    }
}

fn entry(tx_id: &str) -> DBMempoolLedgerEntry {
    DBMempoolLedgerEntry {
        rune_id: "1:1".to_string(),
        event_index: PgBigIntU32(4),
        tx_id: tx_id.to_string(),
        output: None,
        address: Some("a".to_string()),
        receiver_address: None,
        amount: Some(PgNumericU128(3)),
        operation: DbLedgerOperation::Burn,
    }
}

fn p2wpkh(byte: u8) -> Vec<u8> {
    let mut script = vec![0x00, 0x14];
    script.extend_from_slice(&[byte; 20]);
    script
}

fn transaction(message: Vec<u8>) -> Transaction {
    Transaction {
        version: 2,
        lock_time: 0,
        inputs: vec![TxIn { txid: [0; 32], vout: 1, script_sig: vec![], sequence: 0 }],
        outputs: vec![
            TxOut { value: 0, script_pubkey: message },
            TxOut { value: 546, script_pubkey: p2wpkh(0) },
        ],
    }
}

fn runestone() -> Vec<u8> {
    Runestone {
        edicts: vec![Edict { id: RuneId { block: 7, tx: 1 }, amount: 4, output: 1 }],
        ..Default::default()
    }
    .encipher()
    .into_bytes()
}

#[test]
fn rows_are_grouped_by_input_and_joined_by_rune() {
    let rows = vec![
        row(1, "7:1", "a", 5),
        row(0, "7:1", "b", 6),
        row(1, "7:2", "c", 7),
        row(1, "7:1", "d", 8),
    ];
    assert!(rows_denote_runes(&rows));
    let inputs = group_input_rune_balances(&rows);
    assert_eq!(inputs.len(), 2);
    assert_eq!(inputs[0].index, 1);
    assert_eq!(inputs[0].balances.entries.len(), 2);
    assert_eq!(inputs[1].index, 0);
    let joined = collect_input_rune_balances(&inputs);
    assert_eq!(joined.entries.len(), 2);
    assert_eq!(joined.entries[0].rune_id, LedgerRuneId { block: 7, tx: 1 });
    let amounts: Vec<u128> = joined.entries[0].inputs.iter().map(|input| input.amount).collect();
    assert_eq!(amounts, vec![5, 8, 6]);
    assert_eq!(
        joined.entries[1].inputs,
        vec![InputRuneBalance { address: Some("c".to_string()), amount: 7 }]
    );
}

#[test]
fn rows_that_denote_no_rune_are_noticed() {
    assert!(!rows_denote_runes(&vec![row(0, "7:1", "a", 5), row(0, "seven", "a", 5)]));
}

#[test]
fn balances_behind_inputs_are_read() {
    let spent = vec![
        SpentOutput { input_index: 0, tx_id: "x".to_string(), output: 2 },
        SpentOutput { input_index: 1, tx_id: "y".to_string(), output: 0 },
    ];
    let run = statement(pg_get_input_rune_balances(&spent, &Reply::Begun));
    assert!(run.sql.starts_with(
        "WITH inputs (index, tx_id, output) AS (VALUES ($1::bigint,$2,$3::bigint),($4::bigint,$5,$6::bigint))\n"
    ));
    assert!(run.sql.ends_with("WHERE l.operation = 'receive'"));
    assert_eq!(
        run.params,
        vec![
            PgParam::BigIntU32(Some(PgBigIntU32(0))),
            text("x"),
            PgParam::BigIntU32(Some(PgBigIntU32(2))),
            PgParam::BigIntU32(Some(PgBigIntU32(1))),
            text("y"),
            PgParam::BigIntU32(Some(PgBigIntU32(0))),
        ]
    );
    let reply = Reply::Rows(vec![row(1, "7:1", "a", 5)]);
    let Step::Finish(inputs) = pg_get_input_rune_balances(&spent, &reply) else {
        panic!("rows end the reading");
    };
    assert_eq!(inputs[0].index, 1);
    assert_eq!(pg_get_input_rune_balances(&spent, &Reply::Failed), Step::Exit(1));
}

#[test]
fn transaction_without_a_message_has_no_entries() {
    let tx = transaction(p2wpkh(1));
    let step = parse_mempool_tx(&tx, &"id".to_string(), Network::Bitcoin, &Reply::Begun);
    assert_eq!(step, Step::Finish(vec![]));
}

#[test]
fn transaction_with_a_message_is_parsed() {
    let tx = transaction(runestone());
    let id = "id".to_string();
    let run = statement(parse_mempool_tx(&tx, &id, Network::Bitcoin, &Reply::Begun));
    assert_eq!(
        run.params,
        vec![
            PgParam::BigIntU32(Some(PgBigIntU32(0))),
            text(&"00".repeat(32)),
            PgParam::BigIntU32(Some(PgBigIntU32(1))),
        ]
    );
    let reply = Reply::Rows(vec![row(0, "7:1", "a", 10)]);
    let Step::Finish(entries) = parse_mempool_tx(&tx, &id, Network::Bitcoin, &reply) else {
        panic!("rows end the parsing");
    };
    let address = "bc1qqqqqqqqqqqqqqqqqqqqqqqqqqqqqqqqq9e75rs".to_string();
    assert_eq!(entries.len(), 3);
    assert_eq!(entries[0].operation, DbLedgerOperation::Receive);
    assert_eq!(entries[0].address, Some(address.clone()));
    assert_eq!(entries[0].amount, Some(PgNumericU128(4)));
    assert_eq!(entries[1].operation, DbLedgerOperation::Send);
    assert_eq!(entries[1].receiver_address, Some(address));
    assert_eq!(entries[2].operation, DbLedgerOperation::Burn);
    assert_eq!(entries[2].amount, Some(PgNumericU128(6)));
}

#[test]
fn parsing_gives_up_on_what_it_cannot_read_or_add() {
    let tx = transaction(runestone());
    let id = "id".to_string();
    let failed = parse_mempool_tx(&tx, &id, Network::Bitcoin, &Reply::Failed);
    assert_eq!(failed, Step::Exit(1));
    let reply = Reply::Rows(vec![row(0, "7", "a", 10)]);
    let step = parse_mempool_tx(&tx, &id, Network::Bitcoin, &reply);
    assert_eq!(step, Step::Abort("invalid rune id"));
    let reply = Reply::Rows(vec![row(0, "7:1", "a", u128::MAX), row(0, "7:1", "a", 1)]);
    let step = parse_mempool_tx(&tx, &id, Network::Bitcoin, &reply);
    assert_eq!(step, Step::Abort("attempt to add with overflow"));
}

#[test]
fn mempool_entries_are_inserted() {
    let rows = vec![entry("x"), entry("y")];
    let run = statement(pg_insert_mempool_ledger_entries(&rows, Progress::Begun));
    assert!(run.sql.starts_with("INSERT INTO mempool_ledger\n"));
    assert!(run.sql.ends_with(
        "VALUES ($1,$2,$3,$4,$5,$6,$7,$8),($9,$10,$11,$12,$13,$14,$15,$16)"
    ));
    assert_eq!(run.params.len(), 16);
    assert_eq!(run.params[0], text("1:1"));
    assert_eq!(run.params[1], PgParam::BigIntU32(Some(PgBigIntU32(4))));
    assert_eq!(run.params[2], text("x"));
    assert_eq!(run.params[3], PgParam::BigIntU32(None));
    assert_eq!(run.params[4], text("a"));
    assert_eq!(run.params[5], PgParam::Text(None));
    assert_eq!(run.params[6], PgParam::NumericU128(Some(PgNumericU128(3))));
    assert_eq!(run.params[7], PgParam::Operation(DbLedgerOperation::Burn));
    assert_eq!(run.params[10], text("y"));
    let done = pg_insert_mempool_ledger_entries(&rows, Progress::Succeeded);
    assert_eq!(done, Step::Finish(true));
    assert_eq!(pg_insert_mempool_ledger_entries(&rows, Progress::Failed), Step::Exit(1));
    let none = pg_insert_mempool_ledger_entries(&vec![], Progress::Begun);
    assert_eq!(none, Step::Finish(false));
}

#[test]
fn mempool_entries_are_deleted() {
    let ids = vec!["x".to_string(), "y".to_string()];
    let run = statement(pg_remove_mempool_tx(&ids, Progress::Begun));
    assert_eq!(run.sql, "DELETE FROM mempool_ledger WHERE transaction_id IN ($1,$2)");
    assert_eq!(run.params, vec![text("x"), text("y")]);
    let run = statement(pg_remove_mempool_tx(&vec![], Progress::Begun));
    assert_eq!(run.sql, "DELETE FROM mempool_ledger WHERE transaction_id IN ()");
    assert_eq!(pg_remove_mempool_tx(&ids, Progress::Succeeded), Step::Finish(()));
    assert_eq!(pg_remove_mempool_tx(&ids, Progress::Failed), Step::Exit(1));
}

#[test]
fn cache_is_a_set() {
    let mut cache = MempoolCache::new();
    assert!(cache.insert("x".to_string()));
    assert!(!cache.insert("x".to_string()));
    assert!(cache.insert("y".to_string()));
    assert!(cache.contains(&"x".to_string()));
    assert_eq!(cache.difference(&vec!["y".to_string(), "z".to_string()]), vec!["x".to_string()]);
    assert!(cache.remove(&"x".to_string()));
    assert!(!cache.remove(&"x".to_string()));
    assert!(!cache.contains(&"x".to_string()));
    assert!(cache.contains(&"y".to_string()));
}

#[test]
fn cache_learns_what_the_database_holds() {
    let mut cache = MempoolCache::new();
    let run = statement(pg_actualize_mempool_cache(&mut cache, &Reply::Begun));
    assert_eq!(run.sql, "SELECT tx_id FROM mempool_ledger;");
    let rows = vec!["x".to_string(), "y".to_string(), "x".to_string()];
    assert_eq!(pg_actualize_mempool_cache(&mut cache, &Reply::Rows(rows)), Step::Finish(()));
    assert_eq!(cache.tx_ids, vec!["x".to_string(), "y".to_string()]);
    assert_eq!(
        pg_actualize_mempool_cache(&mut cache, &Reply::Failed),
        Step::Abort("error getting tx_ids of the mempool")
    );
}

#[test]
fn known_transactions_are_not_processed() {
    assert!(is_to_be_processed(CacheWrite::Inserted));
    assert!(is_to_be_processed(CacheWrite::Poisoned));
    assert!(!is_to_be_processed(CacheWrite::Known));
}

#[test]
fn new_transaction_is_parsed_and_inserted() {
    let watched = || WatchedTx::new(transaction(runestone()));
    let (state, action) = start_zeromq_runloop(
        WatchState::Claiming(watched()),
        WatchEvent::Cached(CacheWrite::Inserted),
    );
    assert_eq!((&state, action), (&WatchState::Opening(watched()), WatchAction::Open));
    let (state, action) = start_zeromq_runloop(state, WatchEvent::Done);
    assert_eq!((&state, action), (&WatchState::Parsing, WatchAction::Parse(watched())));
    let (state, action) = start_zeromq_runloop(state, WatchEvent::Parsed(vec![entry("x")]));
    assert_eq!((&state, action), (&WatchState::Inserting, WatchAction::Insert(vec![entry("x")])));
    let (state, action) = start_zeromq_runloop(state, WatchEvent::Done);
    assert_eq!((&state, action), (&WatchState::Committing, WatchAction::Commit));
    let next = start_zeromq_runloop(state, WatchEvent::Done);
    assert_eq!(next, (WatchState::Receiving, WatchAction::Receive));
}

/// Runs the watch on messages and returns the ids that are opened, and the entries
/// that are inserted.
fn watch(
    cache: &mut MempoolCache,
    messages: Vec<Vec<u8>>,
) -> (Vec<String>, Vec<DBMempoolLedgerEntry>) {
    let mut messages = messages.into_iter();
    let mut opened: Vec<String> = vec![];
    let mut inserted: Vec<DBMempoolLedgerEntry> = vec![];
    let mut state = WatchState::Receiving;
    let mut action = WatchAction::Receive;
    loop {
        let event = match action {
            WatchAction::Receive | WatchAction::Reconnect => match messages.next() {
                Some(data) => WatchEvent::Message(vec![vec![], data, vec![]]),
                None => return (opened, inserted),
            },
            WatchAction::Claim(tx_id) => WatchEvent::Cached(if cache.insert(tx_id) {
                CacheWrite::Inserted
            } else {
                CacheWrite::Known
            }),
            WatchAction::Parse(watched) => {
                let parsed = vec![entry(&watched.tx_id)];
                opened.push(watched.tx_id);
                WatchEvent::Parsed(parsed)
            }
            WatchAction::Insert(entries) => {
                inserted.extend(entries);
                WatchEvent::Done
            }
            WatchAction::Open | WatchAction::Commit => WatchEvent::Done,
            WatchAction::Abort(message) => panic!("{}", message),
        };
        (state, action) = start_zeromq_runloop(state, event);
    }
}

fn raw_tx(value: u64) -> (Vec<u8>, String) {
    let tx = bitcoin::Transaction {
        version: bitcoin::transaction::Version(2),
        lock_time: bitcoin::absolute::LockTime::ZERO,
        input: vec![bitcoin::TxIn::default()],
        output: vec![bitcoin::TxOut {
            value: bitcoin::Amount::from_sat(value),
            script_pubkey: bitcoin::ScriptBuf::new(),
        }],
    };
    (bitcoin::consensus::serialize(&tx), tx.compute_txid().to_string())
}

#[test]
fn watch_processes_each_transaction_once() {
    let (known, known_id) = raw_tx(1);
    let (first, first_id) = raw_tx(2);
    let (second, second_id) = raw_tx(3);
    let mut cache = MempoolCache::new();
    cache.insert(known_id);
    let messages =
        vec![known, first.clone(), vec![1, 2], second.clone(), first.clone(), second.clone()];
    let (opened, inserted) = watch(&mut cache, messages);
    assert_eq!(opened, vec![first_id.clone(), second_id.clone()]);
    assert_eq!(inserted, vec![entry(&first_id), entry(&second_id)]);
    // A transaction that left the cache is processed again.
    cache.remove(&first_id);
    let (opened, _) = watch(&mut cache, vec![second, first]);
    assert_eq!(opened, vec![first_id]);
}

#[test]
fn escapes_delete_what_is_known() {
    let mut cache = MempoolCache::new();
    cache.insert("x".to_string());
    cache.insert("y".to_string());
    let mut escaped = ["y", "z", "x", "y"].iter().map(|id| id.to_string());
    let mut deleted: Vec<String> = vec![];
    let mut state = EscapeState::Receiving;
    let mut action = EscapeAction::Receive;
    loop {
        let event = match action {
            EscapeAction::Receive => match escaped.next() {
                Some(tx_id) => EscapeEvent::Escaped(tx_id),
                None => break,
            },
            EscapeAction::Release(tx_id) => EscapeEvent::Released(if cache.remove(&tx_id) {
                CacheRemoval::Removed
            } else {
                CacheRemoval::Unknown
            }),
            EscapeAction::Delete(tx_ids) => {
                deleted.extend(tx_ids);
                EscapeEvent::Done
            }
            EscapeAction::Open | EscapeAction::Commit => EscapeEvent::Done,
            EscapeAction::Abort(message) => panic!("{}", message),
        };
        (state, action) = remove_escaped_transactions(state, event);
    }
    assert_eq!(deleted, vec!["y".to_string(), "x".to_string()]);
    assert!(cache.tx_ids.is_empty());
}

#[test]
fn known_transaction_is_passed_over() {
    let watched = WatchedTx::new(transaction(runestone()));
    let next = start_zeromq_runloop(
        WatchState::Claiming(watched),
        WatchEvent::Cached(CacheWrite::Known),
    );
    assert_eq!(next, (WatchState::Receiving, WatchAction::Receive));
}

#[test]
fn watch_reconnects_and_gives_up() {
    let (_, action) = start_zeromq_runloop(WatchState::Receiving, WatchEvent::Broken);
    assert_eq!(action, WatchAction::Reconnect);
    let watched = WatchedTx::new(transaction(runestone()));
    let (_, action) = start_zeromq_runloop(WatchState::Opening(watched), WatchEvent::Refused);
    let message = "Unable to begin bitcoin tx processing pg transaction";
    assert_eq!(action, WatchAction::Abort(message));
    let (_, action) = start_zeromq_runloop(WatchState::Committing, WatchEvent::Refused);
    assert_eq!(action, WatchAction::Abort("Unable to commit pg transaction"));
}

#[test]
fn escaped_transactions_are_deleted_where_they_were_known() {
    let id = || "x".to_string();
    let (state, action) =
        remove_escaped_transactions(EscapeState::Receiving, EscapeEvent::Escaped(id()));
    assert_eq!((&state, action), (&EscapeState::Releasing(id()), EscapeAction::Release(id())));
    let (state, action) =
        remove_escaped_transactions(state, EscapeEvent::Released(CacheRemoval::Removed));
    assert_eq!((&state, action), (&EscapeState::Opening(id()), EscapeAction::Open));
    let (state, action) = remove_escaped_transactions(state, EscapeEvent::Done);
    assert_eq!((&state, action), (&EscapeState::Deleting, EscapeAction::Delete(vec![id()])));
    let (state, action) = remove_escaped_transactions(state, EscapeEvent::Done);
    assert_eq!((&state, action), (&EscapeState::Committing, EscapeAction::Commit));
    let next = remove_escaped_transactions(state, EscapeEvent::Done);
    assert_eq!(next, (EscapeState::Receiving, EscapeAction::Receive));
}

#[test]
fn escaped_transactions_that_are_not_known_are_passed_over() {
    let waiting = || (EscapeState::Receiving, EscapeAction::Receive);
    for removal in [CacheRemoval::Unknown, CacheRemoval::Poisoned] {
        let state = EscapeState::Releasing("x".to_string());
        assert_eq!(remove_escaped_transactions(state, EscapeEvent::Released(removal)), waiting());
    }
    let next = remove_escaped_transactions(EscapeState::Receiving, EscapeEvent::Nothing);
    assert_eq!(next, waiting());
    let state = EscapeState::Opening("x".to_string());
    let (_, action) = remove_escaped_transactions(state, EscapeEvent::Refused);
    let message = "Unable to begin bitcoin tx processing pg transaction";
    assert_eq!(action, EscapeAction::Abort(message));
    let (_, action) = remove_escaped_transactions(EscapeState::Committing, EscapeEvent::Refused);
    assert_eq!(action, EscapeAction::Abort("Unable to commit pg transaction"));
}

#[test]
fn walk_collects_the_entries_of_new_transactions() {
    let ids: Vec<String> = ["w", "x", "y", "z"].iter().map(|id| id.to_string()).collect();
    let mut walk = MempoolWalk::new(ids);
    let claim = |id: &str| WalkAction::Claim(id.to_string());
    let fetch = |id: &str| WalkAction::Fetch(id.to_string());
    assert_eq!(walk.step(WalkEvent::Begun), claim("w"));
    assert_eq!(walk.step(WalkEvent::Claimed(CacheWrite::Known)), claim("x"));
    assert_eq!(walk.step(WalkEvent::Claimed(CacheWrite::Inserted)), fetch("x"));
    assert_eq!(walk.step(WalkEvent::Parsed(vec![entry("x")])), claim("y"));
    assert_eq!(walk.step(WalkEvent::Claimed(CacheWrite::Poisoned)), fetch("y"));
    assert_eq!(walk.step(WalkEvent::Missing), claim("z"));
    assert_eq!(walk.step(WalkEvent::Claimed(CacheWrite::Inserted)), fetch("z"));
    assert_eq!(walk.step(WalkEvent::Parsed(vec![entry("z")])), WalkAction::Insert);
    assert_eq!(walk.entries, vec![entry("x"), entry("z")]);
    assert_eq!(MempoolWalk::new(vec![]).step(WalkEvent::Begun), WalkAction::Insert);
}

#[test]
fn scan_deletes_what_is_stale_and_inserts_what_is_new() {
    let ids = || vec!["x".to_string()];
    let (state, action) = scan_mempool(ScanState::Starting, ScanEvent::Done);
    assert_eq!(action, ScanAction::Open);
    let (state, action) = scan_mempool(state, ScanEvent::Done);
    assert_eq!(action, ScanAction::List);
    let (state, action) = scan_mempool(state, ScanEvent::Listed(ids()));
    assert_eq!(action, ScanAction::Compare(ids()));
    let (state, action) = scan_mempool(state, ScanEvent::Stale(vec!["old".to_string()]));
    assert_eq!(action, ScanAction::Delete(vec!["old".to_string()]));
    let (state, action) = scan_mempool(state, ScanEvent::Done);
    assert_eq!(action, ScanAction::Claim("x".to_string()));
    let (state, action) = scan_mempool(state, ScanEvent::Cached(CacheWrite::Inserted));
    assert_eq!(action, ScanAction::Fetch("x".to_string()));
    let (state, action) = scan_mempool(state, ScanEvent::Parsed(vec![entry("x")]));
    assert_eq!(action, ScanAction::Insert(vec![entry("x")]));
    let (state, action) = scan_mempool(state, ScanEvent::Done);
    assert_eq!(action, ScanAction::Commit);
    let (_, action) = scan_mempool(state, ScanEvent::Done);
    assert_eq!(action, ScanAction::Finish);
}

#[test]
fn scan_brings_the_cache_and_the_table_up_to_date() {
    let text = |id: &str| id.to_string();
    let mut cache = MempoolCache::new();
    for id in ["old", "w", "gone"] {
        cache.insert(text(id));
    }
    let listed: Vec<String> = ["x", "w", "y", "x", "z"].iter().map(|id| text(id)).collect();
    let mut deleted: Vec<String> = vec![];
    let mut inserted: Vec<DBMempoolLedgerEntry> = vec![];
    let mut state = ScanState::Starting;
    let mut event = ScanEvent::Done;
    loop {
        let (next, action) = scan_mempool(state, event);
        state = next;
        event = match action {
            ScanAction::Open | ScanAction::Commit => ScanEvent::Done,
            ScanAction::List => ScanEvent::Listed(listed.clone()),
            ScanAction::Compare(tx_ids) => ScanEvent::Stale(cache.difference(&tx_ids)),
            ScanAction::Delete(tx_ids) => {
                deleted.extend(tx_ids);
                ScanEvent::Done
            }
            ScanAction::Claim(tx_id) => ScanEvent::Cached(if cache.insert(tx_id) {
                CacheWrite::Inserted
            } else {
                CacheWrite::Known
            }),
            ScanAction::Fetch(tx_id) => {
                if tx_id == "y" {
                    ScanEvent::Missing
                } else {
                    ScanEvent::Parsed(vec![entry(&tx_id)])
                }
            }
            ScanAction::Insert(entries) => {
                inserted.extend(entries);
                ScanEvent::Done
            }
            ScanAction::Finish => break,
            other => panic!("{:?} is not expected", other),
        };
    }
    assert_eq!(deleted, vec![text("old"), text("gone")]);
    assert_eq!(inserted, vec![entry("x"), entry("z")]);
    for id in ["old", "gone", "w", "x", "y", "z"] {
        assert!(cache.contains(&text(id)));
    }
    assert_eq!(cache.tx_ids.len(), 6);
}

#[test]
fn scan_passes_over_known_and_missing_transactions() {
    let walking = || ScanState::Walking(MempoolWalk::new(vec!["x".to_string()]));
    let done = (ScanState::Inserting, ScanAction::Insert(vec![]));
    assert_eq!(scan_mempool(walking(), ScanEvent::Cached(CacheWrite::Known)), done);
    assert_eq!(scan_mempool(walking(), ScanEvent::Missing), done);
    assert_eq!(scan_mempool(ScanState::Deleting(MempoolWalk::new(vec![])), ScanEvent::Done), done);
}

#[test]
fn scan_fails_where_the_node_does_and_gives_up_elsewhere() {
    let action = |state, event| scan_mempool(state, event).1;
    assert_eq!(
        action(ScanState::Starting, ScanEvent::Refused),
        ScanAction::Abort("Failed to sart an rpc client.")
    );
    assert_eq!(
        action(ScanState::Opening, ScanEvent::Refused),
        ScanAction::Abort("Unable to begin bitcoin tx processing pg transaction")
    );
    assert_eq!(action(ScanState::Listing, ScanEvent::Refused), ScanAction::Fail);
    assert_eq!(
        action(ScanState::Comparing(MempoolWalk::new(vec![])), ScanEvent::Poisoned),
        ScanAction::Abort("Faielde to get read lock on memcache")
    );
    assert_eq!(
        action(ScanState::Committing, ScanEvent::Refused),
        ScanAction::Abort("Unable to commit pg transaction")
    );
}

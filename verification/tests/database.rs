use runehook::db::balance::{
    balance_batch_fits, merge_balance_changes, pg_insert_balance_changes, INSERT_BALANCE_CHANGES,
    SELECT_BALANCE_CHANGES, UPDATE_BALANCE_CHANGES,
};
use runehook::db::block_height::{
    pg_get_block_height, pg_get_last_block_height, pg_roll_back_block, pg_update_block_height,
};
use runehook::db::connect::{pg_connect, ConnectAction, ConnectEvent};
use runehook::db::ledger::{pg_insert_ledger_entries, INSERT_LEDGER_ENTRIES};
use runehook::db::models::db_balance_change::DbBalanceChange;
use runehook::db::models::db_ledger_entry::DbLedgerEntry;
use runehook::db::models::db_ledger_operation::DbLedgerOperation;
use runehook::db::models::db_rune::DbRune;
use runehook::db::models::db_supply_change::DbSupplyChange;
use runehook::db::placeholders::{push_placeholders, push_rows_placeholders};
use runehook::db::runes::{
    pg_get_max_rune_number, pg_get_rune_by_id, pg_get_rune_total_mints, pg_insert_runes,
    IGNORE_KNOWN_RUNES, INSERT_RUNES,
};
use runehook::db::statement::{PgParam, Statement};
use runehook::db::step::{CountReply, MergeReply, Progress, RowReply, Step};
use runehook::db::supply::{
    merge_supply_changes, pg_insert_supply_changes, supply_batch_fits, INSERT_SUPPLY_CHANGES,
    SELECT_SUPPLY_CHANGES, UPDATE_SUPPLY_CHANGES,
};
use runehook::db::types::pg_bigint_u32::PgBigIntU32;
use runehook::db::types::pg_numeric_u64::PgNumericU64;
use runehook::db::types::pg_small_int_u8::PgSmallIntU8;
use runehook::db::types::pg_text_u128::PgTextU128;
use runehook::runes::RuneId;

fn statement<T: std::fmt::Debug>(step: Step<T>) -> Statement {
    match step {
        Step::Run(statement) => statement,
        other => panic!("{:?} is no statement", other),
    }
}

fn text(value: &str) -> PgParam {
    PgParam::Text(Some(value.to_string()))
}

fn rune(name: &str) -> DbRune {
    DbRune {
        id: "840000:1".to_string(),
        number: PgBigIntU32(5),
        name: name.to_string(),
        spaced_name: "A.B".to_string(),
        block_hash: "hash".to_string(),
        block_height: PgNumericU64(840000),
        tx_index: PgBigIntU32(1),
        tx_id: "id".to_string(),
        divisibility: PgSmallIntU8(2),
        premine: PgTextU128(10),
        symbol: "X".to_string(),
        terms_amount: Some(PgTextU128(3)),
        terms_cap: None,
        terms_height_start: Some(PgNumericU64(1)),
        terms_height_end: None,
        terms_offset_start: None,
        terms_offset_end: Some(PgNumericU64(9)),
        turbo: true,
        timestamp: PgBigIntU32(77),
    }
}

fn ledger_entry(tx_id: &str) -> DbLedgerEntry {
    DbLedgerEntry {
        rune_id: "840000:1".to_string(),
        block_hash: "hash".to_string(),
        block_height: PgNumericU64(840000),
        tx_index: PgBigIntU32(1),
        event_index: PgBigIntU32(0),
        tx_id: tx_id.to_string(),
        output: Some(PgBigIntU32(2)),
        address: Some("a".to_string()),
        receiver_address: None,
        amount: Some(PgTextU128(8)),
        operation: DbLedgerOperation::Mint,
        timestamp: PgBigIntU32(77),
    }
}

fn supply(rune_id: &str, minted: u128) -> DbSupplyChange {
    DbSupplyChange::from_mint(rune_id.to_string(), PgNumericU64(9), PgTextU128(minted))
}

fn balance(rune_id: &str, address: &str, amount: u128) -> DbBalanceChange {
    DbBalanceChange {
        rune_id: rune_id.to_string(),
        block_height: PgNumericU64(9),
        address: address.to_string(),
        balance: PgTextU128(amount),
        total_operations: 1,
    }
}

#[test]
fn placeholders_are_numbered() {
    let mut text = String::new();
    push_placeholders(&mut text, 1, 0, ",");
    assert_eq!(text, "");
    push_placeholders(&mut text, 9, 3, ",");
    assert_eq!(text, "$9,$10,$11");
    let mut text = "VALUES ".to_string();
    push_rows_placeholders(&mut text, 2, 2, ", ");
    assert_eq!(text, "VALUES ($1, $2), ($3, $4)");
}

#[test]
fn runes_are_inserted() {
    let rows = vec![rune("AB"), rune("CD")];
    let run = statement(pg_insert_runes(&rows, 0, Progress::Begun));
    let first: Vec<String> = (1..=19).map(|n| format!("${}", n)).collect();
    let second: Vec<String> = (20..=38).map(|n| format!("${}", n)).collect();
    assert_eq!(
        run.sql,
        format!(
            "{}({}),({}){}",
            INSERT_RUNES,
            first.join(","),
            second.join(","),
            IGNORE_KNOWN_RUNES
        )
    );
    assert_eq!(run.params.len(), 38);
    assert_eq!(
        run.params[..19].to_vec_of_debug(),
        vec![
            text("840000:1"),
            PgParam::BigIntU32(Some(PgBigIntU32(5))),
            text("AB"),
            text("A.B"),
            text("hash"),
            PgParam::NumericU64(Some(PgNumericU64(840000))),
            PgParam::BigIntU32(Some(PgBigIntU32(1))),
            text("id"),
            PgParam::SmallIntU8(PgSmallIntU8(2)),
            PgParam::TextU128(Some(PgTextU128(10))),
            text("X"),
            PgParam::TextU128(Some(PgTextU128(3))),
            PgParam::TextU128(None),
            PgParam::NumericU64(Some(PgNumericU64(1))),
            PgParam::NumericU64(None),
            PgParam::NumericU64(None),
            PgParam::NumericU64(Some(PgNumericU64(9))),
            PgParam::Bool(true),
            PgParam::BigIntU32(Some(PgBigIntU32(77))),
        ]
        .to_vec_of_debug()
    );
    assert_eq!(run.params[21], text("CD"));
    assert_eq!(pg_insert_runes(&rows, 1, Progress::Succeeded), Step::Finish(true));
    assert_eq!(pg_insert_runes(&rows, 1, Progress::Failed), Step::Exit(1));
    assert_eq!(pg_insert_runes(&vec![], 0, Progress::Begun), Step::Finish(true));
}

trait ToVecOfDebug {
    fn to_vec_of_debug(&self) -> Vec<String>;
}

impl ToVecOfDebug for [PgParam] {
    fn to_vec_of_debug(&self) -> Vec<String> {
        self.iter().map(|param| format!("{:?}", param)).collect()
    }
}

#[test]
fn ledger_entries_are_inserted_in_batches() {
    let rows: Vec<DbLedgerEntry> =
        (0..501).map(|i| ledger_entry(&format!("tx{}", i))).collect();
    let run = statement(pg_insert_ledger_entries(&rows, 0, Progress::Begun));
    assert_eq!(run.params.len(), 500 * 12);
    assert!(run.sql.starts_with(INSERT_LEDGER_ENTRIES));
    assert!(run.sql.ends_with(",$6000)"));
    let run = statement(pg_insert_ledger_entries(&rows, 1, Progress::Succeeded));
    assert_eq!(
        run.sql,
        format!("{}($1,$2,$3,$4,$5,$6,$7,$8,$9,$10,$11,$12)", INSERT_LEDGER_ENTRIES)
    );
    assert_eq!(
        run.params,
        vec![
            text("840000:1"),
            text("hash"),
            PgParam::NumericU64(Some(PgNumericU64(840000))),
            PgParam::BigIntU32(Some(PgBigIntU32(1))),
            PgParam::BigIntU32(Some(PgBigIntU32(0))),
            text("tx500"),
            PgParam::BigIntU32(Some(PgBigIntU32(2))),
            text("a"),
            PgParam::Text(None),
            PgParam::TextU128(Some(PgTextU128(8))),
            PgParam::Operation(DbLedgerOperation::Mint),
            PgParam::BigIntU32(Some(PgBigIntU32(77))),
        ]
    );
    assert_eq!(pg_insert_ledger_entries(&rows, 2, Progress::Succeeded), Step::Finish(true));
    assert_eq!(pg_insert_ledger_entries(&rows, 0, Progress::Failed), Step::Exit(1));
}

#[test]
fn supply_changes_start_with_one_operation() {
    let height = PgNumericU64(3);
    let mint = DbSupplyChange::from_mint("1:1".to_string(), height, PgTextU128(50));
    assert_eq!((mint.minted, mint.total_mints), (PgTextU128(50), PgTextU128(1)));
    assert_eq!((mint.burned, mint.total_burns), (PgTextU128(0), PgTextU128(0)));
    assert_eq!(mint.total_operations, PgTextU128(1));
    let burn = DbSupplyChange::from_burn("1:1".to_string(), height, PgTextU128(50));
    assert_eq!((burn.minted, burn.total_mints), (PgTextU128(0), PgTextU128(0)));
    assert_eq!((burn.burned, burn.total_burns), (PgTextU128(50), PgTextU128(1)));
    assert_eq!(burn.total_operations, PgTextU128(1));
    let operation = DbSupplyChange::from_operation("1:1".to_string(), height);
    assert_eq!((operation.minted, operation.burned), (PgTextU128(0), PgTextU128(0)));
    assert_eq!((operation.total_mints, operation.total_burns), (PgTextU128(0), PgTextU128(0)));
    assert_eq!(operation.total_operations, PgTextU128(1));
    assert_eq!(operation.block_height, height);
    assert_eq!(operation.clone(), operation);
}

#[test]
fn supply_changes_add_to_the_record_before() {
    let rows = vec![supply("1:1", 5), supply("2:2", 7), supply("1:1", 6)];
    let previous = vec![supply("1:1", 100)];
    assert!(supply_batch_fits(&rows, 0, &previous));
    let records = merge_supply_changes(&rows, 0, &previous);
    assert_eq!(records.len(), 2);
    assert_eq!(records[0].rune_id, "1:1");
    assert_eq!(records[0].minted, PgTextU128(111));
    assert_eq!(records[0].total_mints, PgTextU128(3));
    assert_eq!(records[0].total_burns, PgTextU128(0));
    assert_eq!(records[0].total_operations, PgTextU128(3));
    assert_eq!(records[1], supply("2:2", 7));
    for record in records {
        assert!(record.total_mints.0 + record.total_burns.0 <= record.total_operations.0);
    }
}

#[test]
fn supply_changes_to_one_rune_are_summed() {
    let height = PgNumericU64(5);
    let mut burn = DbSupplyChange::from_burn("1:1".to_string(), height, PgTextU128(3));
    let rows = vec![
        DbSupplyChange::from_mint("1:1".to_string(), PgNumericU64(4), PgTextU128(10)),
        burn.clone(),
    ];
    let records = merge_supply_changes(&rows, 0, &vec![]);
    burn.minted = PgTextU128(10);
    burn.total_mints = PgTextU128(1);
    burn.total_operations = PgTextU128(2);
    assert_eq!(records, vec![burn]);
}

#[test]
fn supply_changes_can_be_cut_into_batches() {
    let rows: Vec<DbSupplyChange> = (1..=501).map(|n| supply("1:1", n)).collect();
    let first = merge_supply_changes(&rows, 0, &vec![supply("1:1", 7)]);
    let second = merge_supply_changes(&rows, 1, &first);
    assert_eq!(second.len(), 1);
    assert_eq!(second[0].minted, PgTextU128(7 + 501 * 502 / 2));
    assert_eq!(second[0].total_mints, PgTextU128(502));
    assert_eq!(second[0].total_operations, PgTextU128(502));
}

#[test]
fn supply_changes_that_do_not_fit_are_refused() {
    let halves = vec![supply("1:1", u128::MAX), supply("1:1", 1)];
    assert!(!supply_batch_fits(&halves, 0, &vec![]));
    let rows = vec![supply("1:1", u128::MAX)];
    assert!(!supply_batch_fits(&rows, 0, &vec![supply("1:1", 1)]));
    assert!(supply_batch_fits(&rows, 0, &vec![supply("2:2", 1)]));
    assert!(supply_batch_fits(&rows, 1, &vec![supply("1:1", 1)]));
}

#[test]
fn supply_changes_are_read_and_inserted() {
    let rows = vec![supply("1:1", 5), supply("2:2", 7), supply("1:1", 6)];
    let run = statement(pg_insert_supply_changes(&rows, 0, &MergeReply::Begun));
    assert_eq!(run.sql, SELECT_SUPPLY_CHANGES);
    let runes = vec!["1:1".to_string(), "2:2".to_string(), "1:1".to_string()];
    assert_eq!(run.params, vec![PgParam::TextArray(runes)]);
    let reply = MergeReply::Previous(vec![]);
    let run = statement(pg_insert_supply_changes(&rows, 0, &reply));
    assert_eq!(
        run.sql,
        format!(
            "{}($1, $2, $3, $4, $5, $6, $7), ($8, $9, $10, $11, $12, $13, $14){}",
            INSERT_SUPPLY_CHANGES, UPDATE_SUPPLY_CHANGES
        )
    );
    assert_eq!(
        run.params[..7].to_vec_of_debug(),
        vec![
            text("1:1"),
            PgParam::NumericU64(Some(PgNumericU64(9))),
            PgParam::TextU128(Some(PgTextU128(11))),
            PgParam::TextU128(Some(PgTextU128(2))),
            PgParam::TextU128(Some(PgTextU128(0))),
            PgParam::TextU128(Some(PgTextU128(0))),
            PgParam::TextU128(Some(PgTextU128(2))),
        ]
        .to_vec_of_debug()
    );
    assert_eq!(pg_insert_supply_changes(&rows, 1, &MergeReply::Inserted), Step::Finish(true));
    assert_eq!(pg_insert_supply_changes(&rows, 0, &MergeReply::ReadFailed), Step::Fail);
    assert_eq!(pg_insert_supply_changes(&rows, 0, &MergeReply::InsertFailed), Step::Exit(1));
}

#[test]
fn supply_changes_go_on_with_the_next_batch() {
    let rows: Vec<DbSupplyChange> =
        (0..502).map(|i| supply(&format!("{}:0", i), 1)).collect();
    let run = statement(pg_insert_supply_changes(&rows, 1, &MergeReply::Inserted));
    let runes = vec!["500:0".to_string(), "501:0".to_string()];
    assert_eq!(run.params, vec![PgParam::TextArray(runes)]);
}

#[test]
fn balance_changes_increase_and_decrease() {
    let rows = vec![balance("1:1", "a", 5), balance("1:1", "b", 7)];
    let previous = vec![balance("1:1", "a", 100), balance("2:2", "b", 50)];
    let raised = merge_balance_changes(&rows, true, 0, &previous);
    assert_eq!(raised[0].balance, PgTextU128(105));
    assert_eq!(raised[0].total_operations, 2);
    assert_eq!(raised[1], balance("1:1", "b", 7));
    let lowered = merge_balance_changes(&rows, false, 0, &raised);
    assert_eq!(lowered[0].balance, PgTextU128(100));
    assert_eq!(lowered[1].balance, PgTextU128(0));
    let unknown = merge_balance_changes(&rows, false, 0, &vec![]);
    assert_eq!(unknown[0], balance("1:1", "a", 5));
}

#[test]
fn balance_changes_to_one_rune_and_address_are_summed() {
    let mut rows = vec![balance("1:1", "a", 5), balance("1:1", "b", 9), balance("1:1", "a", 2)];
    rows[2].block_height = PgNumericU64(10);
    let previous = vec![balance("1:1", "a", 100)];
    let raised = merge_balance_changes(&rows, true, 0, &previous);
    assert_eq!(raised.len(), 2);
    assert_eq!(raised[0].address, "a");
    assert_eq!(raised[0].balance, PgTextU128(107));
    assert_eq!(raised[0].total_operations, 3);
    assert_eq!(raised[0].block_height, PgNumericU64(10));
    assert_eq!(raised[1], balance("1:1", "b", 9));
    let lowered = merge_balance_changes(&rows, false, 0, &previous);
    assert_eq!(lowered[0].balance, PgTextU128(93));
    let back = merge_balance_changes(&rows, false, 0, &raised);
    assert_eq!(back[0].balance, PgTextU128(100));
    assert_eq!(back[1].balance, PgTextU128(0));
}

#[test]
fn balance_changes_without_a_record_are_summed() {
    let rows = vec![balance("1:1", "alice", 10), balance("1:1", "alice", 5)];
    let records = merge_balance_changes(&rows, true, 0, &vec![]);
    assert_eq!(records.len(), 1);
    assert_eq!(records[0].balance, PgTextU128(15));
    assert_eq!(records[0].total_operations, 2);
}

#[test]
fn balance_changes_can_be_cut_into_batches() {
    let rows: Vec<DbBalanceChange> = (1..=501).map(|n| balance("1:1", "a", n)).collect();
    let first = merge_balance_changes(&rows, true, 0, &vec![]);
    let second = merge_balance_changes(&rows, true, 1, &first);
    assert_eq!(second.len(), 1);
    assert_eq!(second[0].balance, PgTextU128(501 * 502 / 2));
    assert_eq!(second[0].total_operations, 501);
}

#[test]
fn balance_changes_that_do_not_fit_are_refused() {
    let rows = vec![balance("1:1", "a", 5)];
    assert!(!balance_batch_fits(&rows, false, 0, &vec![balance("1:1", "a", 4)]));
    assert!(balance_batch_fits(&rows, false, 0, &vec![balance("1:1", "a", 5)]));
    assert!(balance_batch_fits(&rows, false, 0, &vec![balance("1:1", "b", 4)]));
    assert!(!balance_batch_fits(&rows, true, 0, &vec![balance("1:1", "a", u128::MAX)]));
    let twice = vec![balance("1:1", "a", 5), balance("1:1", "a", 1)];
    assert!(!balance_batch_fits(&twice, false, 0, &vec![balance("1:1", "a", 5)]));
    let large = vec![balance("1:1", "a", u128::MAX), balance("1:1", "a", 1)];
    assert!(!balance_batch_fits(&large, true, 0, &vec![]));
    let mut many = balance("1:1", "a", 5);
    many.total_operations = i64::MAX;
    assert!(!balance_batch_fits(&rows, true, 0, &vec![many]));
}

#[test]
fn balance_changes_are_read_and_inserted() {
    let rows = vec![balance("1:1", "a", 5), balance("2:2", "b", 7)];
    let run = statement(pg_insert_balance_changes(&rows, true, 0, &MergeReply::Begun));
    assert_eq!(run.sql, SELECT_BALANCE_CHANGES);
    assert_eq!(
        run.params,
        vec![
            PgParam::TextArray(vec!["1:1".to_string(), "2:2".to_string()]),
            PgParam::TextArray(vec!["a".to_string(), "b".to_string()]),
        ]
    );
    let reply = MergeReply::Previous(vec![balance("1:1", "a", 20)]);
    let run = statement(pg_insert_balance_changes(&rows, false, 0, &reply));
    assert_eq!(
        run.sql,
        format!(
            "{}($1, $2, $3, $4, $5), ($6, $7, $8, $9, $10){}",
            INSERT_BALANCE_CHANGES, UPDATE_BALANCE_CHANGES
        )
    );
    assert_eq!(
        run.params[..5].to_vec_of_debug(),
        vec![
            text("1:1"),
            PgParam::NumericU64(Some(PgNumericU64(9))),
            text("a"),
            PgParam::TextU128(Some(PgTextU128(15))),
            PgParam::BigInt(2),
        ]
        .to_vec_of_debug()
    );
    assert_eq!(
        pg_insert_balance_changes(&rows, true, 1, &MergeReply::Inserted),
        Step::Finish(true)
    );
    assert_eq!(pg_insert_balance_changes(&rows, true, 0, &MergeReply::ReadFailed), Step::Fail);
    assert_eq!(
        pg_insert_balance_changes(&rows, true, 0, &MergeReply::InsertFailed),
        Step::Exit(1)
    );
}

#[test]
fn block_is_rolled_back_table_by_table() {
    let tables = ["balance_changes", "supply_changes", "ledger", "runes"];
    for (done, table) in tables.iter().enumerate() {
        let run = statement(pg_roll_back_block(12, done, Progress::Succeeded));
        assert_eq!(run.sql, format!("DELETE FROM {} WHERE block_height = $1", table));
        assert_eq!(run.params, vec![PgParam::NumericU64(Some(PgNumericU64(12)))]);
        let Step::Abort(message) = pg_roll_back_block(12, done, Progress::Failed) else {
            panic!("a refusal is fatal");
        };
        assert_eq!(message, format!("error rolling back {}", table));
    }
    assert_eq!(pg_roll_back_block(12, 4, Progress::Succeeded), Step::Finish(()));
}

#[test]
fn heights_are_read() {
    let run = statement(pg_get_block_height(RowReply::Begun));
    assert_eq!(run.sql, "SELECT MAX(block_height) AS max FROM ledger");
    assert!(run.params.is_empty());
    let run = statement(pg_get_last_block_height(RowReply::Begun));
    assert_eq!(run.sql, "SELECT last_scanned_height as height FROM block_height");
    for read in [pg_get_block_height, pg_get_last_block_height] {
        assert_eq!(read(RowReply::Row(Some(Some(PgNumericU64(7))))), Step::Finish(Some(7)));
        assert_eq!(read(RowReply::Row(Some(None))), Step::Finish(None));
        assert_eq!(read(RowReply::Row(None)), Step::Finish(None));
        assert_eq!(read(RowReply::Failed), Step::Abort("error getting max block height"));
    }
}

#[test]
fn height_is_updated() {
    let run = statement(pg_update_block_height(5, CountReply::Begun));
    assert_eq!(run.sql, "UPDATE block_height SET last_scanned_height = $1;");
    assert_eq!(run.params, vec![PgParam::NumericU64(Some(PgNumericU64(5)))]);
    assert_eq!(pg_update_block_height(5, CountReply::Rows(0)), Step::Finish(()));
    assert_eq!(pg_update_block_height(5, CountReply::Failed), Step::Finish(()));
    assert!(matches!(pg_update_block_height(5, CountReply::Rows(1)), Step::Abort(_)));
}

#[test]
fn greatest_rune_number_is_read() {
    let run = statement(pg_get_max_rune_number(RowReply::Begun));
    assert_eq!(run.sql, "SELECT MAX(number) AS max FROM runes");
    assert_eq!(pg_get_max_rune_number(RowReply::Row(Some(PgBigIntU32(8)))), Step::Finish(8));
    assert_eq!(pg_get_max_rune_number(RowReply::Row(None)), Step::Finish(0));
    assert_eq!(
        pg_get_max_rune_number(RowReply::Failed),
        Step::Abort("error getting max rune number")
    );
}

#[test]
fn rune_is_read_by_its_id() {
    let id = RuneId { block: 840000, tx: 1 };
    let run = statement(pg_get_rune_by_id(&id, RowReply::Begun));
    assert_eq!(run.sql, "SELECT * FROM runes WHERE id = $1");
    assert_eq!(run.params, vec![text("840000:1")]);
    let found = pg_get_rune_by_id(&id, RowReply::Row(Some(rune("AB"))));
    assert_eq!(found, Step::Finish(Some(rune("AB"))));
    assert_eq!(pg_get_rune_by_id(&id, RowReply::Row(None)), Step::Finish(None));
    assert_eq!(pg_get_rune_by_id(&id, RowReply::Failed), Step::Exit(1));
}

#[test]
fn mints_of_a_rune_are_read() {
    let id = RuneId { block: 840000, tx: 1 };
    let run = statement(pg_get_rune_total_mints(&id, RowReply::Begun));
    assert!(run.sql.contains("ORDER BY block_height DESC LIMIT 1"));
    assert_eq!(run.params, vec![text("840000:1")]);
    let read = pg_get_rune_total_mints(&id, RowReply::Row(Some(PgTextU128(4))));
    assert_eq!(read, Step::Finish(Some(4)));
    assert_eq!(pg_get_rune_total_mints(&id, RowReply::Row(None)), Step::Finish(None));
    assert_eq!(pg_get_rune_total_mints(&id, RowReply::Failed), Step::Exit(1));
}

#[test]
fn connection_is_tried_until_it_stands() {
    assert_eq!(pg_connect(ConnectEvent::Begun, true), ConnectAction::Connect(0));
    assert_eq!(pg_connect(ConnectEvent::Refused, true), ConnectAction::Connect(1));
    assert_eq!(pg_connect(ConnectEvent::Connected, true), ConnectAction::Migrate);
    assert_eq!(pg_connect(ConnectEvent::Connected, false), ConnectAction::Finish);
    assert_eq!(pg_connect(ConnectEvent::Migrated, true), ConnectAction::Finish);
    assert_eq!(pg_connect(ConnectEvent::MigrationFailed, true), ConnectAction::Exit(1));
}

#[test]
fn operations_have_names() {
    let names: Vec<&str> = [
        DbLedgerOperation::Etching,
        DbLedgerOperation::Mint,
        DbLedgerOperation::Burn,
        DbLedgerOperation::Send,
        DbLedgerOperation::Receive,
    ]
    .iter()
    .map(|operation| operation.as_str())
    .collect();
    assert_eq!(names, vec!["etching", "mint", "burn", "send", "receive"]);
}

//! The table of balance changes.

use vstd::prelude::*;

use crate::db::keyed::{
    distinct_keys, find_latest, keys_in_order, latest, lemma_keys_in_order, lemma_latest_by_key,
    lemma_latest_is_listed, lemma_latest_of_both, lemma_latest_of_listed, occurs_before, Keyed,
};
use crate::db::models::db_balance_change::DbBalanceChange;
use crate::db::placeholders::{push_rows_placeholders, rows_placeholders};
use crate::db::statement::{
    flattened, params_view, texts_view, PgParam, PgParamView, Statement, StatementView,
};
use crate::db::step::{batch_range, batch_rows, merge_step, MergeReply, Step, BATCH_SIZE};
use crate::db::types::pg_text_u128::PgTextU128;

verus! {

pub const SELECT_BALANCE_CHANGES: &'static str = "SELECT DISTINCT ON (rune_id, address) *
             FROM balance_changes
             WHERE (rune_id, address) IN (
                 SELECT rune_id, address 
                 FROM unnest($1::text[], $2::text[]) AS t(rune_id, address)
             )
             ORDER BY rune_id, address, block_height DESC";

pub const INSERT_BALANCE_CHANGES: &'static str = "INSERT INTO balance_changes 
                        (rune_id, block_height, address, balance, total_operations)
                    VALUES ";

pub const UPDATE_BALANCE_CHANGES: &'static str = "
                    ON CONFLICT (rune_id, block_height, address) DO UPDATE SET
                        balance = EXCLUDED.balance,
                        total_operations = EXCLUDED.total_operations";

impl Keyed for DbBalanceChange {
    type Key = (Seq<char>, Seq<char>);

    open spec fn key(&self) -> (Seq<char>, Seq<char>) {
        (self.rune_id@, self.address@)
    }

    fn same_key(&self, other: &Self) -> (r: bool) {
        self.rune_id == other.rune_id && self.address == other.address
    }
}

/// What changes add up to.
pub struct BalanceTotals {
    pub amount: int,
    pub operations: int,
}

/// What the changes to a rune and address add up to.
pub open spec fn group_totals(
    rows: Seq<DbBalanceChange>,
    key: (Seq<char>, Seq<char>),
) -> BalanceTotals
    decreases rows.len(),
{
    if rows.len() == 0 {
        BalanceTotals { amount: 0, operations: 0 }
    } else {
        let before = group_totals(rows.drop_last(), key);
        if rows.last().key() == key {
            BalanceTotals {
                amount: before.amount + rows.last().balance.0,
                operations: before.operations + rows.last().total_operations,
            }
        } else {
            before
        }
    }
}

/// The balance and the operations of a rune and address after the changes. Where
/// there is a record before them, the amount of all changes is added to its balance
/// or subtracted from it; where there is none, it is the balance.
pub open spec fn balance_totals(
    rows: Seq<DbBalanceChange>,
    previous: Seq<DbBalanceChange>,
    increase: bool,
    key: (Seq<char>, Seq<char>),
) -> BalanceTotals {
    let changes = group_totals(rows, key);
    match latest(previous, key) {
        Some(record) => BalanceTotals {
            amount: if increase {
                record.balance.0 + changes.amount
            } else {
                record.balance.0 - changes.amount
            },
            operations: record.total_operations + changes.operations,
        },
        None => changes,
    }
}

/// Whether the numbers fit their integer types: a decrease takes no more than there
/// is.
pub open spec fn totals_fit(totals: BalanceTotals) -> bool {
    &&& 0 <= totals.amount <= u128::MAX
    &&& i64::MIN <= totals.operations <= i64::MAX
}

/// The record of a rune and address after the changes, at the height of the last
/// change to them.
pub open spec fn balance_record(
    rows: Seq<DbBalanceChange>,
    previous: Seq<DbBalanceChange>,
    increase: bool,
    key: (Seq<char>, Seq<char>),
) -> DbBalanceChange {
    let last = latest(rows, key)->0;
    let totals = balance_totals(rows, previous, increase, key);
    DbBalanceChange {
        rune_id: last.rune_id,
        block_height: last.block_height,
        address: last.address,
        balance: PgTextU128(totals.amount as u128),
        total_operations: totals.operations as i64,
    }
}

/// The records after the changes, one for each rune and address that is changed, in
/// the order in which they first occur.
pub open spec fn balance_records(
    rows: Seq<DbBalanceChange>,
    previous: Seq<DbBalanceChange>,
    increase: bool,
) -> Seq<DbBalanceChange> {
    records_for(keys_in_order(rows), rows, previous, increase)
}

/// The records of runes and addresses after the changes.
pub open spec fn records_for(
    keys: Seq<(Seq<char>, Seq<char>)>,
    rows: Seq<DbBalanceChange>,
    previous: Seq<DbBalanceChange>,
    increase: bool,
) -> Seq<DbBalanceChange> {
    keys.map_values(
        |key: (Seq<char>, Seq<char>)| balance_record(rows, previous, increase, key),
    )
}

/// Whether the numbers of every changed rune and address fit their integer types.
pub open spec fn balances_fit(
    rows: Seq<DbBalanceChange>,
    previous: Seq<DbBalanceChange>,
    increase: bool,
) -> bool {
    forall|i: int|
        0 <= i < rows.len() ==> totals_fit(
            balance_totals(rows, previous, increase, (#[trigger] rows[i]).key()),
        )
}

/// Each record adds up everything: there is one record for each rune and address
/// that is changed and for no other, and it holds what there was before and all
/// changes.
pub proof fn balance_records_add_the_whole_group(
    rows: Seq<DbBalanceChange>,
    previous: Seq<DbBalanceChange>,
    increase: bool,
    key: (Seq<char>, Seq<char>),
)
    requires
        balances_fit(rows, previous, increase),
    ensures
        distinct_keys(balance_records(rows, previous, increase)),
        match latest(balance_records(rows, previous, increase), key) {
            Some(record) => {
                let totals = balance_totals(rows, previous, increase, key);
                &&& latest(rows, key) matches Some(last)
                &&& record.key() == key
                &&& record.block_height == last.block_height
                &&& record.balance.0 == totals.amount
                &&& record.total_operations == totals.operations
            },
            None => latest(rows, key) is None,
        },
{
    let keys = keys_in_order(rows);
    let records = balance_records(rows, previous, increase);
    lemma_keys_in_order(rows, key);
    assert forall|k: int| 0 <= k < keys.len() implies (#[trigger] records[k]).key() == keys[k] by {
        lemma_keys_in_order(rows, keys[k]);
        lemma_latest_is_listed(rows, keys[k]);
        assert(keys.contains(keys[k]));
    }
    assert forall|i: int, j: int| 0 <= i < j < records.len() implies (#[trigger] records[i]).key()
        != (#[trigger] records[j]).key() by {
        assert(keys[i] != keys[j]);
    }
    lemma_latest_is_listed(records, key);
    if latest(rows, key) is Some {
        let at = choose|at: int| 0 <= at < keys.len() && keys[at] == key;
        lemma_latest_by_key(records, keys, at);
        lemma_latest_is_listed(rows, key);
        let i = choose|i: int| 0 <= i < rows.len() && #[trigger] rows[i] == latest(rows, key)->0;
        assert(totals_fit(balance_totals(rows, previous, increase, rows[i].key())));
    } else if let Some(record) = latest(records, key) {
        let k = choose|k: int| 0 <= k < records.len() && #[trigger] records[k] == record;
        assert(keys.contains(keys[k]));
    }
}

proof fn lemma_group_totals_of_both(
    a: Seq<DbBalanceChange>,
    b: Seq<DbBalanceChange>,
    key: (Seq<char>, Seq<char>),
)
    ensures
        group_totals(a + b, key).amount == group_totals(a, key).amount + group_totals(
            b,
            key,
        ).amount,
        group_totals(a + b, key).operations == group_totals(a, key).operations + group_totals(
            b,
            key,
        ).operations,
        group_totals(b, key).amount >= 0,
    decreases b.len(),
{
    if b.len() == 0 {
        assert(a + b =~= a);
    } else {
        assert((a + b).drop_last() =~= a + b.drop_last());
        lemma_group_totals_of_both(a, b.drop_last(), key);
    }
}

/// It makes no difference where increases are cut into two batches, nor where
/// decreases of a known balance are: the second batch leads from the records after
/// the first to the same numbers and the same height.
pub proof fn cutting_balance_changes_makes_no_difference(
    first: Seq<DbBalanceChange>,
    second: Seq<DbBalanceChange>,
    previous: Seq<DbBalanceChange>,
    increase: bool,
    key: (Seq<char>, Seq<char>),
)
    requires
        balances_fit(first, previous, increase),
        latest(first, key) is Some,
        latest(second, key) is Some,
        increase || latest(previous, key) is Some,
    ensures
        balance_record(second, balance_records(first, previous, increase), increase, key)
            == balance_record(first + second, previous, increase, key),
{
    balance_records_add_the_whole_group(first, previous, increase, key);
    lemma_group_totals_of_both(first, second, key);
    lemma_latest_of_both(first, second, key);
}

/// Decreases undo increases by the same amounts: they lead back to the balance
/// before, and to zero where there was no record.
pub proof fn decreases_undo_increases(
    rows: Seq<DbBalanceChange>,
    previous: Seq<DbBalanceChange>,
    key: (Seq<char>, Seq<char>),
)
    requires
        balances_fit(rows, previous, true),
        latest(rows, key) is Some,
    ensures
        balance_record(rows, balance_records(rows, previous, true), false, key).balance.0
            == match latest(previous, key) {
            Some(record) => record.balance.0,
            None => 0,
        },
{
    balance_records_add_the_whole_group(rows, previous, true, key);
}

proof fn lemma_part_of_a_group(
    rows: Seq<DbBalanceChange>,
    k: int,
    key: (Seq<char>, Seq<char>),
)
    requires
        0 <= k <= rows.len(),
    ensures
        group_totals(rows.take(k), key).amount <= group_totals(rows, key).amount,
{
    assert(rows =~= rows.take(k) + rows.skip(k));
    lemma_group_totals_of_both(rows.take(k), rows.skip(k), key);
}

/// The record of the rune and address of one of the changes after all of them, and
/// nothing where its numbers do not fit.
fn group_record(
    rows: &Vec<DbBalanceChange>,
    start: usize,
    end: usize,
    at: usize,
    previous: &Vec<DbBalanceChange>,
    increase: bool,
) -> (r: Option<DbBalanceChange>)
    requires
        start <= at < end <= rows@.len(),
        end - start <= BATCH_SIZE,
    ensures
        ({
            let chunk = rows@.subrange(start as int, end as int);
            let key = rows@[at as int].key();
            let totals = balance_totals(chunk, previous@, increase, key);
            match r {
                Some(record) => totals_fit(totals) && record == balance_record(
                    chunk,
                    previous@,
                    increase,
                    key,
                ),
                None => !totals_fit(totals),
            }
        }),
{
    let ghost chunk = rows@.subrange(start as int, end as int);
    let ghost key = rows@[at as int].key();
    let like = &rows[at];
    let mut balance = PgTextU128(0);
    let mut operations: i128 = 0;
    let mut last: usize = at;
    let mut i: usize = start;
    while i < end
        invariant
            start <= at < end <= rows.len(),
            end - start <= BATCH_SIZE,
            start <= i <= end,
            chunk == rows@.subrange(start as int, end as int),
            key == rows@[at as int].key(),
            *like == rows@[at as int],
            balance.0 == group_totals(chunk.take(i - start), key).amount,
            operations == group_totals(chunk.take(i - start), key).operations,
            -0x8000_0000_0000_0000 * (i - start) <= operations <= 0x8000_0000_0000_0000 * (i
                - start),
            start <= last < end,
            latest(chunk.take(i - start), key) matches Some(row) ==> row == rows@[last as int],
        decreases end - i,
    {
        let row = &rows[i];
        proof {
            assert(chunk.take(i + 1 - start).drop_last() =~= chunk.take(i - start));
            assert(chunk.take(i + 1 - start).last() == *row);
            lemma_part_of_a_group(chunk, i + 1 - start, key);
        }
        if row.same_key(like) {
            if balance.0.checked_add(row.balance.0).is_none() {
                return None;
            }
            balance.add_assign(row.balance);
            operations = operations + row.total_operations as i128;
            last = i;
        }
        i += 1;
    }
    proof {
        assert(chunk.take(chunk.len() as int) =~= chunk);
        assert(chunk[at - start] == *like);
        lemma_latest_of_listed(chunk, at - start);
    }
    match find_latest(previous, like) {
        Some(found) => {
            let record = &previous[found];
            if increase {
                if balance.0.checked_add(record.balance.0).is_none() {
                    return None;
                }
                balance.add_assign(record.balance);
            } else {
                if record.balance.0 < balance.0 {
                    return None;
                }
                let mut rest = record.balance;
                rest.sub_assign(balance);
                balance = rest;
            }
            operations = operations + record.total_operations as i128;
        },
        None => {},
    }
    if operations < i64::MIN as i128 || operations > i64::MAX as i128 {
        return None;
    }
    let mut record = rows[last].clone();
    record.balance = balance;
    record.total_operations = operations as i64;
    Some(record)
}

/// Whether the numbers of every rune and address in a batch of changes fit their
/// integer types.
pub fn balance_batch_fits(
    rows: &Vec<DbBalanceChange>,
    increase: bool,
    batch: usize,
    previous: &Vec<DbBalanceChange>,
) -> (r: bool)
    ensures
        r == balances_fit(batch_rows(rows@, batch as nat), previous@, increase),
{
    let (start, end): (usize, usize) = match batch_range(rows.len(), batch) {
        Some(range) => range,
        None => {
            return true;
        },
    };
    let ghost chunk = batch_rows(rows@, batch as nat);
    let mut i: usize = start;
    while i < end
        invariant
            start <= i <= end <= rows.len(),
            end - start <= BATCH_SIZE,
            chunk == rows@.subrange(start as int, end as int),
            chunk == batch_rows(rows@, batch as nat),
            forall|k: int|
                0 <= k < i - start ==> totals_fit(
                    balance_totals(chunk, previous@, increase, (#[trigger] chunk[k]).key()),
                ),
        decreases end - i,
    {
        assert(chunk[i - start] == rows@[i as int]);
        if group_record(rows, start, end, i, previous, increase).is_none() {
            assert(!totals_fit(
                balance_totals(chunk, previous@, increase, chunk[i - start].key()),
            ));
            return false;
        }
        i += 1;
    }
    true
}

/// The records after a batch of changes.
pub fn merge_balance_changes(
    rows: &Vec<DbBalanceChange>,
    increase: bool,
    batch: usize,
    previous: &Vec<DbBalanceChange>,
) -> (r: Vec<DbBalanceChange>)
    requires
        balances_fit(batch_rows(rows@, batch as nat), previous@, increase),
    ensures
        r@ == balance_records(batch_rows(rows@, batch as nat), previous@, increase),
        distinct_keys(r@),
{
    let mut records: Vec<DbBalanceChange> = Vec::new();
    let ghost chunk = batch_rows(rows@, batch as nat);
    proof {
        balance_records_add_the_whole_group(
            chunk,
            previous@,
            increase,
            (Seq::empty(), Seq::empty()),
        );
    }
    let (start, end): (usize, usize) = match batch_range(rows.len(), batch) {
        Some(range) => range,
        None => {
            assert(records@ =~= balance_records(chunk, previous@, increase));
            return records;
        },
    };
    let mut i: usize = start;
    assert(records@ =~= records_for(Seq::empty(), chunk, previous@, increase));
    while i < end
        invariant
            start <= i <= end <= rows.len(),
            end - start <= BATCH_SIZE,
            chunk == rows@.subrange(start as int, end as int),
            balances_fit(chunk, previous@, increase),
            records@ == records_for(
                keys_in_order(chunk.take(i - start)),
                chunk,
                previous@,
                increase,
            ),
        decreases end - i,
    {
        let ghost known = keys_in_order(chunk.take(i - start));
        proof {
            assert(chunk[i - start] == rows@[i as int]);
            assert(chunk.take(i + 1 - start).drop_last() =~= chunk.take(i - start));
            assert(chunk.take(i - start) =~= rows@.subrange(start as int, i as int));
        }
        if !occurs_before(rows, start, i) {
            match group_record(rows, start, end, i, previous, increase) {
                Some(record) => {
                    records.push(record);
                    assert(records@ =~= records_for(
                        known.push(rows@[i as int].key()),
                        chunk,
                        previous@,
                        increase,
                    ));
                },
                None => {
                    // `balances_fit` leaves no such rune and address.
                    assert(false);
                },
            }
        }
        i += 1;
    }
    assert(chunk.take(chunk.len() as int) =~= chunk);
    records
}

/// The runes of changes.
pub open spec fn changed_runes(rows: Seq<DbBalanceChange>) -> Seq<Seq<char>> {
    rows.map_values(|row: DbBalanceChange| row.rune_id@)
}

/// The addresses of changes.
pub open spec fn changed_addresses(rows: Seq<DbBalanceChange>) -> Seq<Seq<char>> {
    rows.map_values(|row: DbBalanceChange| row.address@)
}

/// The statement that reads the latest record of each rune and address that is
/// changed.
pub open spec fn select_balance_changes_statement(rows: Seq<DbBalanceChange>) -> StatementView {
    StatementView {
        sql: SELECT_BALANCE_CHANGES@,
        params: seq![
            PgParamView::TextArray(changed_runes(rows)),
            PgParamView::TextArray(changed_addresses(rows)),
        ],
    }
}

/// The columns of a record.
pub open spec fn balance_change_columns(row: DbBalanceChange) -> Seq<PgParamView> {
    seq![
        PgParamView::Text(Some(row.rune_id@)),
        PgParamView::NumericU64(Some(row.block_height)),
        PgParamView::Text(Some(row.address@)),
        PgParamView::TextU128(Some(row.balance)),
        PgParamView::BigInt(row.total_operations),
    ]
}

/// The columns of several records.
pub open spec fn balance_changes_columns(rows: Seq<DbBalanceChange>) -> Seq<PgParamView> {
    flattened(rows, |row: DbBalanceChange| balance_change_columns(row))
}

/// The statement that inserts records, or updates those of the same rune, height
/// and address.
pub open spec fn insert_balance_changes_statement(rows: Seq<DbBalanceChange>) -> StatementView {
    StatementView {
        sql: INSERT_BALANCE_CHANGES@ + rows_placeholders(rows.len(), 5, ", "@)
            + UPDATE_BALANCE_CHANGES@,
        params: balance_changes_columns(rows),
    }
}

fn push_balance_change(params: &mut Vec<PgParam>, row: &DbBalanceChange)
    ensures
        params_view(final(params)@) == params_view(old(params)@) + balance_change_columns(*row),
{
    params.push(PgParam::text(&row.rune_id));
    params.push(PgParam::NumericU64(Some(row.block_height)));
    params.push(PgParam::text(&row.address));
    params.push(PgParam::TextU128(Some(row.balance)));
    params.push(PgParam::BigInt(row.total_operations));
    assert(params_view(params@) =~= params_view(old(params)@) + balance_change_columns(*row));
}

fn insert_balance_changes(records: &Vec<DbBalanceChange>) -> (r: Statement)
    ensures
        r@ == insert_balance_changes_statement(records@),
{
    let mut sql = INSERT_BALANCE_CHANGES.to_owned();
    push_rows_placeholders(&mut sql, records.len(), 5, ", ");
    sql.append(UPDATE_BALANCE_CHANGES);
    let mut params: Vec<PgParam> = Vec::new();
    let mut i: usize = 0;
    assert(params_view(params@) =~= Seq::<PgParamView>::empty());
    while i < records.len()
        invariant
            i <= records.len(),
            params_view(params@) == balance_changes_columns(records@.take(i as int)),
        decreases records.len() - i,
    {
        push_balance_change(&mut params, &records[i]);
        assert(records@.take(i + 1).drop_last() =~= records@.take(i as int));
        i += 1;
    }
    assert(records@.take(records.len() as int) =~= records@);
    Statement { sql, params }
}

fn select_balance_changes(rows: &Vec<DbBalanceChange>, start: usize, end: usize) -> (r: Statement)
    requires
        start <= end <= rows@.len(),
    ensures
        r@ == select_balance_changes_statement(rows@.subrange(start as int, end as int)),
{
    let ghost chunk = rows@.subrange(start as int, end as int);
    let mut rune_ids: Vec<String> = Vec::new();
    let mut addresses: Vec<String> = Vec::new();
    let mut i: usize = start;
    while i < end
        invariant
            start <= i <= end <= rows.len(),
            chunk == rows@.subrange(start as int, end as int),
            texts_view(rune_ids@) == changed_runes(chunk).take(i - start),
            texts_view(addresses@) == changed_addresses(chunk).take(i - start),
        decreases end - i,
    {
        let ghost runes = rune_ids@;
        let ghost known = addresses@;
        rune_ids.push(rows[i].rune_id.clone());
        addresses.push(rows[i].address.clone());
        proof {
            assert(texts_view(rune_ids@) =~= texts_view(runes).push(rune_ids@.last()@));
            assert(texts_view(rune_ids@) =~= changed_runes(chunk).take(i + 1 - start));
            assert(texts_view(addresses@) =~= texts_view(known).push(addresses@.last()@));
            assert(texts_view(addresses@) =~= changed_addresses(chunk).take(i + 1 - start));
        }
        i += 1;
    }
    assert(changed_runes(chunk).take(end - start) =~= changed_runes(chunk));
    assert(changed_addresses(chunk).take(end - start) =~= changed_addresses(chunk));
    let mut params: Vec<PgParam> = Vec::new();
    params.push(PgParam::TextArray(rune_ids));
    params.push(PgParam::TextArray(addresses));
    let statement = Statement { sql: SELECT_BALANCE_CHANGES.to_owned(), params };
    assert(statement@.params =~= select_balance_changes_statement(chunk).params);
    statement
}

/// Merges changes into the records of their runes and addresses, in batches.
/// `batch` is the number of batches that were inserted.
pub fn pg_insert_balance_changes(
    rows: &Vec<DbBalanceChange>,
    increase: bool,
    batch: usize,
    reply: &MergeReply<DbBalanceChange>,
) -> (r: Step<bool>)
    requires
        *reply matches MergeReply::Previous(previous) ==> balances_fit(
            batch_rows(rows@, batch as nat),
            previous@,
            increase,
        ),
    ensures
        r@ == merge_step(
            rows@,
            batch as nat,
            *reply,
            |rows: Seq<DbBalanceChange>| select_balance_changes_statement(rows),
            |rows: Seq<DbBalanceChange>, previous: Seq<DbBalanceChange>|
                insert_balance_changes_statement(balance_records(rows, previous, increase)),
        ),
{
    match reply {
        MergeReply::Begun | MergeReply::Inserted => match batch_range(rows.len(), batch) {
            Some((start, end)) => Step::Run(select_balance_changes(rows, start, end)),
            None => Step::Finish(true),
        },
        MergeReply::Previous(previous) => {
            let records = merge_balance_changes(rows, increase, batch, previous);
            Step::Run(insert_balance_changes(&records))
        },
        MergeReply::ReadFailed => Step::Fail,
        MergeReply::InsertFailed => Step::Exit(1),
    }
}

} // verus!

//! The table of supply changes.

use vstd::prelude::*;

use crate::db::keyed::{
    distinct_keys, find_latest, keys_in_order, latest, lemma_keys_in_order, lemma_latest_by_key,
    lemma_latest_is_listed, lemma_latest_of_both, lemma_latest_of_listed, occurs_before, Keyed,
};
use crate::db::models::db_supply_change::DbSupplyChange;
use crate::db::placeholders::{push_rows_placeholders, rows_placeholders};
use crate::db::statement::{
    flattened, params_view, texts_view, PgParam, PgParamView, Statement, StatementView,
};
use crate::db::step::{batch_range, batch_rows, merge_step, MergeReply, Step};
use crate::db::types::pg_text_u128::PgTextU128;

verus! {

pub const SELECT_SUPPLY_CHANGES: &'static str = "SELECT * FROM (
                SELECT DISTINCT ON (rune_id) *
                FROM supply_changes
                WHERE rune_id = ANY($1::text[])
                ORDER BY rune_id, block_height DESC
            ) sub";

pub const INSERT_SUPPLY_CHANGES: &'static str = "INSERT INTO supply_changes (rune_id, block_height, minted, total_mints, burned, total_burns, total_operations)
                 VALUES ";

pub const UPDATE_SUPPLY_CHANGES: &'static str = " 
                 ON CONFLICT (rune_id, block_height) DO UPDATE SET
                     minted = EXCLUDED.minted,
                     total_mints = EXCLUDED.total_mints,
                     burned = EXCLUDED.burned,
                     total_burns = EXCLUDED.total_burns,
                     total_operations = EXCLUDED.total_operations";

impl Keyed for DbSupplyChange {
    type Key = Seq<char>;

    open spec fn key(&self) -> Seq<char> {
        self.rune_id@
    }

    fn same_key(&self, other: &Self) -> (r: bool) {
        self.rune_id == other.rune_id
    }
}

/// What changes add up to.
pub struct SupplyTotals {
    pub minted: nat,
    pub total_mints: nat,
    pub burned: nat,
    pub total_burns: nat,
    pub total_operations: nat,
}

/// The numbers of a change or a record.
pub open spec fn totals_of(row: DbSupplyChange) -> SupplyTotals {
    SupplyTotals {
        minted: row.minted.0 as nat,
        total_mints: row.total_mints.0 as nat,
        burned: row.burned.0 as nat,
        total_burns: row.total_burns.0 as nat,
        total_operations: row.total_operations.0 as nat,
    }
}

/// Nothing at all.
pub open spec fn no_totals() -> SupplyTotals {
    SupplyTotals { minted: 0, total_mints: 0, burned: 0, total_burns: 0, total_operations: 0 }
}

/// The sums, number by number.
pub open spec fn totals_sum(a: SupplyTotals, b: SupplyTotals) -> SupplyTotals {
    SupplyTotals {
        minted: a.minted + b.minted,
        total_mints: a.total_mints + b.total_mints,
        burned: a.burned + b.burned,
        total_burns: a.total_burns + b.total_burns,
        total_operations: a.total_operations + b.total_operations,
    }
}

/// Whether the numbers fit the integer type.
pub open spec fn totals_fit(totals: SupplyTotals) -> bool {
    &&& totals.minted <= u128::MAX
    &&& totals.total_mints <= u128::MAX
    &&& totals.burned <= u128::MAX
    &&& totals.total_burns <= u128::MAX
    &&& totals.total_operations <= u128::MAX
}

/// What the changes to a rune add up to.
pub open spec fn group_totals(rows: Seq<DbSupplyChange>, rune_id: Seq<char>) -> SupplyTotals
    decreases rows.len(),
{
    if rows.len() == 0 {
        no_totals()
    } else {
        let before = group_totals(rows.drop_last(), rune_id);
        if rows.last().key() == rune_id {
            totals_sum(before, totals_of(rows.last()))
        } else {
            before
        }
    }
}

/// The numbers of a rune before the changes: none where it has no record yet.
pub open spec fn previous_totals(
    previous: Seq<DbSupplyChange>,
    rune_id: Seq<char>,
) -> SupplyTotals {
    match latest(previous, rune_id) {
        Some(record) => totals_of(record),
        None => no_totals(),
    }
}

/// The numbers of a rune after the changes: those before them, and all changes to
/// the rune.
pub open spec fn supply_totals(
    rows: Seq<DbSupplyChange>,
    previous: Seq<DbSupplyChange>,
    rune_id: Seq<char>,
) -> SupplyTotals {
    totals_sum(previous_totals(previous, rune_id), group_totals(rows, rune_id))
}

/// The record of a rune after the changes, at the height of the last change to it.
pub open spec fn supply_record(
    rows: Seq<DbSupplyChange>,
    previous: Seq<DbSupplyChange>,
    rune_id: Seq<char>,
) -> DbSupplyChange {
    let last = latest(rows, rune_id)->0;
    let totals = supply_totals(rows, previous, rune_id);
    DbSupplyChange {
        rune_id: last.rune_id,
        block_height: last.block_height,
        minted: PgTextU128(totals.minted as u128),
        total_mints: PgTextU128(totals.total_mints as u128),
        burned: PgTextU128(totals.burned as u128),
        total_burns: PgTextU128(totals.total_burns as u128),
        total_operations: PgTextU128(totals.total_operations as u128),
    }
}

/// The records after the changes, one for each rune that is changed, in the order
/// in which the runes first occur.
pub open spec fn supply_records(
    rows: Seq<DbSupplyChange>,
    previous: Seq<DbSupplyChange>,
) -> Seq<DbSupplyChange> {
    records_for(keys_in_order(rows), rows, previous)
}

/// The records of runes after the changes.
pub open spec fn records_for(
    runes: Seq<Seq<char>>,
    rows: Seq<DbSupplyChange>,
    previous: Seq<DbSupplyChange>,
) -> Seq<DbSupplyChange> {
    runes.map_values(|rune_id: Seq<char>| supply_record(rows, previous, rune_id))
}

/// Whether the numbers of every changed rune fit the integer type.
pub open spec fn supplies_fit(rows: Seq<DbSupplyChange>, previous: Seq<DbSupplyChange>) -> bool {
    forall|i: int|
        0 <= i < rows.len() ==> totals_fit(
            supply_totals(rows, previous, (#[trigger] rows[i]).key()),
        )
}

/// Each record adds up everything: there is one record for each rune that is changed
/// and for no other, and it holds what the rune had before and all changes to it.
pub proof fn supply_records_add_the_whole_group(
    rows: Seq<DbSupplyChange>,
    previous: Seq<DbSupplyChange>,
    rune_id: Seq<char>,
)
    requires
        supplies_fit(rows, previous),
    ensures
        distinct_keys(supply_records(rows, previous)),
        match latest(supply_records(rows, previous), rune_id) {
            Some(record) => {
                &&& latest(rows, rune_id) matches Some(last)
                &&& record.key() == rune_id
                &&& record.block_height == last.block_height
                &&& totals_of(record) == supply_totals(rows, previous, rune_id)
            },
            None => latest(rows, rune_id) is None,
        },
{
    let runes = keys_in_order(rows);
    let records = supply_records(rows, previous);
    lemma_keys_in_order(rows, rune_id);
    assert forall|k: int| 0 <= k < runes.len() implies (#[trigger] records[k]).key()
        == runes[k] by {
        lemma_keys_in_order(rows, runes[k]);
        lemma_latest_is_listed(rows, runes[k]);
        assert(runes.contains(runes[k]));
    }
    assert forall|i: int, j: int| 0 <= i < j < records.len() implies (#[trigger] records[i]).key()
        != (#[trigger] records[j]).key() by {
        assert(runes[i] != runes[j]);
    }
    lemma_latest_is_listed(records, rune_id);
    if latest(rows, rune_id) is Some {
        let at = choose|at: int| 0 <= at < runes.len() && runes[at] == rune_id;
        lemma_latest_by_key(records, runes, at);
        lemma_latest_is_listed(rows, rune_id);
        let i = choose|i: int|
            0 <= i < rows.len() && #[trigger] rows[i] == latest(rows, rune_id)->0;
        assert(totals_fit(supply_totals(rows, previous, rows[i].key())));
    } else if let Some(record) = latest(records, rune_id) {
        let k = choose|k: int| 0 <= k < records.len() && #[trigger] records[k] == record;
        assert(runes.contains(runes[k]));
    }
}

proof fn lemma_group_totals_of_both(
    a: Seq<DbSupplyChange>,
    b: Seq<DbSupplyChange>,
    rune_id: Seq<char>,
)
    ensures
        group_totals(a + b, rune_id) == totals_sum(
            group_totals(a, rune_id),
            group_totals(b, rune_id),
        ),
    decreases b.len(),
{
    if b.len() == 0 {
        assert(a + b =~= a);
    } else {
        assert((a + b).drop_last() =~= a + b.drop_last());
        lemma_group_totals_of_both(a, b.drop_last(), rune_id);
    }
}

/// It makes no difference where changes are cut into two batches: the second batch
/// leads from the records after the first to the same numbers and the same height.
pub proof fn cutting_supply_changes_makes_no_difference(
    first: Seq<DbSupplyChange>,
    second: Seq<DbSupplyChange>,
    previous: Seq<DbSupplyChange>,
    rune_id: Seq<char>,
)
    requires
        supplies_fit(first, previous),
        latest(first, rune_id) is Some,
        latest(second, rune_id) is Some,
    ensures
        supply_record(second, supply_records(first, previous), rune_id) == supply_record(
            first + second,
            previous,
            rune_id,
        ),
{
    supply_records_add_the_whole_group(first, previous, rune_id);
    lemma_group_totals_of_both(first, second, rune_id);
    lemma_latest_of_both(first, second, rune_id);
}

proof fn lemma_group_counts_every_operation(rows: Seq<DbSupplyChange>, rune_id: Seq<char>)
    requires
        forall|i: int| 0 <= i < rows.len() ==> (#[trigger] rows[i]).counts_every_operation(),
    ensures
        ({
            let totals = group_totals(rows, rune_id);
            totals.total_mints + totals.total_burns <= totals.total_operations
        }),
    decreases rows.len(),
{
    if rows.len() > 0 {
        let rest = rows.drop_last();
        assert forall|i: int| 0 <= i < rest.len() implies (
        #[trigger] rest[i]).counts_every_operation() by {
            assert(rows[i].counts_every_operation());
        }
        lemma_group_counts_every_operation(rest, rune_id);
        assert(rows[rows.len() - 1].counts_every_operation());
    }
}

/// Where every mint and burn is counted as an operation in the changes and in the
/// records before them, it is in the records after them.
pub proof fn records_count_every_operation(
    rows: Seq<DbSupplyChange>,
    previous: Seq<DbSupplyChange>,
    i: int,
)
    requires
        supplies_fit(rows, previous),
        forall|k: int| 0 <= k < rows.len() ==> (#[trigger] rows[k]).counts_every_operation(),
        forall|k: int|
            0 <= k < previous.len() ==> (#[trigger] previous[k]).counts_every_operation(),
        0 <= i < supply_records(rows, previous).len(),
    ensures
        supply_records(rows, previous)[i].counts_every_operation(),
{
    let rune_id = keys_in_order(rows)[i];
    assert(keys_in_order(rows).contains(rune_id));
    lemma_keys_in_order(rows, rune_id);
    supply_records_add_the_whole_group(rows, previous, rune_id);
    lemma_latest_is_listed(rows, rune_id);
    let k = choose|k: int| 0 <= k < rows.len() && #[trigger] rows[k] == latest(rows, rune_id)->0;
    assert(totals_fit(supply_totals(rows, previous, rows[k].key())));
    lemma_group_counts_every_operation(rows, rune_id);
    lemma_latest_is_listed(previous, rune_id);
}

proof fn lemma_part_of_a_group(rows: Seq<DbSupplyChange>, k: int, rune_id: Seq<char>)
    requires
        0 <= k <= rows.len(),
    ensures
        group_totals(rows, rune_id) == totals_sum(
            group_totals(rows.take(k), rune_id),
            group_totals(rows.skip(k), rune_id),
        ),
{
    assert(rows =~= rows.take(k) + rows.skip(k));
    lemma_group_totals_of_both(rows.take(k), rows.skip(k), rune_id);
}

fn sum_fits(a: PgTextU128, b: PgTextU128) -> (r: bool)
    ensures
        r == (a.0 + b.0 <= u128::MAX),
{
    a.0.checked_add(b.0).is_some()
}

/// Adds a change to a record, which moves to the height of the change, and tells
/// whether the sums fit. Where they do not, the record stays.
fn add_change(record: &mut DbSupplyChange, row: &DbSupplyChange) -> (r: bool)
    ensures
        r == totals_fit(totals_sum(totals_of(*old(record)), totals_of(*row))),
        r ==> {
            &&& final(record).rune_id == row.rune_id
            &&& final(record).block_height == row.block_height
            &&& totals_of(*final(record)) == totals_sum(totals_of(*old(record)), totals_of(*row))
        },
        !r ==> *final(record) == *old(record),
{
    let fits = sum_fits(record.minted, row.minted)
        && sum_fits(record.total_mints, row.total_mints)
        && sum_fits(record.burned, row.burned)
        && sum_fits(record.total_burns, row.total_burns)
        && sum_fits(record.total_operations, row.total_operations);
    if fits {
        record.rune_id = row.rune_id.clone();
        record.block_height = row.block_height;
        record.minted.add_assign(row.minted);
        record.total_mints.add_assign(row.total_mints);
        record.burned.add_assign(row.burned);
        record.total_burns.add_assign(row.total_burns);
        record.total_operations.add_assign(row.total_operations);
    }
    fits
}

/// The record of the rune of one of the changes after all of them, and nothing where
/// its numbers do not fit.
fn group_record(
    rows: &Vec<DbSupplyChange>,
    start: usize,
    end: usize,
    at: usize,
    previous: &Vec<DbSupplyChange>,
) -> (r: Option<DbSupplyChange>)
    requires
        start <= at < end <= rows@.len(),
    ensures
        ({
            let chunk = rows@.subrange(start as int, end as int);
            let rune_id = rows@[at as int].key();
            let totals = supply_totals(chunk, previous@, rune_id);
            match r {
                Some(record) => totals_fit(totals) && record == supply_record(
                    chunk,
                    previous@,
                    rune_id,
                ),
                None => !totals_fit(totals),
            }
        }),
{
    let ghost chunk = rows@.subrange(start as int, end as int);
    let ghost rune_id = rows@[at as int].key();
    let ghost base = previous_totals(previous@, rune_id);
    let like = &rows[at];
    let mut record = match find_latest(previous, like) {
        Some(found) => previous[found].clone(),
        None => DbSupplyChange {
            rune_id: like.rune_id.clone(),
            block_height: like.block_height,
            minted: PgTextU128(0),
            total_mints: PgTextU128(0),
            burned: PgTextU128(0),
            total_burns: PgTextU128(0),
            total_operations: PgTextU128(0),
        },
    };
    let mut i: usize = start;
    while i < end
        invariant
            start <= at < end <= rows.len(),
            start <= i <= end,
            chunk == rows@.subrange(start as int, end as int),
            rune_id == rows@[at as int].key(),
            *like == rows@[at as int],
            base == previous_totals(previous@, rune_id),
            totals_of(record) == totals_sum(
                base,
                group_totals(chunk.take(i - start), rune_id),
            ),
            latest(chunk.take(i - start), rune_id) matches Some(last) ==> record.rune_id
                == last.rune_id && record.block_height == last.block_height,
        decreases end - i,
    {
        proof {
            assert(chunk.take(i + 1 - start).drop_last() =~= chunk.take(i - start));
            assert(chunk.take(i + 1 - start).last() == rows@[i as int]);
            lemma_part_of_a_group(chunk, i + 1 - start, rune_id);
        }
        if rows[i].same_key(like) {
            if !add_change(&mut record, &rows[i]) {
                return None;
            }
        }
        i += 1;
    }
    proof {
        assert(chunk.take(chunk.len() as int) =~= chunk);
        assert(chunk[at - start] == rows@[at as int]);
        lemma_latest_of_listed(chunk, at - start);
    }
    Some(record)
}

/// Whether the numbers of every rune in a batch of changes fit the integer type.
pub fn supply_batch_fits(
    rows: &Vec<DbSupplyChange>,
    batch: usize,
    previous: &Vec<DbSupplyChange>,
) -> (r: bool)
    ensures
        r == supplies_fit(batch_rows(rows@, batch as nat), previous@),
{
    let (start, end): (usize, usize) = match batch_range(rows.len(), batch) {
        Some(range) => range,
        None => {
            return true;
        },
    };
    let ghost chunk = batch_rows(rows@, batch as nat);
    let mut i: usize = start;
    while i < end
        invariant
            start <= i <= end <= rows.len(),
            chunk == rows@.subrange(start as int, end as int),
            chunk == batch_rows(rows@, batch as nat),
            forall|k: int|
                0 <= k < i - start ==> totals_fit(
                    supply_totals(chunk, previous@, (#[trigger] chunk[k]).key()),
                ),
        decreases end - i,
    {
        assert(chunk[i - start] == rows@[i as int]);
        if group_record(rows, start, end, i, previous).is_none() {
            assert(!totals_fit(supply_totals(chunk, previous@, chunk[i - start].key())));
            return false;
        }
        i += 1;
    }
    true
}

/// The records after a batch of changes.
pub fn merge_supply_changes(
    rows: &Vec<DbSupplyChange>,
    batch: usize,
    previous: &Vec<DbSupplyChange>,
) -> (r: Vec<DbSupplyChange>)
    requires
        supplies_fit(batch_rows(rows@, batch as nat), previous@),
    ensures
        r@ == supply_records(batch_rows(rows@, batch as nat), previous@),
        distinct_keys(r@),
{
    let mut records: Vec<DbSupplyChange> = Vec::new();
    let ghost chunk = batch_rows(rows@, batch as nat);
    proof {
        supply_records_add_the_whole_group(chunk, previous@, Seq::empty());
    }
    let (start, end): (usize, usize) = match batch_range(rows.len(), batch) {
        Some(range) => range,
        None => {
            assert(records@ =~= supply_records(chunk, previous@));
            return records;
        },
    };
    let mut i: usize = start;
    assert(records@ =~= records_for(Seq::empty(), chunk, previous@));
    while i < end
        invariant
            start <= i <= end <= rows.len(),
            chunk == rows@.subrange(start as int, end as int),
            supplies_fit(chunk, previous@),
            records@ == records_for(keys_in_order(chunk.take(i - start)), chunk, previous@),
        decreases end - i,
    {
        let ghost known = keys_in_order(chunk.take(i - start));
        proof {
            assert(chunk[i - start] == rows@[i as int]);
            assert(chunk.take(i + 1 - start).drop_last() =~= chunk.take(i - start));
            assert(chunk.take(i - start) =~= rows@.subrange(start as int, i as int));
        }
        if !occurs_before(rows, start, i) {
            match group_record(rows, start, end, i, previous) {
                Some(record) => {
                    records.push(record);
                    assert(records@ =~= records_for(
                        known.push(rows@[i as int].key()),
                        chunk,
                        previous@,
                    ));
                },
                None => {
                    // `supplies_fit` leaves no such rune.
                    assert(false);
                },
            }
        }
        i += 1;
    }
    assert(chunk.take(chunk.len() as int) =~= chunk);
    records
}

/// The runes of changes.
pub open spec fn changed_runes(rows: Seq<DbSupplyChange>) -> Seq<Seq<char>> {
    rows.map_values(|row: DbSupplyChange| row.rune_id@)
}

/// The statement that reads the latest record of each rune that is changed.
pub open spec fn select_supply_changes_statement(rows: Seq<DbSupplyChange>) -> StatementView {
    StatementView {
        sql: SELECT_SUPPLY_CHANGES@,
        params: seq![PgParamView::TextArray(changed_runes(rows))],
    }
}

/// The columns of a record.
pub open spec fn supply_change_columns(row: DbSupplyChange) -> Seq<PgParamView> {
    seq![
        PgParamView::Text(Some(row.rune_id@)),
        PgParamView::NumericU64(Some(row.block_height)),
        PgParamView::TextU128(Some(row.minted)),
        PgParamView::TextU128(Some(row.total_mints)),
        PgParamView::TextU128(Some(row.burned)),
        PgParamView::TextU128(Some(row.total_burns)),
        PgParamView::TextU128(Some(row.total_operations)),
    ]
}

/// The columns of several records.
pub open spec fn supply_changes_columns(rows: Seq<DbSupplyChange>) -> Seq<PgParamView> {
    flattened(rows, |row: DbSupplyChange| supply_change_columns(row))
}

/// The statement that inserts records, or updates those of the same rune and
/// height.
pub open spec fn insert_supply_changes_statement(rows: Seq<DbSupplyChange>) -> StatementView {
    StatementView {
        sql: INSERT_SUPPLY_CHANGES@ + rows_placeholders(rows.len(), 7, ", "@)
            + UPDATE_SUPPLY_CHANGES@,
        params: supply_changes_columns(rows),
    }
}

fn push_supply_change(params: &mut Vec<PgParam>, row: &DbSupplyChange)
    ensures
        params_view(final(params)@) == params_view(old(params)@) + supply_change_columns(*row),
{
    params.push(PgParam::text(&row.rune_id));
    params.push(PgParam::NumericU64(Some(row.block_height)));
    params.push(PgParam::TextU128(Some(row.minted)));
    params.push(PgParam::TextU128(Some(row.total_mints)));
    params.push(PgParam::TextU128(Some(row.burned)));
    params.push(PgParam::TextU128(Some(row.total_burns)));
    params.push(PgParam::TextU128(Some(row.total_operations)));
    assert(params_view(params@) =~= params_view(old(params)@) + supply_change_columns(*row));
}

fn insert_supply_changes(records: &Vec<DbSupplyChange>) -> (r: Statement)
    ensures
        r@ == insert_supply_changes_statement(records@),
{
    let mut sql = INSERT_SUPPLY_CHANGES.to_owned();
    push_rows_placeholders(&mut sql, records.len(), 7, ", ");
    sql.append(UPDATE_SUPPLY_CHANGES);
    let mut params: Vec<PgParam> = Vec::new();
    let mut i: usize = 0;
    assert(params_view(params@) =~= Seq::<PgParamView>::empty());
    while i < records.len()
        invariant
            i <= records.len(),
            params_view(params@) == supply_changes_columns(records@.take(i as int)),
        decreases records.len() - i,
    {
        push_supply_change(&mut params, &records[i]);
        assert(records@.take(i + 1).drop_last() =~= records@.take(i as int));
        i += 1;
    }
    assert(records@.take(records.len() as int) =~= records@);
    Statement { sql, params }
}

fn select_supply_changes(rows: &Vec<DbSupplyChange>, start: usize, end: usize) -> (r: Statement)
    requires
        start <= end <= rows@.len(),
    ensures
        r@ == select_supply_changes_statement(rows@.subrange(start as int, end as int)),
{
    let ghost chunk = rows@.subrange(start as int, end as int);
    let mut rune_ids: Vec<String> = Vec::new();
    let mut i: usize = start;
    while i < end
        invariant
            start <= i <= end <= rows.len(),
            chunk == rows@.subrange(start as int, end as int),
            texts_view(rune_ids@) == changed_runes(chunk).take(i - start),
        decreases end - i,
    {
        let ghost before = rune_ids@;
        rune_ids.push(rows[i].rune_id.clone());
        assert(texts_view(rune_ids@) =~= texts_view(before).push(rune_ids@.last()@));
        assert(texts_view(rune_ids@) =~= changed_runes(chunk).take(i + 1 - start));
        i += 1;
    }
    assert(changed_runes(chunk).take(end - start) =~= changed_runes(chunk));
    let mut params: Vec<PgParam> = Vec::new();
    params.push(PgParam::TextArray(rune_ids));
    let statement = Statement { sql: SELECT_SUPPLY_CHANGES.to_owned(), params };
    assert(statement@.params =~= select_supply_changes_statement(chunk).params);
    statement
}

/// Merges changes into the records of their runes, in batches. `batch` is the
/// number of batches that were inserted.
pub fn pg_insert_supply_changes(
    rows: &Vec<DbSupplyChange>,
    batch: usize,
    reply: &MergeReply<DbSupplyChange>,
) -> (r: Step<bool>)
    requires
        *reply matches MergeReply::Previous(previous) ==> supplies_fit(
            batch_rows(rows@, batch as nat),
            previous@,
        ),
    ensures
        r@ == merge_step(
            rows@,
            batch as nat,
            *reply,
            |rows: Seq<DbSupplyChange>| select_supply_changes_statement(rows),
            |rows: Seq<DbSupplyChange>, previous: Seq<DbSupplyChange>|
                insert_supply_changes_statement(supply_records(rows, previous)),
        ),
{
    match reply {
        MergeReply::Begun | MergeReply::Inserted => match batch_range(rows.len(), batch) {
            Some((start, end)) => Step::Run(select_supply_changes(rows, start, end)),
            None => Step::Finish(true),
        },
        MergeReply::Previous(previous) => {
            let records = merge_supply_changes(rows, batch, previous);
            Step::Run(insert_supply_changes(&records))
        },
        MergeReply::ReadFailed => Step::Fail,
        MergeReply::InsertFailed => Step::Exit(1),
    }
}

} // verus!

//! What the records after a batch of changes hold, number by number.

use vstd::prelude::*;

use crate::db::balance::{balance_record, balance_records, balance_totals, balances_fit};
use crate::db::keyed::{
    keys_in_order, latest, lemma_keys_in_order, lemma_latest_is_listed, lemma_latest_of_listed,
    Keyed,
};
use crate::db::models::db_balance_change::DbBalanceChange;
use crate::db::models::db_supply_change::DbSupplyChange;
use crate::db::supply::{
    group_totals, supplies_fit, supply_record, supply_records, supply_totals, totals_fit,
};

verus! {

/// The numbers that are kept of the supply of a rune.
pub enum SupplyNumber {
    Minted,
    TotalMints,
    Burned,
    TotalBurns,
    TotalOperations,
}

/// A number of a change or a record.
pub open spec fn supply_number(row: DbSupplyChange, which: SupplyNumber) -> int {
    match which {
        SupplyNumber::Minted => row.minted.0 as int,
        SupplyNumber::TotalMints => row.total_mints.0 as int,
        SupplyNumber::Burned => row.burned.0 as int,
        SupplyNumber::TotalBurns => row.total_burns.0 as int,
        SupplyNumber::TotalOperations => row.total_operations.0 as int,
    }
}

/// A number, added up over the changes to a rune.
pub open spec fn supply_sum(
    rows: Seq<DbSupplyChange>,
    rune_id: Seq<char>,
    which: SupplyNumber,
) -> int
    decreases rows.len(),
{
    if rows.len() == 0 {
        0
    } else {
        supply_sum(rows.drop_last(), rune_id, which) + if rows.last().rune_id@ == rune_id {
            supply_number(rows.last(), which)
        } else {
            0
        }
    }
}

/// A number of a rune in the last of its records, and zero where it has none.
pub open spec fn supply_before(
    previous: Seq<DbSupplyChange>,
    rune_id: Seq<char>,
    which: SupplyNumber,
) -> int
    decreases previous.len(),
{
    if previous.len() == 0 {
        0
    } else if previous.last().rune_id@ == rune_id {
        supply_number(previous.last(), which)
    } else {
        supply_before(previous.drop_last(), rune_id, which)
    }
}

proof fn lemma_supply_numbers(
    rows: Seq<DbSupplyChange>,
    rune_id: Seq<char>,
)
    ensures
        ({
            let totals = group_totals(rows, rune_id);
            &&& totals.minted == supply_sum(rows, rune_id, SupplyNumber::Minted)
            &&& totals.total_mints == supply_sum(rows, rune_id, SupplyNumber::TotalMints)
            &&& totals.burned == supply_sum(rows, rune_id, SupplyNumber::Burned)
            &&& totals.total_burns == supply_sum(rows, rune_id, SupplyNumber::TotalBurns)
            &&& totals.total_operations == supply_sum(rows, rune_id, SupplyNumber::TotalOperations)
        }),
    decreases rows.len(),
{
    if rows.len() > 0 {
        lemma_supply_numbers(rows.drop_last(), rune_id);
    }
}

proof fn lemma_supply_before(
    previous: Seq<DbSupplyChange>,
    rune_id: Seq<char>,
    which: SupplyNumber,
)
    ensures
        supply_before(previous, rune_id, which) == match latest(previous, rune_id) {
            Some(record) => supply_number(record, which),
            None => 0,
        },
    decreases previous.len(),
{
    if previous.len() > 0 {
        lemma_supply_before(previous.drop_last(), rune_id, which);
    }
}

proof fn lemma_supply_after(
    rows: Seq<DbSupplyChange>,
    previous: Seq<DbSupplyChange>,
    rune_id: Seq<char>,
)
    ensures
        ({
            let totals = supply_totals(rows, previous, rune_id);
            let after = |which: SupplyNumber|
                supply_before(previous, rune_id, which) + supply_sum(rows, rune_id, which);
            &&& totals.minted == after(SupplyNumber::Minted)
            &&& totals.total_mints == after(SupplyNumber::TotalMints)
            &&& totals.burned == after(SupplyNumber::Burned)
            &&& totals.total_burns == after(SupplyNumber::TotalBurns)
            &&& totals.total_operations == after(SupplyNumber::TotalOperations)
        }),
{
    lemma_supply_numbers(rows, rune_id);
    lemma_supply_before(previous, rune_id, SupplyNumber::Minted);
    lemma_supply_before(previous, rune_id, SupplyNumber::TotalMints);
    lemma_supply_before(previous, rune_id, SupplyNumber::Burned);
    lemma_supply_before(previous, rune_id, SupplyNumber::TotalBurns);
    lemma_supply_before(previous, rune_id, SupplyNumber::TotalOperations);
}

/// Each number in the record of a rune is the number in its last record before the batch,
/// zero where it has none, plus the sum of that number over all changes to the rune in the
/// batch. The height is that of the last of these changes.
pub proof fn supply_record_adds_each_number(
    rows: Seq<DbSupplyChange>,
    previous: Seq<DbSupplyChange>,
    which: SupplyNumber,
    last: int,
    k: int,
)
    requires
        supplies_fit(rows, previous),
        0 <= k < supply_records(rows, previous).len(),
        0 <= last < rows.len(),
        rows[last].rune_id@ == supply_records(rows, previous)[k].rune_id@,
        forall|i: int|
            last < i < rows.len() ==> (#[trigger] rows[i]).rune_id@ != rows[last].rune_id@,
    ensures
        ({
            let record = supply_records(rows, previous)[k];
            &&& supply_number(record, which) == supply_before(previous, record.rune_id@, which)
                + supply_sum(rows, record.rune_id@, which)
            &&& record.block_height == rows[last].block_height
        }),
{
    let rune_id = rows[last].rune_id@;
    let record = supply_records(rows, previous)[k];
    lemma_record_of_supply(rows, previous, k);
    lemma_supply_after(rows, previous, rune_id);
    assert(totals_fit(supply_totals(rows, previous, rows[last].key())));
    lemma_last_is_latest(rows, last);
}

proof fn lemma_last_is_latest<R: Keyed>(rows: Seq<R>, last: int)
    requires
        0 <= last < rows.len(),
        forall|i: int| last < i < rows.len() ==> (#[trigger] rows[i]).key() != rows[last].key(),
    ensures
        latest(rows, rows[last].key()) == Some(rows[last]),
    decreases rows.len(),
{
    if last < rows.len() - 1 {
        let rest = rows.drop_last();
        assert(rows[rows.len() - 1].key() != rows[last].key());
        assert(rest[last] == rows[last]);
        assert forall|i: int| last < i < rest.len() implies (#[trigger] rest[i]).key()
            != rest[last].key() by {
            assert(rest[i] == rows[i]);
        }
        lemma_last_is_latest(rest, last);
    }
}

proof fn lemma_record_of_supply(
    rows: Seq<DbSupplyChange>,
    previous: Seq<DbSupplyChange>,
    k: int,
)
    requires
        0 <= k < supply_records(rows, previous).len(),
    ensures
        supply_records(rows, previous)[k] == supply_record(
            rows,
            previous,
            supply_records(rows, previous)[k].rune_id@,
        ),
        latest(rows, supply_records(rows, previous)[k].rune_id@) is Some,
        keys_in_order(rows)[k] == supply_records(rows, previous)[k].rune_id@,
{
    let key = keys_in_order(rows)[k];
    assert(keys_in_order(rows).contains(key));
    lemma_keys_in_order(rows, key);
    lemma_latest_is_listed(rows, key);
}

/// The records are on the runes that are changed: every change has the record of its rune,
/// every record is on a rune that is changed, and no two are on the same rune.
pub proof fn changed_runes_have_one_record_each(
    rows: Seq<DbSupplyChange>,
    previous: Seq<DbSupplyChange>,
)
    ensures
        forall|i: int|
            0 <= i < rows.len() ==> exists|k: int|
                0 <= k < supply_records(rows, previous).len() && (#[trigger] supply_records(
                    rows,
                    previous,
                )[k]).rune_id@ == (#[trigger] rows[i]).rune_id@,
        forall|k: int|
            0 <= k < supply_records(rows, previous).len() ==> exists|i: int|
                0 <= i < rows.len() && (#[trigger] rows[i]).rune_id@ == (#[trigger] supply_records(
                    rows,
                    previous,
                )[k]).rune_id@,
        forall|j: int, k: int|
            0 <= j < k < supply_records(rows, previous).len() ==> (#[trigger] supply_records(
                rows,
                previous,
            )[j]).rune_id@ != (#[trigger] supply_records(rows, previous)[k]).rune_id@,
{
    let records = supply_records(rows, previous);
    let keys = keys_in_order(rows);
    assert forall|i: int| 0 <= i < rows.len() implies exists|k: int|
        0 <= k < records.len() && (#[trigger] records[k]).rune_id@ == (
        #[trigger] rows[i]).rune_id@ by {
        lemma_keys_in_order(rows, rows[i].key());
        lemma_latest_of_listed(rows, i);
        let k = choose|k: int| 0 <= k < keys.len() && keys[k] == rows[i].key();
        lemma_record_of_supply(rows, previous, k);
        assert(records[k].rune_id@ == rows[i].rune_id@);
    }
    assert forall|k: int| 0 <= k < records.len() implies exists|i: int|
        0 <= i < rows.len() && (#[trigger] rows[i]).rune_id@ == (
        #[trigger] records[k]).rune_id@ by {
        lemma_record_of_supply(rows, previous, k);
        lemma_latest_is_listed(rows, records[k].rune_id@);
        let row = latest(rows, records[k].rune_id@)->0;
        let i = choose|i: int| 0 <= i < rows.len() && #[trigger] rows[i] == row;
        assert(rows[i].rune_id@ == records[k].rune_id@);
    }
    assert forall|j: int, k: int| 0 <= j < k < records.len() implies (
    #[trigger] records[j]).rune_id@ != (#[trigger] records[k]).rune_id@ by {
        lemma_record_of_supply(rows, previous, j);
        lemma_record_of_supply(rows, previous, k);
        lemma_keys_in_order(rows, keys[j]);
        assert(keys[j] != keys[k]);
    }
}

/// The numbers fit exactly where no number of a changed rune passes the integer type.
pub proof fn supplies_fit_where_each_number_does(
    rows: Seq<DbSupplyChange>,
    previous: Seq<DbSupplyChange>,
)
    ensures
        supplies_fit(rows, previous) <==> forall|i: int, which: SupplyNumber|
            0 <= i < rows.len() ==> supply_before(previous, rows[i].rune_id@, which)
                + #[trigger] supply_sum(rows, rows[i].rune_id@, which) <= u128::MAX,
{
    if supplies_fit(rows, previous) {
        assert forall|i: int, which: SupplyNumber| 0 <= i < rows.len() implies supply_before(
            previous,
            rows[i].rune_id@,
            which,
        ) + #[trigger] supply_sum(rows, rows[i].rune_id@, which) <= u128::MAX by {
            assert(totals_fit(supply_totals(rows, previous, rows[i].key())));
            lemma_supply_after(rows, previous, rows[i].rune_id@);
        }
    }
    if forall|i: int, which: SupplyNumber|
        0 <= i < rows.len() ==> supply_before(previous, rows[i].rune_id@, which)
            + #[trigger] supply_sum(rows, rows[i].rune_id@, which) <= u128::MAX {
        assert forall|i: int| 0 <= i < rows.len() implies totals_fit(
            supply_totals(rows, previous, (#[trigger] rows[i]).key()),
        ) by {
            let id = rows[i].rune_id@;
            lemma_supply_after(rows, previous, id);
            assert(supply_before(previous, id, SupplyNumber::Minted) + supply_sum(
                rows,
                id,
                SupplyNumber::Minted,
            ) <= u128::MAX);
            assert(supply_before(previous, id, SupplyNumber::TotalMints) + supply_sum(
                rows,
                id,
                SupplyNumber::TotalMints,
            ) <= u128::MAX);
            assert(supply_before(previous, id, SupplyNumber::Burned) + supply_sum(
                rows,
                id,
                SupplyNumber::Burned,
            ) <= u128::MAX);
            assert(supply_before(previous, id, SupplyNumber::TotalBurns) + supply_sum(
                rows,
                id,
                SupplyNumber::TotalBurns,
            ) <= u128::MAX);
            assert(supply_before(previous, id, SupplyNumber::TotalOperations) + supply_sum(
                rows,
                id,
                SupplyNumber::TotalOperations,
            ) <= u128::MAX);
        }
    }
}

/// Whether a change or a record is on a rune and address.
pub open spec fn is_on(row: DbBalanceChange, rune_id: Seq<char>, address: Seq<char>) -> bool {
    row.rune_id@ == rune_id && row.address@ == address
}

/// The amounts of the changes to a rune and address, added up.
pub open spec fn amount_sum(
    rows: Seq<DbBalanceChange>,
    rune_id: Seq<char>,
    address: Seq<char>,
) -> int
    decreases rows.len(),
{
    if rows.len() == 0 {
        0
    } else {
        amount_sum(rows.drop_last(), rune_id, address) + if is_on(rows.last(), rune_id, address) {
            rows.last().balance.0 as int
        } else {
            0
        }
    }
}

/// The operations of the changes to a rune and address, added up.
pub open spec fn operations_sum(
    rows: Seq<DbBalanceChange>,
    rune_id: Seq<char>,
    address: Seq<char>,
) -> int
    decreases rows.len(),
{
    if rows.len() == 0 {
        0
    } else {
        operations_sum(rows.drop_last(), rune_id, address) + if is_on(
            rows.last(),
            rune_id,
            address,
        ) {
            rows.last().total_operations as int
        } else {
            0
        }
    }
}

/// Whether a record is the last one on its rune and address.
pub open spec fn is_last_on(rows: Seq<DbBalanceChange>, last: int) -> bool {
    &&& 0 <= last < rows.len()
    &&& forall|i: int|
        last < i < rows.len() ==> !is_on(
            #[trigger] rows[i],
            rows[last].rune_id@,
            rows[last].address@,
        )
}

proof fn lemma_balance_sums(
    rows: Seq<DbBalanceChange>,
    rune_id: Seq<char>,
    address: Seq<char>,
)
    ensures
        crate::db::balance::group_totals(rows, (rune_id, address)).amount == amount_sum(
            rows,
            rune_id,
            address,
        ),
        crate::db::balance::group_totals(rows, (rune_id, address)).operations == operations_sum(
            rows,
            rune_id,
            address,
        ),
    decreases rows.len(),
{
    if rows.len() > 0 {
        lemma_balance_sums(rows.drop_last(), rune_id, address);
    }
}

proof fn lemma_record_of_balance(
    rows: Seq<DbBalanceChange>,
    previous: Seq<DbBalanceChange>,
    increase: bool,
    k: int,
)
    requires
        0 <= k < balance_records(rows, previous, increase).len(),
    ensures
        ({
            let record = balance_records(rows, previous, increase)[k];
            &&& record == balance_record(rows, previous, increase, record.key())
            &&& latest(rows, record.key()) is Some
            &&& keys_in_order(rows)[k] == record.key()
        }),
{
    let key = keys_in_order(rows)[k];
    assert(keys_in_order(rows).contains(key));
    lemma_keys_in_order(rows, key);
    lemma_latest_is_listed(rows, key);
}

proof fn lemma_last_on_is_latest(rows: Seq<DbBalanceChange>, last: int)
    requires
        is_last_on(rows, last),
    ensures
        latest(rows, rows[last].key()) == Some(rows[last]),
{
    assert forall|i: int| last < i < rows.len() implies (#[trigger] rows[i]).key()
        != rows[last].key() by {
        assert(!is_on(rows[i], rows[last].rune_id@, rows[last].address@));
    }
    lemma_last_is_latest(rows, last);
}

proof fn lemma_none_on_is_no_latest(
    rows: Seq<DbBalanceChange>,
    rune_id: Seq<char>,
    address: Seq<char>,
)
    requires
        forall|i: int| 0 <= i < rows.len() ==> !is_on(#[trigger] rows[i], rune_id, address),
    ensures
        latest(rows, (rune_id, address)) is None,
{
    lemma_latest_is_listed(rows, (rune_id, address));
}

/// The balance in the record of a rune and address is the one in its last record before
/// the batch, with the amounts of all changes to it added where they increase it and
/// subtracted where they decrease it; where it has no record, it is the sum of the
/// amounts. The operations are added either way, and the height is that of the last of
/// the changes.
pub proof fn balance_record_adds_or_subtracts_each_change(
    rows: Seq<DbBalanceChange>,
    previous: Seq<DbBalanceChange>,
    increase: bool,
    last: int,
    k: int,
)
    requires
        balances_fit(rows, previous, increase),
        0 <= k < balance_records(rows, previous, increase).len(),
        is_last_on(rows, last),
        is_on(
            rows[last],
            balance_records(rows, previous, increase)[k].rune_id@,
            balance_records(rows, previous, increase)[k].address@,
        ),
    ensures
        ({
            let record = balance_records(rows, previous, increase)[k];
            let rune_id = record.rune_id@;
            let address = record.address@;
            &&& record.block_height == rows[last].block_height
            &&& forall|p: int|
                is_last_on(previous, p) && is_on(#[trigger] previous[p], rune_id, address) ==> {
                    &&& increase ==> record.balance.0 == previous[p].balance.0 + amount_sum(
                        rows,
                        rune_id,
                        address,
                    )
                    &&& !increase ==> record.balance.0 == previous[p].balance.0 - amount_sum(
                        rows,
                        rune_id,
                        address,
                    )
                    &&& record.total_operations == previous[p].total_operations + operations_sum(
                        rows,
                        rune_id,
                        address,
                    )
                }
            &&& (forall|p: int|
                0 <= p < previous.len() ==> !is_on(#[trigger] previous[p], rune_id, address)) ==> {
                &&& record.balance.0 == amount_sum(rows, rune_id, address)
                &&& record.total_operations == operations_sum(rows, rune_id, address)
            }
        }),
{
    let record = balance_records(rows, previous, increase)[k];
    let rune_id = record.rune_id@;
    let address = record.address@;
    lemma_record_of_balance(rows, previous, increase, k);
    lemma_last_on_is_latest(rows, last);
    lemma_balance_sums(rows, rune_id, address);
    assert(crate::db::balance::totals_fit(
        balance_totals(rows, previous, increase, rows[last].key()),
    ));
    assert forall|p: int|
        is_last_on(previous, p) && is_on(#[trigger] previous[p], rune_id, address) implies {
        &&& increase ==> record.balance.0 == previous[p].balance.0 + amount_sum(
            rows,
            rune_id,
            address,
        )
        &&& !increase ==> record.balance.0 == previous[p].balance.0 - amount_sum(
            rows,
            rune_id,
            address,
        )
        &&& record.total_operations == previous[p].total_operations + operations_sum(
            rows,
            rune_id,
            address,
        )
    } by {
        lemma_last_on_is_latest(previous, p);
    }
    if forall|p: int|
        0 <= p < previous.len() ==> !is_on(#[trigger] previous[p], rune_id, address) {
        lemma_none_on_is_no_latest(previous, rune_id, address);
    }
}

/// The records are on the runes and addresses that are changed: every change has the
/// record of its rune and address, every record is on a rune and address that is changed,
/// and no two are on the same.
pub proof fn changed_balances_have_one_record_each(
    rows: Seq<DbBalanceChange>,
    previous: Seq<DbBalanceChange>,
    increase: bool,
)
    ensures
        ({
            let records = balance_records(rows, previous, increase);
            &&& forall|i: int|
                0 <= i < rows.len() ==> exists|k: int|
                    0 <= k < records.len() && is_on(
                        #[trigger] records[k],
                        (#[trigger] rows[i]).rune_id@,
                        rows[i].address@,
                    )
            &&& forall|k: int|
                0 <= k < records.len() ==> exists|i: int|
                    0 <= i < rows.len() && is_on(
                        #[trigger] rows[i],
                        (#[trigger] records[k]).rune_id@,
                        records[k].address@,
                    )
            &&& forall|j: int, k: int|
                0 <= j < k < records.len() ==> !is_on(
                    #[trigger] records[j],
                    (#[trigger] records[k]).rune_id@,
                    records[k].address@,
                )
        }),
{
    let records = balance_records(rows, previous, increase);
    let keys = keys_in_order(rows);
    assert forall|i: int| 0 <= i < rows.len() implies exists|k: int|
        0 <= k < records.len() && is_on(
            #[trigger] records[k],
            (#[trigger] rows[i]).rune_id@,
            rows[i].address@,
        ) by {
        lemma_keys_in_order(rows, rows[i].key());
        lemma_latest_of_listed(rows, i);
        let k = choose|k: int| 0 <= k < keys.len() && keys[k] == rows[i].key();
        lemma_record_of_balance(rows, previous, increase, k);
        assert(is_on(records[k], rows[i].rune_id@, rows[i].address@));
    }
    assert forall|k: int| 0 <= k < records.len() implies exists|i: int|
        0 <= i < rows.len() && is_on(
            #[trigger] rows[i],
            (#[trigger] records[k]).rune_id@,
            records[k].address@,
        ) by {
        lemma_record_of_balance(rows, previous, increase, k);
        lemma_latest_is_listed(rows, records[k].key());
        let row = latest(rows, records[k].key())->0;
        let i = choose|i: int| 0 <= i < rows.len() && #[trigger] rows[i] == row;
        assert(is_on(rows[i], records[k].rune_id@, records[k].address@));
    }
    assert forall|j: int, k: int| 0 <= j < k < records.len() implies !is_on(
        #[trigger] records[j],
        (#[trigger] records[k]).rune_id@,
        records[k].address@,
    ) by {
        lemma_record_of_balance(rows, previous, increase, j);
        lemma_record_of_balance(rows, previous, increase, k);
        lemma_keys_in_order(rows, keys[j]);
        assert(keys[j] != keys[k]);
    }
}

/// The numbers fit exactly where, for each rune and address that is changed, the balance
/// stays between zero and the largest number of its type, and the operations within
/// theirs.
pub proof fn balances_fit_where_each_number_does(
    rows: Seq<DbBalanceChange>,
    previous: Seq<DbBalanceChange>,
    increase: bool,
)
    ensures
        balances_fit(rows, previous, increase) <==> forall|i: int|
            0 <= i < rows.len() ==> numbers_fit(
                rows,
                previous,
                increase,
                (#[trigger] rows[i]).rune_id@,
                rows[i].address@,
            ),
{
    assert forall|i: int| 0 <= i < rows.len() implies crate::db::balance::totals_fit(
        balance_totals(rows, previous, increase, (#[trigger] rows[i]).key()),
    ) == numbers_fit(rows, previous, increase, rows[i].rune_id@, rows[i].address@) by {
        lemma_numbers_fit(rows, previous, increase, rows[i].rune_id@, rows[i].address@);
    }
    if balances_fit(rows, previous, increase) {
        assert forall|i: int| 0 <= i < rows.len() implies numbers_fit(
            rows,
            previous,
            increase,
            (#[trigger] rows[i]).rune_id@,
            rows[i].address@,
        ) by {
            assert(crate::db::balance::totals_fit(
                balance_totals(rows, previous, increase, rows[i].key()),
            ));
        }
    }
}

/// Whether the numbers of a rune and address after the changes are within the types.
pub open spec fn numbers_fit(
    rows: Seq<DbBalanceChange>,
    previous: Seq<DbBalanceChange>,
    increase: bool,
    rune_id: Seq<char>,
    address: Seq<char>,
) -> bool {
    let amount = amount_sum(rows, rune_id, address);
    let operations = operations_sum(rows, rune_id, address);
    &&& forall|p: int|
        is_last_on(previous, p) && is_on(#[trigger] previous[p], rune_id, address) ==> {
            &&& increase ==> previous[p].balance.0 + amount <= u128::MAX
            &&& !increase ==> amount <= previous[p].balance.0
            &&& i64::MIN <= previous[p].total_operations + operations <= i64::MAX
        }
    &&& (forall|p: int|
        0 <= p < previous.len() ==> !is_on(#[trigger] previous[p], rune_id, address)) ==> {
        &&& amount <= u128::MAX
        &&& i64::MIN <= operations <= i64::MAX
    }
}

proof fn lemma_amounts_add_up(rows: Seq<DbBalanceChange>, rune_id: Seq<char>, address: Seq<char>)
    ensures
        amount_sum(rows, rune_id, address) >= 0,
    decreases rows.len(),
{
    if rows.len() > 0 {
        lemma_amounts_add_up(rows.drop_last(), rune_id, address);
    }
}

proof fn lemma_latest_is_last(
    rows: Seq<DbBalanceChange>,
    rune_id: Seq<char>,
    address: Seq<char>,
) -> (p: int)
    ensures
        latest(rows, (rune_id, address)) matches Some(row) ==> is_last_on(rows, p) && rows[p] == row
            && is_on(rows[p], rune_id, address),
        latest(rows, (rune_id, address)) is None ==> forall|i: int|
            0 <= i < rows.len() ==> !is_on(#[trigger] rows[i], rune_id, address),
    decreases rows.len(),
{
    if rows.len() == 0 {
        0
    } else if rows.last().key() == (rune_id, address) {
        rows.len() - 1
    } else {
        let rest = rows.drop_last();
        let p = lemma_latest_is_last(rest, rune_id, address);
        if latest(rest, (rune_id, address)) is Some {
            assert(rows[p] == rest[p]);
            assert forall|i: int| p < i < rows.len() implies !is_on(
                #[trigger] rows[i],
                rows[p].rune_id@,
                rows[p].address@,
            ) by {
                if i < rest.len() {
                    assert(rest[i] == rows[i]);
                }
            }
        } else {
            assert forall|i: int| 0 <= i < rows.len() implies !is_on(
                #[trigger] rows[i],
                rune_id,
                address,
            ) by {
                if i < rest.len() {
                    assert(rest[i] == rows[i]);
                }
            }
        }
        p
    }
}

proof fn lemma_numbers_fit(
    rows: Seq<DbBalanceChange>,
    previous: Seq<DbBalanceChange>,
    increase: bool,
    rune_id: Seq<char>,
    address: Seq<char>,
)
    ensures
        crate::db::balance::totals_fit(
            balance_totals(rows, previous, increase, (rune_id, address)),
        ) == numbers_fit(rows, previous, increase, rune_id, address),
{
    lemma_balance_sums(rows, rune_id, address);
    lemma_amounts_add_up(rows, rune_id, address);
    let p = lemma_latest_is_last(previous, rune_id, address);
    if latest(previous, (rune_id, address)) is Some {
        assert(is_last_on(previous, p) && is_on(previous[p], rune_id, address));
        assert forall|q: int|
            is_last_on(previous, q) && is_on(#[trigger] previous[q], rune_id, address) implies q
            == p by {
            if q < p {
                assert(!is_on(previous[p], previous[q].rune_id@, previous[q].address@));
            } else if p < q {
                assert(!is_on(previous[q], previous[p].rune_id@, previous[p].address@));
            }
        }
    }
}

} // verus!

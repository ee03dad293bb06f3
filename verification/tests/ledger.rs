use std::collections::HashMap;

use runehook::db::models::db_ledger_operation::DbLedgerOperation;
use runehook::db::models::input_rune_balance::InputRuneBalance;
use runehook::db::types::pg_bigint_u32::PgBigIntU32;
use runehook::db::types::pg_numeric_u128::PgNumericU128;
use runehook::mempool::balances::{checked_total, RuneBalances};
use runehook::mempool::edicts::collect_edicts;
use runehook::mempool::ledger::{
    allocate_remaining_balances, apply_cenotaph_etching, burn_input, ledger_entries,
    unincluded_rune_id, DecipheredTx,
};
use runehook::mempool::ledger_entry::{record_events, DBMempoolLedgerEntry};
use runehook::mempool::movement::{move_rune_balance_to_output, LedgerEvent};
use runehook::runes::{Artifact, Edict, RuneId};

const RUNE: RuneId = RuneId { block: 840000, tx: 1 };
const OTHER: RuneId = RuneId { block: 840000, tx: 2 };

fn input(address: &str, amount: u128) -> InputRuneBalance {
    InputRuneBalance { address: Some(address.to_string()), amount }
}

fn balances(entries: Vec<(RuneId, Vec<InputRuneBalance>)>) -> RuneBalances {
    let mut balances = RuneBalances::new();
    for (rune_id, inputs) in entries {
        balances.extend(rune_id, &inputs);
    }
    balances
}

/// Outputs 1 and 2 have addresses, output 3 has a script without one.
fn receivers() -> HashMap<u32, Option<String>> {
    let mut receivers = HashMap::new();
    receivers.insert(1, Some("one".to_string()));
    receivers.insert(2, Some("two".to_string()));
    receivers.insert(3, None);
    receivers
}

fn event(
    rune_id: RuneId,
    output: Option<u32>,
    address: Option<&str>,
    receiver: Option<&str>,
    amount: Option<u128>,
    operation: DbLedgerOperation,
) -> LedgerEvent {
    LedgerEvent {
        rune_id,
        output,
        address: address.map(|text| text.to_string()),
        receiver_address: receiver.map(|text| text.to_string()),
        amount,
        operation,
    }
}

fn receive(output: u32, address: &str, amount: u128) -> LedgerEvent {
    event(RUNE, Some(output), Some(address), None, Some(amount), DbLedgerOperation::Receive)
}

fn send(output: u32, from: &str, to: &str, amount: u128) -> LedgerEvent {
    event(RUNE, Some(output), Some(from), Some(to), Some(amount), DbLedgerOperation::Send)
}

fn burn(output: Option<u32>, from: &str, amount: u128) -> LedgerEvent {
    event(RUNE, output, Some(from), None, Some(amount), DbLedgerOperation::Burn)
}

fn amount_of(events: &[LedgerEvent], operation: DbLedgerOperation) -> u128 {
    events.iter().filter(|e| e.operation == operation).map(|e| e.amount.unwrap()).sum()
}

#[test]
fn movement_takes_the_last_input_first() {
    let mut inputs = vec![input("a", 10), input("b", 5)];
    let events = move_rune_balance_to_output(Some(1), &RUNE, &mut inputs, &receivers(), 7);
    assert_eq!(
        events,
        vec![receive(1, "one", 7), send(1, "b", "one", 5), send(1, "a", "one", 2)]
    );
    assert_eq!(inputs, vec![input("a", 8)]);
}

#[test]
fn movement_stops_at_the_exact_amount() {
    let mut inputs = vec![input("a", 10), input("b", 5)];
    let events = move_rune_balance_to_output(Some(1), &RUNE, &mut inputs, &receivers(), 5);
    assert_eq!(events, vec![receive(1, "one", 5), send(1, "b", "one", 5)]);
    assert_eq!(inputs, vec![input("a", 10)]);
}

#[test]
fn movement_of_more_than_there_is_moves_everything() {
    let mut inputs = vec![input("a", 10), input("b", 5)];
    let events = move_rune_balance_to_output(Some(1), &RUNE, &mut inputs, &receivers(), 100);
    assert_eq!(amount_of(&events, DbLedgerOperation::Receive), 15);
    assert_eq!(amount_of(&events, DbLedgerOperation::Send), 15);
    assert!(inputs.is_empty());
}

#[test]
fn movement_of_zero_moves_everything() {
    let mut inputs = vec![input("a", 10), input("b", 5)];
    let events = move_rune_balance_to_output(Some(2), &RUNE, &mut inputs, &receivers(), 0);
    assert_eq!(amount_of(&events, DbLedgerOperation::Receive), 15);
    assert!(inputs.is_empty());
}

#[test]
fn movement_of_everything_goes_on_past_empty_inputs() {
    let mut inputs = vec![input("a", 10), input("b", 0), input("c", 0)];
    let events = move_rune_balance_to_output(Some(1), &RUNE, &mut inputs, &receivers(), 0);
    assert_eq!(
        events,
        vec![
            receive(1, "one", 10),
            send(1, "c", "one", 0),
            send(1, "b", "one", 0),
            send(1, "a", "one", 10),
        ]
    );
    assert!(inputs.is_empty());
}

#[test]
fn allocation_goes_on_past_an_empty_input() {
    let mut left = balances(vec![(RUNE, vec![input("alice", 5), input("bob", 0)])]);
    let events = allocate_remaining_balances(None, &mut left, &HashMap::new());
    assert_eq!(events, vec![burn(None, "bob", 0), burn(None, "alice", 5)]);
    assert!(left.entries.is_empty());
}

#[test]
fn movement_without_a_receiver_burns() {
    for output in [None, Some(3), Some(8)] {
        let mut inputs = vec![input("a", 10)];
        let events = move_rune_balance_to_output(output, &RUNE, &mut inputs, &receivers(), 4);
        assert_eq!(events, vec![burn(output, "a", 4)]);
        assert_eq!(inputs, vec![input("a", 6)]);
    }
}

#[test]
fn movement_from_an_unknown_address_is_only_received() {
    let mut inputs = vec![InputRuneBalance { address: None, amount: 10 }];
    let events = move_rune_balance_to_output(Some(1), &RUNE, &mut inputs, &receivers(), 4);
    assert_eq!(events, vec![receive(1, "one", 4)]);
    assert_eq!(inputs, vec![InputRuneBalance { address: None, amount: 6 }]);
}

#[test]
fn movement_of_nothing_is_not_recorded() {
    let mut inputs = vec![];
    assert!(move_rune_balance_to_output(Some(1), &RUNE, &mut inputs, &receivers(), 4).is_empty());
}

#[test]
fn edict_moves_its_amount_to_its_output() {
    let mut left = balances(vec![(RUNE, vec![input("a", 10)]), (OTHER, vec![input("a", 3)])]);
    let edict = Edict { id: RUNE, amount: 4, output: 2 };
    let events = collect_edicts(&edict, &mut left, &receivers(), 4);
    assert_eq!(events, vec![receive(2, "two", 4), send(2, "a", "two", 4)]);
    let expected = balances(vec![(RUNE, vec![input("a", 6)]), (OTHER, vec![input("a", 3)])]);
    assert_eq!(left, expected);
}

#[test]
fn edict_with_amount_zero_moves_everything_to_its_output() {
    let mut left = balances(vec![(RUNE, vec![input("a", 10), input("b", 2)])]);
    let edict = Edict { id: RUNE, amount: 0, output: 1 };
    let events = collect_edicts(&edict, &mut left, &receivers(), 4);
    assert_eq!(events[0], receive(1, "one", 12));
    assert!(left.entries[0].inputs.is_empty());
}

#[test]
fn edict_for_all_outputs_divides_equally() {
    let mut left = balances(vec![(RUNE, vec![input("a", 11)])]);
    let edict = Edict { id: RUNE, amount: 0, output: 4 };
    let events = collect_edicts(&edict, &mut left, &receivers(), 4);
    assert_eq!(
        events,
        vec![
            receive(1, "one", 4),
            send(1, "a", "one", 4),
            receive(2, "two", 4),
            send(2, "a", "two", 4),
            burn(Some(3), "a", 3),
        ]
    );
    assert!(left.entries[0].inputs.is_empty());
}

#[test]
fn edict_divides_less_than_the_number_of_outputs() {
    let mut left = balances(vec![(RUNE, vec![input("a", 2)])]);
    let edict = Edict { id: RUNE, amount: 0, output: 4 };
    let events = collect_edicts(&edict, &mut left, &receivers(), 4);
    assert_eq!(
        events,
        vec![
            receive(1, "one", 1),
            send(1, "a", "one", 1),
            receive(2, "two", 1),
            send(2, "a", "two", 1),
        ]
    );
}

#[test]
fn share_of_nothing_takes_one_empty_input() {
    let mut left = balances(vec![(RUNE, vec![input("a", 0), input("b", 0)])]);
    let mut two = HashMap::new();
    two.insert(0, Some("zero".to_string()));
    two.insert(1, Some("one".to_string()));
    let edict = Edict { id: RUNE, amount: 0, output: 2 };
    let events = collect_edicts(&edict, &mut left, &two, 2);
    assert_eq!(events, vec![send(0, "b", "zero", 0), send(1, "a", "one", 0)]);
    assert!(left.entries[0].inputs.is_empty());
    // With an amount that cannot be met, each output takes one empty input too.
    let mut left = balances(vec![(RUNE, vec![input("a", 0), input("b", 0), input("c", 0)])]);
    let edict = Edict { id: RUNE, amount: 7, output: 2 };
    let events = collect_edicts(&edict, &mut left, &two, 2);
    assert_eq!(events, vec![send(0, "c", "zero", 0), send(1, "b", "one", 0)]);
    assert_eq!(left.entries[0].inputs, vec![input("a", 0)]);
    // So does an edict that moves everything to one output.
    let edict = Edict { id: RUNE, amount: 0, output: 1 };
    let mut left = balances(vec![(RUNE, vec![input("a", 0), input("b", 0)])]);
    let events = collect_edicts(&edict, &mut left, &two, 2);
    assert_eq!(events, vec![send(1, "b", "one", 0)]);
    assert_eq!(left.entries[0].inputs, vec![input("a", 0)]);
}

#[test]
fn edict_for_all_outputs_gives_the_amount_until_nothing_is_left() {
    let mut left = balances(vec![(RUNE, vec![input("a", 7)])]);
    let edict = Edict { id: RUNE, amount: 5, output: 4 };
    let events = collect_edicts(&edict, &mut left, &receivers(), 4);
    assert_eq!(
        events,
        vec![
            receive(1, "one", 5),
            send(1, "a", "one", 5),
            receive(2, "two", 2),
            send(2, "a", "two", 2),
        ]
    );
    assert!(left.entries[0].inputs.is_empty());
}

#[test]
fn edict_on_an_output_that_does_not_exist_burns() {
    let mut left = balances(vec![(RUNE, vec![input("a", 7)])]);
    let edict = Edict { id: RUNE, amount: 5, output: 9 };
    let events = collect_edicts(&edict, &mut left, &receivers(), 4);
    assert_eq!(events, vec![burn(None, "a", 5)]);
    assert_eq!(left.entries[0].inputs, vec![input("a", 2)]);
}

#[test]
fn edict_without_eligible_outputs_burns() {
    let mut left = balances(vec![(RUNE, vec![input("a", 7)])]);
    let edict = Edict { id: RUNE, amount: 5, output: 1 };
    let events = collect_edicts(&edict, &mut left, &HashMap::new(), 4);
    assert_eq!(events, vec![burn(None, "a", 5)]);
}

#[test]
fn edict_on_a_rune_without_inputs_does_nothing() {
    let mut left = balances(vec![(RUNE, vec![input("a", 7)])]);
    for id in [OTHER, unincluded_rune_id()] {
        let edict = Edict { id, amount: 5, output: 1 };
        assert!(collect_edicts(&edict, &mut left, &receivers(), 4).is_empty());
        assert_eq!(left, balances(vec![(RUNE, vec![input("a", 7)])]));
    }
}

#[test]
fn burning_empties_the_balances() {
    let mut left = balances(vec![
        (RUNE, vec![input("a", 7), InputRuneBalance { address: None, amount: 1 }]),
        (OTHER, vec![input("b", 2)]),
    ]);
    let events = burn_input(&mut left);
    assert_eq!(
        events,
        vec![
            burn(None, "a", 7),
            event(RUNE, None, None, None, Some(1), DbLedgerOperation::Burn),
            event(OTHER, None, Some("b"), None, Some(2), DbLedgerOperation::Burn),
        ]
    );
    assert!(left.entries.is_empty());
}

#[test]
fn allocation_moves_what_is_left_to_the_pointer() {
    let mut left = balances(vec![(RUNE, vec![input("a", 7), input("b", 1)])]);
    let events = allocate_remaining_balances(Some(2), &mut left, &receivers());
    assert_eq!(
        events,
        vec![receive(2, "two", 8), send(2, "b", "two", 1), send(2, "a", "two", 7)]
    );
    assert!(left.entries.is_empty());
}

#[test]
fn allocation_without_a_pointer_burns() {
    let mut left = balances(vec![(RUNE, vec![input("a", 7)])]);
    let events = allocate_remaining_balances(None, &mut left, &receivers());
    assert_eq!(events, vec![burn(None, "a", 7)]);
}

fn message(artifact: Artifact) -> DecipheredTx {
    DecipheredTx { artifact, receivers: receivers(), total_outputs: 4 }
}

fn entries(artifact: Artifact, brought: RuneBalances) -> Vec<DBMempoolLedgerEntry> {
    ledger_entries(&message(artifact), &"tx".to_string(), brought).unwrap()
}

#[test]
fn runestone_is_recorded_in_numbered_entries() {
    let edicts = vec![Edict { id: RUNE, amount: 4, output: 1 }];
    let recorded = entries(
        Artifact::Runestone { edicts, pointer: Some(2) },
        balances(vec![(RUNE, vec![input("a", 10)])]),
    );
    let amounts: Vec<(u32, u128, DbLedgerOperation)> = recorded
        .iter()
        .map(|e| (e.event_index.0, e.amount.unwrap().0, e.operation))
        .collect();
    assert_eq!(
        amounts,
        vec![
            (0, 4, DbLedgerOperation::Receive),
            (1, 4, DbLedgerOperation::Send),
            (2, 6, DbLedgerOperation::Receive),
            (3, 6, DbLedgerOperation::Send),
        ]
    );
    assert_eq!(
        recorded[1],
        DBMempoolLedgerEntry {
            rune_id: "840000:1".to_string(),
            event_index: PgBigIntU32(1),
            tx_id: "tx".to_string(),
            output: Some(PgBigIntU32(1)),
            address: Some("a".to_string()),
            receiver_address: Some("one".to_string()),
            amount: Some(PgNumericU128(4)),
            operation: DbLedgerOperation::Send,
        }
    );
}

#[test]
fn transaction_accounts_for_everything_it_brings_in() {
    let edicts = vec![
        Edict { id: RUNE, amount: 4, output: 1 },
        Edict { id: RUNE, amount: 3, output: 9 },
        Edict { id: RUNE, amount: 2, output: 4 },
    ];
    let recorded = entries(
        Artifact::Runestone { edicts, pointer: None },
        balances(vec![(RUNE, vec![input("a", 10), input("b", 10)])]),
    );
    let total = |operation: DbLedgerOperation| -> u128 {
        recorded
            .iter()
            .filter(|e| e.operation == operation)
            .map(|e| e.amount.unwrap().0)
            .sum()
    };
    assert_eq!(total(DbLedgerOperation::Receive), 8);
    assert_eq!(total(DbLedgerOperation::Send), 8);
    assert_eq!(total(DbLedgerOperation::Burn), 12);
}

#[test]
fn runestone_with_an_unincluded_edict_records_nothing() {
    let edicts = vec![
        Edict { id: RUNE, amount: 4, output: 1 },
        Edict { id: unincluded_rune_id(), amount: 1, output: 1 },
    ];
    let recorded = entries(
        Artifact::Runestone { edicts, pointer: Some(1) },
        balances(vec![(RUNE, vec![input("a", 10)])]),
    );
    assert!(recorded.is_empty());
}

#[test]
fn cenotaph_burns_everything_and_etches() {
    let brought = || balances(vec![(RUNE, vec![input("a", 10)])]);
    let recorded = entries(Artifact::Cenotaph { etching: None }, brought());
    assert_eq!(recorded.len(), 1);
    assert_eq!(recorded[0].operation, DbLedgerOperation::Burn);
    assert_eq!(recorded[0].amount, Some(PgNumericU128(10)));
    let recorded = entries(Artifact::Cenotaph { etching: Some(5) }, brought());
    assert_eq!(recorded.len(), 2);
    assert_eq!(recorded[1].operation, DbLedgerOperation::Etching);
    assert_eq!(recorded[1].rune_id, "0:0");
    assert_eq!(recorded[1].event_index, PgBigIntU32(1));
    assert_eq!(recorded[1].amount, None);
}

#[test]
fn amounts_that_do_not_fit_are_refused() {
    let brought = || balances(vec![(RUNE, vec![input("a", u128::MAX), input("b", 1)])]);
    assert_eq!(checked_total(&brought().entries[0].inputs), None);
    let edicts = vec![Edict { id: RUNE, amount: 4, output: 1 }];
    let artifact = Artifact::Runestone { edicts, pointer: None };
    assert_eq!(ledger_entries(&message(artifact), &"tx".to_string(), brought()), None);
    let artifact = Artifact::Runestone { edicts: vec![], pointer: Some(1) };
    assert_eq!(ledger_entries(&message(artifact), &"tx".to_string(), brought()), None);
}

#[test]
fn etching_of_a_malformed_message_has_no_amount() {
    let etched = apply_cenotaph_etching(&unincluded_rune_id());
    let expected = event(unincluded_rune_id(), None, None, None, None, DbLedgerOperation::Etching);
    assert_eq!(etched, expected);
}

#[test]
fn entries_are_numbered_from_zero() {
    let events = vec![receive(1, "one", 1), receive(2, "two", 2)];
    let recorded = record_events(&events, &"id".to_string());
    assert_eq!(recorded[0].event_index, PgBigIntU32(0));
    assert_eq!(recorded[1].event_index, PgBigIntU32(1));
    assert_eq!(recorded[1].address, Some("two".to_string()));
    let mut next: u32 = 5;
    let entry = DBMempoolLedgerEntry::new_mempool_entry_with_idx_incr(
        Some(9),
        RUNE,
        None,
        None,
        None,
        DbLedgerOperation::Burn,
        &"id".to_string(),
        &mut next,
    );
    assert_eq!(entry.event_index, PgBigIntU32(5));
    assert_eq!(next, 6);
}

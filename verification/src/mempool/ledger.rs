//! The ledger entries that the protocol message of a transaction gives rise to.

use std::collections::HashMap;

use vstd::prelude::*;

use crate::db::models::db_ledger_operation::DbLedgerOperation;
use crate::db::models::input_rune_balance::{clone_address, total_amount, InputRuneBalance};
use crate::mempool::balances::{checked_total, RuneBalances, RuneInputsView};
use crate::mempool::edicts::{
    collect_edicts, edict_fits, edict_outcome, is_unincluded, EdictOutcome,
};
use crate::mempool::ledger_entry::{record_events, records_all, DBMempoolLedgerEntry};
use crate::mempool::movement::{
    asking_for_everything_takes_everything, move_events, move_rune_balance_to_output, receiver_of,
    LedgerEvent,
};
use crate::runes::{Artifact, ArtifactView, Edict, RuneId};

verus! {

/// The id of a rune that is in no block yet.
pub fn unincluded_rune_id() -> (r: RuneId)
    ensures
        r == (RuneId { block: 0, tx: 0 }),
{
    RuneId { block: 0, tx: 0 }
}

/// The event of etching a rune by a malformed message.
pub open spec fn etching_event(rune_id: RuneId) -> LedgerEvent {
    LedgerEvent {
        rune_id,
        output: None,
        address: None,
        receiver_address: None,
        amount: None,
        operation: DbLedgerOperation::Etching,
    }
}

/// Records that a malformed message etches a rune.
pub fn apply_cenotaph_etching(rune_id: &RuneId) -> (r: LedgerEvent)
    ensures
        r == etching_event(*rune_id),
{
    LedgerEvent {
        rune_id: *rune_id,
        output: None,
        address: None,
        receiver_address: None,
        amount: None,
        operation: DbLedgerOperation::Etching,
    }
}

/// The events of burning everything that the inputs hold of a rune.
pub open spec fn burn_inputs(rune_id: RuneId, inputs: Seq<InputRuneBalance>) -> Seq<LedgerEvent> {
    inputs.map_values(
        |input: InputRuneBalance|
            LedgerEvent {
                rune_id,
                output: None,
                address: input.address,
                receiver_address: None,
                amount: Some(input.amount),
                operation: DbLedgerOperation::Burn,
            },
    )
}

/// The events of burning everything, one rune after the other.
pub open spec fn burn_events(balances: Seq<RuneInputsView>) -> Seq<LedgerEvent>
    decreases balances.len(),
{
    if balances.len() == 0 {
        Seq::empty()
    } else {
        burn_events(balances.drop_last()) + burn_inputs(
            balances.last().rune_id,
            balances.last().inputs,
        )
    }
}

/// Burns everything.
pub fn burn_input(input_runes: &mut RuneBalances) -> (results: Vec<LedgerEvent>)
    ensures
        results@ == burn_events(old(input_runes)@),
        final(input_runes)@ == Seq::<RuneInputsView>::empty(),
{
    let ghost balances = input_runes@;
    let mut results: Vec<LedgerEvent> = Vec::new();
    let mut i: usize = 0;
    while i < input_runes.entries.len()
        invariant
            i <= input_runes.entries.len(),
            balances == input_runes@,
            results@ == burn_events(balances.take(i as int)),
        decreases input_runes.entries.len() - i,
    {
        let entry = &input_runes.entries[i];
        let ghost before = results@;
        let ghost burnt = burn_inputs(entry.rune_id, entry.inputs@);
        let mut k: usize = 0;
        while k < entry.inputs.len()
            invariant
                k <= entry.inputs.len(),
                burnt == burn_inputs(entry.rune_id, entry.inputs@),
                results@ == before + burnt.take(k as int),
            decreases entry.inputs.len() - k,
        {
            results.push(
                LedgerEvent {
                    rune_id: entry.rune_id,
                    output: None,
                    address: clone_address(&entry.inputs[k].address),
                    receiver_address: None,
                    amount: Some(entry.inputs[k].amount),
                    operation: DbLedgerOperation::Burn,
                },
            );
            assert(results@ =~= before + burnt.take(k + 1));
            k += 1;
        }
        proof {
            assert(burnt.take(burnt.len() as int) =~= burnt);
            assert(balances[i as int] == entry@);
            assert(balances.take(i + 1).drop_last() =~= balances.take(i as int));
        }
        i += 1;
    }
    assert(balances.take(balances.len() as int) =~= balances);
    input_runes.entries.clear();
    assert(input_runes@ =~= Seq::<RuneInputsView>::empty());
    results
}

/// The events of moving all that is left to one output, one rune after the other.
pub open spec fn allocation_events(
    balances: Seq<RuneInputsView>,
    pointer: Option<u32>,
    receivers: Map<u32, Option<String>>,
) -> Seq<LedgerEvent>
    decreases balances.len(),
{
    if balances.len() == 0 {
        Seq::empty()
    } else {
        allocation_events(balances.drop_last(), pointer, receivers) + move_events(
            balances.last().rune_id,
            pointer,
            receiver_of(pointer, receivers),
            balances.last().inputs,
            None,
        )
    }
}

/// Whether what is left of each rune fits the integer type.
pub open spec fn allocation_fits(balances: Seq<RuneInputsView>) -> bool {
    forall|i: int|
        0 <= i < balances.len() ==> total_amount((#[trigger] balances[i]).inputs) <= u128::MAX
}

/// Moves all that is left to one output, and burns it where there is none.
pub fn allocate_remaining_balances(
    output_pointer: Option<u32>,
    input_runes_balances: &mut RuneBalances,
    receivers: &HashMap<u32, Option<String>>,
) -> (results: Vec<LedgerEvent>)
    requires
        allocation_fits(old(input_runes_balances)@),
    ensures
        results@ == allocation_events(old(input_runes_balances)@, output_pointer, receivers@),
        final(input_runes_balances)@ == Seq::<RuneInputsView>::empty(),
{
    let ghost balances = input_runes_balances@;
    let mut results: Vec<LedgerEvent> = Vec::new();
    let mut i: usize = 0;
    while i < input_runes_balances.entries.len()
        invariant
            i <= input_runes_balances.entries.len(),
            balances.len() == input_runes_balances.entries@.len(),
            allocation_fits(balances),
            forall|k: int|
                i <= k < balances.len() ==> #[trigger] balances[k]
                    == input_runes_balances.entries@[k]@,
            results@ == allocation_events(
                balances.take(i as int),
                output_pointer,
                receivers@,
            ),
        decreases input_runes_balances.entries.len() - i,
    {
        let rune_id = input_runes_balances.entries[i].rune_id;
        proof {
            assert(balances[i as int] == input_runes_balances.entries@[i as int]@);
            asking_for_everything_takes_everything(balances[i as int].inputs, 0);
        }
        let mut moved = move_rune_balance_to_output(
            output_pointer,
            &rune_id,
            &mut input_runes_balances.entries[i].inputs,
            receivers,
            0,
        );
        results.append(&mut moved);
        assert(balances.take(i + 1).drop_last() =~= balances.take(i as int));
        i += 1;
    }
    assert(balances.take(balances.len() as int) =~= balances);
    input_runes_balances.entries.clear();
    assert(input_runes_balances@ =~= Seq::<RuneInputsView>::empty());
    results
}

/// How many edicts come before the first one on a rune that is in no block yet.
pub open spec fn included(edicts: Seq<Edict>) -> nat
    decreases edicts.len(),
{
    if edicts.len() == 0 {
        0
    } else {
        let before = included(edicts.drop_last());
        if before == edicts.len() - 1 && !is_unincluded(edicts.last().id) {
            edicts.len()
        } else {
            before
        }
    }
}

/// What edicts do one after the other.
pub open spec fn apply_edicts(
    edicts: Seq<Edict>,
    balances: Seq<RuneInputsView>,
    receivers: Map<u32, Option<String>>,
    total_outputs: u32,
) -> EdictOutcome
    decreases edicts.len(),
{
    if edicts.len() == 0 {
        EdictOutcome { events: Seq::empty(), balances }
    } else {
        let before = apply_edicts(edicts.drop_last(), balances, receivers, total_outputs);
        let outcome = edict_outcome(edicts.last(), before.balances, receivers, total_outputs);
        EdictOutcome {
            events: before.events + outcome.events,
            balances: outcome.balances,
        }
    }
}

/// Whether the amounts that edicts add up fit the integer type.
pub open spec fn edicts_fit(
    edicts: Seq<Edict>,
    balances: Seq<RuneInputsView>,
    receivers: Map<u32, Option<String>>,
    total_outputs: u32,
) -> bool
    decreases edicts.len(),
{
    edicts.len() == 0 || {
        &&& edicts_fit(edicts.drop_last(), balances, receivers, total_outputs)
        &&& edict_fits(
            edicts.last(),
            apply_edicts(edicts.drop_last(), balances, receivers, total_outputs).balances,
        )
    }
}

/// The events of a transaction with a protocol message. A malformed message burns
/// everything. A well-formed one carries out its edicts and moves what they leave
/// to the output of its pointer, unless an edict is on a rune that is in no block
/// yet: then nothing is recorded.
pub open spec fn artifact_events(
    artifact: ArtifactView,
    balances: Seq<RuneInputsView>,
    receivers: Map<u32, Option<String>>,
    total_outputs: u32,
) -> Seq<LedgerEvent> {
    match artifact {
        ArtifactView::Cenotaph { etching } => if etching is Some {
            burn_events(balances).push(etching_event(RuneId { block: 0, tx: 0 }))
        } else {
            burn_events(balances)
        },
        ArtifactView::Runestone { edicts, pointer } => if included(edicts) < edicts.len() {
            Seq::empty()
        } else {
            let outcome = apply_edicts(edicts, balances, receivers, total_outputs);
            outcome.events + allocation_events(outcome.balances, pointer, receivers)
        },
    }
}

/// Whether the amounts that are added up and the numbers of the events fit their
/// integer types.
pub open spec fn artifact_fits(
    artifact: ArtifactView,
    balances: Seq<RuneInputsView>,
    receivers: Map<u32, Option<String>>,
    total_outputs: u32,
) -> bool {
    &&& artifact_events(artifact, balances, receivers, total_outputs).len() <= u32::MAX
    &&& match artifact {
        ArtifactView::Cenotaph { .. } => true,
        ArtifactView::Runestone { edicts, .. } => {
            let done = edicts.take(included(edicts) as int);
            let outcome = apply_edicts(done, balances, receivers, total_outputs);
            &&& edicts_fit(done, balances, receivers, total_outputs)
            &&& outcome.events.len() <= u32::MAX
            &&& done.len() == edicts.len() ==> allocation_fits(outcome.balances)
        },
    }
}

proof fn lemma_included_up_to(edicts: Seq<Edict>, n: int)
    requires
        0 <= n < edicts.len(),
        is_unincluded(edicts[n].id),
        forall|k: int| 0 <= k < n ==> !is_unincluded((#[trigger] edicts[k]).id),
    ensures
        included(edicts) == n,
    decreases edicts.len(),
{
    if n == edicts.len() - 1 {
        lemma_included_all(edicts.drop_last());
    } else {
        lemma_included_up_to(edicts.drop_last(), n);
    }
}

proof fn lemma_included_all(edicts: Seq<Edict>)
    requires
        forall|k: int| 0 <= k < edicts.len() ==> !is_unincluded((#[trigger] edicts[k]).id),
    ensures
        included(edicts) == edicts.len(),
    decreases edicts.len(),
{
    if edicts.len() > 0 {
        lemma_included_all(edicts.drop_last());
        assert(!is_unincluded(edicts[edicts.len() - 1].id));
    }
}

fn fits_edict(edict: &Edict, balances: &RuneBalances) -> (r: bool)
    requires
        balances.wf(),
    ensures
        r == edict_fits(*edict, balances@),
{
    if edict.id.block == 0 && edict.id.tx == 0 {
        return true;
    }
    match balances.position(&edict.id) {
        Some(i) => checked_total(&balances.entries[i].inputs).is_some(),
        None => true,
    }
}

fn fits_allocation(balances: &RuneBalances) -> (r: bool)
    ensures
        r == allocation_fits(balances@),
{
    let mut i: usize = 0;
    while i < balances.entries.len()
        invariant
            i <= balances.entries.len(),
            forall|k: int|
                0 <= k < i ==> total_amount((#[trigger] balances@[k]).inputs) <= u128::MAX,
        decreases balances.entries.len() - i,
    {
        let inputs = &balances.entries[i].inputs;
        assert(balances@[i as int].inputs == inputs@);
        if checked_total(inputs).is_none() {
            return false;
        }
        i += 1;
    }
    true
}

/// What is known of a transaction with a protocol message before its inputs are
/// looked up: the message, the address behind each output that is eligible, and
/// the number of its outputs.
pub struct DecipheredTx {
    pub artifact: Artifact,
    pub receivers: HashMap<u32, Option<String>>,
    pub total_outputs: u32,
}

impl DecipheredTx {
    /// The events of the transaction when its inputs bring in the given balances.
    pub open spec fn events(&self, balances: Seq<RuneInputsView>) -> Seq<LedgerEvent> {
        artifact_events(self.artifact@, balances, self.receivers@, self.total_outputs)
    }

    /// Whether the amounts that are added up and the numbers of the events fit their
    /// integer types.
    pub open spec fn fits(&self, balances: Seq<RuneInputsView>) -> bool {
        artifact_fits(self.artifact@, balances, self.receivers@, self.total_outputs)
    }
}

/// Carries out edicts one after the other, up to the first one on a rune that is
/// in no block yet, and nothing where amounts do not fit their integer type. Also
/// tells whether there was such a rune.
fn checked_edicts(
    edicts: &Vec<Edict>,
    balances: &mut RuneBalances,
    receivers: &HashMap<u32, Option<String>>,
    total_outputs: u32,
) -> (r: Option<(Vec<LedgerEvent>, bool)>)
    requires
        old(balances).wf(),
    ensures
        ({
            let done = edicts@.take(included(edicts@) as int);
            let outcome = apply_edicts(done, old(balances)@, receivers@, total_outputs);
            match r {
                Some((events, stopped)) => {
                    &&& edicts_fit(done, old(balances)@, receivers@, total_outputs)
                    &&& events@ == outcome.events
                    &&& final(balances)@ == outcome.balances
                    &&& stopped == (included(edicts@) < edicts@.len())
                },
                None => !edicts_fit(done, old(balances)@, receivers@, total_outputs),
            }
        }),
{
    let ghost start = balances@;
    let mut events: Vec<LedgerEvent> = Vec::new();
    let mut i: usize = 0;
    assert(edicts@.take(0) =~= Seq::<Edict>::empty());
    while i < edicts.len()
        invariant
            i <= edicts.len(),
            balances.wf(),
            start == old(balances)@,
            forall|k: int| 0 <= k < i ==> !is_unincluded((#[trigger] edicts@[k]).id),
            events@ == apply_edicts(
                edicts@.take(i as int),
                start,
                receivers@,
                total_outputs,
            ).events,
            balances@ == apply_edicts(
                edicts@.take(i as int),
                start,
                receivers@,
                total_outputs,
            ).balances,
            edicts_fit(edicts@.take(i as int), start, receivers@, total_outputs),
        decreases edicts.len() - i,
    {
        let edict = &edicts[i];
        if edict.id.block == 0 && edict.id.tx == 0 {
            proof {
                lemma_included_up_to(edicts@, i as int);
            }
            return Some((events, true));
        }
        if !fits_edict(edict, balances) {
            proof {
                lemma_misfit(edicts@, i as int, start, receivers@, total_outputs);
            }
            return None;
        }
        let mut moved = collect_edicts(edict, balances, receivers, total_outputs);
        events.append(&mut moved);
        proof {
            lemma_edicts_step(edicts@, i as int);
        }
        i += 1;
    }
    proof {
        lemma_included_all(edicts@);
    }
    Some((events, false))
}

proof fn lemma_edicts_step(edicts: Seq<Edict>, i: int)
    requires
        0 <= i < edicts.len(),
    ensures
        edicts.take(i + 1).drop_last() == edicts.take(i),
        edicts.take(i + 1).last() == edicts[i],
{
    assert(edicts.take(i + 1).drop_last() =~= edicts.take(i));
}

/// The events of a transaction whose inputs bring in the given balances, and
/// nothing where amounts or numbers do not fit their integer types.
fn checked_events(tx: &DecipheredTx, input_runes_balances: RuneBalances) -> (r: Option<
    Vec<LedgerEvent>,
>)
    requires
        input_runes_balances.wf(),
    ensures
        match r {
            Some(events) => {
                &&& tx.fits(input_runes_balances@)
                &&& events@ == tx.events(input_runes_balances@)
            },
            None => !tx.fits(input_runes_balances@),
        },
{
    let mut balances = input_runes_balances;
    let limit: u64 = u32::MAX as u64;
    let events = match &tx.artifact {
        Artifact::Runestone { edicts, pointer } => {
            proof {
                lemma_included_at_least(edicts@, 0);
            }
            match checked_edicts(edicts, &mut balances, &tx.receivers, tx.total_outputs) {
                None => {
                    return None;
                },
                Some((mut events, stopped)) => {
                    if events.len() as u64 > limit {
                        return None;
                    }
                    if stopped {
                        return Some(Vec::new());
                    }
                    assert(edicts@.take(edicts.len() as int) =~= edicts@);
                    if !fits_allocation(&balances) {
                        return None;
                    }
                    let mut rest = allocate_remaining_balances(
                        *pointer,
                        &mut balances,
                        &tx.receivers,
                    );
                    events.append(&mut rest);
                    events
                },
            }
        },
        Artifact::Cenotaph { etching } => {
            let mut events = burn_input(&mut balances);
            if etching.is_some() {
                events.push(apply_cenotaph_etching(&unincluded_rune_id()));
            }
            events
        },
    };
    if events.len() as u64 > limit {
        return None;
    }
    Some(events)
}

/// The ledger entries of a transaction whose inputs bring in the given balances,
/// and nothing where amounts or numbers do not fit their integer types.
pub fn ledger_entries(
    tx: &DecipheredTx,
    tx_id: &String,
    input_runes_balances: RuneBalances,
) -> (r: Option<Vec<DBMempoolLedgerEntry>>)
    requires
        input_runes_balances.wf(),
    ensures
        match r {
            Some(entries) => {
                &&& tx.fits(input_runes_balances@)
                &&& records_all(entries@, tx.events(input_runes_balances@), *tx_id)
            },
            None => !tx.fits(input_runes_balances@),
        },
{
    match checked_events(tx, input_runes_balances) {
        Some(events) => Some(record_events(&events, tx_id)),
        None => None,
    }
}

proof fn lemma_misfit(
    edicts: Seq<Edict>,
    i: int,
    balances: Seq<RuneInputsView>,
    receivers: Map<u32, Option<String>>,
    total_outputs: u32,
)
    requires
        0 <= i < edicts.len(),
        forall|k: int| 0 <= k <= i ==> !is_unincluded((#[trigger] edicts[k]).id),
        !edict_fits(
            edicts[i],
            apply_edicts(edicts.take(i), balances, receivers, total_outputs).balances,
        ),
    ensures
        !edicts_fit(
            edicts.take(included(edicts) as int),
            balances,
            receivers,
            total_outputs,
        ),
{
    lemma_included_at_least(edicts, i + 1);
    lemma_misfit_stays(edicts, i, included(edicts) as int, balances, receivers, total_outputs);
}

proof fn lemma_misfit_stays(
    edicts: Seq<Edict>,
    i: int,
    n: int,
    balances: Seq<RuneInputsView>,
    receivers: Map<u32, Option<String>>,
    total_outputs: u32,
)
    requires
        0 <= i < n <= edicts.len(),
        !edict_fits(
            edicts[i],
            apply_edicts(edicts.take(i), balances, receivers, total_outputs).balances,
        ),
    ensures
        !edicts_fit(edicts.take(n), balances, receivers, total_outputs),
    decreases n,
{
    lemma_edicts_step(edicts, n - 1);
    if i < n - 1 {
        lemma_misfit_stays(edicts, i, n - 1, balances, receivers, total_outputs);
    }
}

proof fn lemma_included_at_least(edicts: Seq<Edict>, n: int)
    requires
        0 <= n <= edicts.len(),
        forall|k: int| 0 <= k < n ==> !is_unincluded((#[trigger] edicts[k]).id),
    ensures
        n <= included(edicts) <= edicts.len(),
    decreases edicts.len(),
{
    if n == edicts.len() {
        lemma_included_all(edicts);
    } else {
        lemma_included_at_least(edicts.drop_last(), n);
    }
}

} // verus!

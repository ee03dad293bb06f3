//! The rune balances that the inputs of a transaction bring in, by rune.

use vstd::prelude::*;

use crate::db::models::input_rune_balance::{clone_address, total_amount, InputRuneBalance};
use crate::runes::RuneId;

verus! {

/// The inputs that carry one rune.
#[derive(Debug, PartialEq, Eq)]
pub struct RuneInputs {
    pub rune_id: RuneId,
    pub inputs: Vec<InputRuneBalance>,
}

/// The model of [`RuneInputs`].
pub struct RuneInputsView {
    pub rune_id: RuneId,
    pub inputs: Seq<InputRuneBalance>,
}

impl View for RuneInputs {
    type V = RuneInputsView;

    open spec fn view(&self) -> RuneInputsView {
        RuneInputsView { rune_id: self.rune_id, inputs: self.inputs@ }
    }
}

/// The inputs of a transaction by the rune that they carry, in the order in
/// which the runes are walked. No rune is listed twice.
#[derive(Debug, PartialEq, Eq)]
pub struct RuneBalances {
    pub entries: Vec<RuneInputs>,
}

/// No rune is listed twice.
pub open spec fn distinct_runes(balances: Seq<RuneInputsView>) -> bool {
    forall|i: int, j: int|
        0 <= i < j < balances.len() ==> #[trigger] balances[i].rune_id
            != #[trigger] balances[j].rune_id
}

/// The inputs that carry a rune, where the rune is listed.
pub open spec fn inputs_of(balances: Seq<RuneInputsView>, rune_id: RuneId) -> Option<
    Seq<InputRuneBalance>,
>
    decreases balances.len(),
{
    if balances.len() == 0 {
        None
    } else if balances.last().rune_id == rune_id {
        Some(balances.last().inputs)
    } else {
        inputs_of(balances.drop_last(), rune_id)
    }
}

/// The balances with other inputs for a rune that is listed.
pub open spec fn with_inputs(
    balances: Seq<RuneInputsView>,
    rune_id: RuneId,
    inputs: Seq<InputRuneBalance>,
) -> Seq<RuneInputsView> {
    Seq::new(
        balances.len(),
        |i: int|
            if balances[i].rune_id == rune_id {
                RuneInputsView { rune_id, inputs }
            } else {
                balances[i]
            },
    )
}

impl View for RuneBalances {
    type V = Seq<RuneInputsView>;

    open spec fn view(&self) -> Seq<RuneInputsView> {
        self.entries@.map_values(|entry: RuneInputs| entry@)
    }
}

/// A listed rune has the inputs that it is listed with.
pub proof fn lemma_inputs_of_listed(balances: Seq<RuneInputsView>, i: int)
    requires
        0 <= i < balances.len(),
        distinct_runes(balances),
    ensures
        inputs_of(balances, balances[i].rune_id) == Some(balances[i].inputs),
    decreases balances.len(),
{
    if i < balances.len() - 1 {
        assert(balances.last().rune_id != balances[i].rune_id);
        assert(balances.drop_last()[i] == balances[i]);
        lemma_inputs_of_listed(balances.drop_last(), i);
    }
}

/// A rune that is not listed has no inputs.
pub proof fn lemma_inputs_of_unlisted(balances: Seq<RuneInputsView>, rune_id: RuneId)
    requires
        forall|i: int| 0 <= i < balances.len() ==> #[trigger] balances[i].rune_id != rune_id,
    ensures
        inputs_of(balances, rune_id) is None,
    decreases balances.len(),
{
    if balances.len() > 0 {
        let rest = balances.drop_last();
        assert forall|i: int| 0 <= i < rest.len() implies #[trigger] rest[i].rune_id != rune_id by {
            assert(rest[i] == balances[i]);
        }
        assert(balances[balances.len() - 1].rune_id != rune_id);
        lemma_inputs_of_unlisted(rest, rune_id);
    }
}

/// The balances with further inputs for a rune, which is listed last where it was
/// not listed before.
pub open spec fn extend_balances(
    balances: Seq<RuneInputsView>,
    rune_id: RuneId,
    inputs: Seq<InputRuneBalance>,
) -> Seq<RuneInputsView> {
    match inputs_of(balances, rune_id) {
        Some(listed) => with_inputs(balances, rune_id, listed + inputs),
        None => balances.push(RuneInputsView { rune_id, inputs }),
    }
}

/// What the inputs hold of a rune in all.
pub open spec fn rune_total(balances: Seq<RuneInputsView>, rune_id: RuneId) -> nat {
    match inputs_of(balances, rune_id) {
        Some(inputs) => total_amount(inputs),
        None => 0,
    }
}

proof fn lemma_total_of_both(a: Seq<InputRuneBalance>, b: Seq<InputRuneBalance>)
    ensures
        total_amount(a + b) == total_amount(a) + total_amount(b),
    decreases b.len(),
{
    if b.len() == 0 {
        assert(a + b =~= a);
    } else {
        assert((a + b).drop_last() =~= a + b.drop_last());
        lemma_total_of_both(a, b.drop_last());
    }
}

/// Other inputs for a listed rune are found under that rune, and no other rune changes.
pub proof fn lemma_inputs_of_with_inputs(
    balances: Seq<RuneInputsView>,
    rune_id: RuneId,
    inputs: Seq<InputRuneBalance>,
    other: RuneId,
)
    ensures
        inputs_of(with_inputs(balances, rune_id, inputs), other) == if other == rune_id
            && inputs_of(balances, rune_id) is Some {
            Some(inputs)
        } else {
            inputs_of(balances, other)
        },
    decreases balances.len(),
{
    if balances.len() > 0 {
        let after = with_inputs(balances, rune_id, inputs);
        assert(after.drop_last() =~= with_inputs(balances.drop_last(), rune_id, inputs));
        lemma_inputs_of_with_inputs(balances.drop_last(), rune_id, inputs, other);
    }
}

/// Further inputs for a rune add what they hold to that rune and to no other.
pub proof fn extending_adds_to_one_rune(
    balances: Seq<RuneInputsView>,
    rune_id: RuneId,
    inputs: Seq<InputRuneBalance>,
    other: RuneId,
)
    ensures
        rune_total(extend_balances(balances, rune_id, inputs), other) == rune_total(balances, other)
            + if other == rune_id {
            total_amount(inputs)
        } else {
            0
        },
{
    match inputs_of(balances, rune_id) {
        Some(listed) => {
            lemma_inputs_of_with_inputs(balances, rune_id, listed + inputs, other);
            lemma_total_of_both(listed, inputs);
        },
        None => {
            let after = balances.push(RuneInputsView { rune_id, inputs });
            assert(after.drop_last() =~= balances);
        },
    }
}

/// Further inputs for a rune leave no rune listed twice.
pub proof fn extending_keeps_runes_distinct(
    balances: Seq<RuneInputsView>,
    rune_id: RuneId,
    inputs: Seq<InputRuneBalance>,
)
    requires
        distinct_runes(balances),
    ensures
        distinct_runes(extend_balances(balances, rune_id, inputs)),
{
    let after = extend_balances(balances, rune_id, inputs);
    assert forall|i: int, j: int| 0 <= i < j < after.len() implies #[trigger] after[i].rune_id
        != #[trigger] after[j].rune_id by {
        if inputs_of(balances, rune_id) is Some {
            assert(balances[i].rune_id != balances[j].rune_id);
        } else {
            lemma_inputs_of_listed(balances, i);
            if j < balances.len() {
                assert(balances[i].rune_id != balances[j].rune_id);
            }
        }
    }
}

fn push_clones(list: &mut Vec<InputRuneBalance>, inputs: &Vec<InputRuneBalance>)
    ensures
        final(list)@ == old(list)@ + inputs@,
{
    let ghost start = list@;
    let mut i: usize = 0;
    while i < inputs.len()
        invariant
            i <= inputs.len(),
            list@ == start + inputs@.take(i as int),
        decreases inputs.len() - i,
    {
        list.push(
            InputRuneBalance {
                address: clone_address(&inputs[i].address),
                amount: inputs[i].amount,
            },
        );
        assert(list@ =~= start + inputs@.take(i + 1));
        i += 1;
    }
    assert(inputs@.take(inputs.len() as int) =~= inputs@);
}

impl RuneBalances {
    /// No rune is listed twice.
    pub open spec fn wf(&self) -> bool {
        distinct_runes(self@)
    }

    /// No balances at all.
    pub fn new() -> (r: Self)
        ensures
            r.wf(),
            r@ == Seq::<RuneInputsView>::empty(),
    {
        let r = RuneBalances { entries: Vec::new() };
        assert(r@ =~= Seq::<RuneInputsView>::empty());
        r
    }

    /// The position at which a rune is listed.
    pub fn position(&self, rune_id: &RuneId) -> (r: Option<usize>)
        requires
            self.wf(),
        ensures
            match r {
                Some(i) => i < self@.len() && self@[i as int].rune_id == *rune_id,
                None => forall|i: int|
                    0 <= i < self@.len() ==> #[trigger] self@[i].rune_id != *rune_id,
            },
            match r {
                Some(i) => inputs_of(self@, *rune_id) == Some(self@[i as int].inputs),
                None => inputs_of(self@, *rune_id) is None,
            },
    {
        let mut i: usize = 0;
        while i < self.entries.len()
            invariant
                self.wf(),
                i <= self.entries.len(),
                forall|k: int| 0 <= k < i ==> #[trigger] self@[k].rune_id != *rune_id,
            decreases self.entries.len() - i,
        {
            assert(self@[i as int].rune_id == self.entries@[i as int].rune_id);
            if self.entries[i].rune_id == *rune_id {
                proof {
                    lemma_inputs_of_listed(self@, i as int);
                }
                return Some(i);
            }
            i += 1;
        }
        proof {
            lemma_inputs_of_unlisted(self@, *rune_id);
        }
        None
    }
}

impl RuneBalances {
    /// Adds further inputs that carry a rune.
    pub fn extend(&mut self, rune_id: RuneId, inputs: &Vec<InputRuneBalance>)
        requires
            old(self).wf(),
        ensures
            final(self).wf(),
            final(self)@ == extend_balances(old(self)@, rune_id, inputs@),
    {
        let ghost before = self@;
        match self.position(&rune_id) {
            Some(i) => {
                push_clones(&mut self.entries[i].inputs, inputs);
                assert(self@ =~= extend_balances(before, rune_id, inputs@));
            },
            None => {
                let mut listed: Vec<InputRuneBalance> = Vec::new();
                push_clones(&mut listed, inputs);
                assert(listed@ =~= inputs@);
                self.entries.push(RuneInputs { rune_id, inputs: listed });
                assert(self@ =~= extend_balances(before, rune_id, inputs@));
            },
        }
    }
}

/// The total of the balances, where it fits the integer type.
pub fn checked_total(inputs: &Vec<InputRuneBalance>) -> (r: Option<u128>)
    ensures
        match r {
            Some(total) => total == total_amount(inputs@),
            None => total_amount(inputs@) > u128::MAX,
        },
{
    let mut total: u128 = 0;
    let mut i: usize = 0;
    while i < inputs.len()
        invariant
            i <= inputs.len(),
            total == total_amount(inputs@.take(i as int)),
        decreases inputs.len() - i,
    {
        proof {
            assert(inputs@.take(i + 1).drop_last() =~= inputs@.take(i as int));
            lemma_total_is_monotone(inputs@, i + 1);
        }
        match total.checked_add(inputs[i].amount) {
            Some(sum) => {
                total = sum;
            },
            None => {
                return None;
            },
        }
        i += 1;
    }
    assert(inputs@.take(inputs.len() as int) =~= inputs@);
    Some(total)
}

proof fn lemma_total_is_monotone(inputs: Seq<InputRuneBalance>, k: int)
    requires
        0 <= k <= inputs.len(),
    ensures
        total_amount(inputs.take(k)) <= total_amount(inputs),
    decreases inputs.len(),
{
    if k < inputs.len() {
        lemma_total_is_monotone(inputs.drop_last(), k);
        assert(inputs.drop_last().take(k) =~= inputs.take(k));
    } else {
        assert(inputs.take(k) =~= inputs);
    }
}

} // verus!

//! The ids of the transactions that are known to be in the mempool.

use vstd::prelude::*;

use crate::db::statement::{bare, bare_statement, texts_view};
use crate::db::step::{Reply, Step, StepView};
use crate::mempool::table::SELECT_MEMPOOL_TX_IDS;

verus! {

/// A set of transaction ids. No id is listed twice.
#[derive(Debug, PartialEq, Eq)]
pub struct MempoolCache {
    pub tx_ids: Vec<String>,
}

impl View for MempoolCache {
    type V = Set<Seq<char>>;

    open spec fn view(&self) -> Set<Seq<char>> {
        texts_view(self.tx_ids@).to_set()
    }
}

/// The position of an id, where it is listed.
fn position(tx_ids: &Vec<String>, tx_id: &String) -> (r: Option<usize>)
    ensures
        match r {
            Some(i) => i < tx_ids@.len() && tx_ids@[i as int]@ == tx_id@,
            None => !texts_view(tx_ids@).contains(tx_id@),
        },
{
    let mut i: usize = 0;
    while i < tx_ids.len()
        invariant
            i <= tx_ids.len(),
            forall|k: int| 0 <= k < i ==> (#[trigger] tx_ids@[k])@ != tx_id@,
        decreases tx_ids.len() - i,
    {
        if tx_ids[i] == *tx_id {
            return Some(i);
        }
        i += 1;
    }
    proof {
        if texts_view(tx_ids@).contains(tx_id@) {
            let k = choose|k: int| 0 <= k < tx_ids@.len() && texts_view(tx_ids@)[k] == tx_id@;
            assert(tx_ids@[k]@ == tx_id@);
        }
    }
    None
}

impl MempoolCache {
    /// No id is listed twice.
    pub open spec fn wf(&self) -> bool {
        texts_view(self.tx_ids@).no_duplicates()
    }

    /// No transactions.
    pub fn new() -> (r: Self)
        ensures
            r.wf(),
            r@ == Set::<Seq<char>>::empty(),
    {
        let r = MempoolCache { tx_ids: Vec::new() };
        assert(texts_view(r.tx_ids@) =~= Seq::<Seq<char>>::empty());
        assert(r@ =~= Set::<Seq<char>>::empty());
        r
    }

    /// Whether a transaction is known.
    pub fn contains(&self, tx_id: &String) -> (r: bool)
        ensures
            r == self@.contains(tx_id@),
    {
        match position(&self.tx_ids, tx_id) {
            Some(i) => {
                assert(texts_view(self.tx_ids@)[i as int] == tx_id@);
                true
            },
            None => false,
        }
    }

    /// Adds a transaction, and tells whether it was new.
    pub fn insert(&mut self, tx_id: String) -> (r: bool)
        requires
            old(self).wf(),
        ensures
            final(self).wf(),
            final(self)@ == old(self)@.insert(tx_id@),
            r == !old(self)@.contains(tx_id@),
    {
        let ghost before = texts_view(self.tx_ids@);
        if self.contains(&tx_id) {
            assert(self@ =~= self@.insert(tx_id@));
            return false;
        }
        let ghost text = tx_id@;
        self.tx_ids.push(tx_id);
        proof {
            let after = texts_view(self.tx_ids@);
            assert(after =~= before.push(text));
            assert(!before.contains(text));
            before.lemma_push_to_set_commute(text);
        }
        true
    }

    /// Removes a transaction, and tells whether it was known.
    pub fn remove(&mut self, tx_id: &String) -> (r: bool)
        requires
            old(self).wf(),
        ensures
            final(self).wf(),
            final(self)@ == old(self)@.remove(tx_id@),
            r == old(self)@.contains(tx_id@),
    {
        let ghost before = texts_view(self.tx_ids@);
        match position(&self.tx_ids, tx_id) {
            Some(i) => {
                self.tx_ids.remove(i);
                proof {
                    let after = texts_view(self.tx_ids@);
                    assert(after =~= before.remove(i as int));
                    assert(before[i as int] == tx_id@);
                    assert forall|x: Seq<char>| after.contains(x) <==> before.contains(x) && x
                        != tx_id@ by {
                        if after.contains(x) {
                            let k = choose|k: int| 0 <= k < after.len() && after[k] == x;
                            assert(before[if k < i { k } else { k + 1 }] == x);
                        }
                        if before.contains(x) && x != tx_id@ {
                            let k = choose|k: int| 0 <= k < before.len() && before[k] == x;
                            assert(after[if k < i { k } else { k - 1 }] == x);
                        }
                    }
                    assert(self@ =~= before.to_set().remove(tx_id@));
                }
                true
            },
            None => {
                assert(self@ =~= self@.remove(tx_id@));
                false
            },
        }
    }

    /// The transactions that are not among others.
    pub fn difference(&self, others: &Vec<String>) -> (r: Vec<String>)
        requires
            self.wf(),
        ensures
            texts_view(r@).no_duplicates(),
            texts_view(r@).to_set() == self@.difference(texts_view(others@).to_set()),
    {
        let ghost own = texts_view(self.tx_ids@);
        let ghost other = texts_view(others@);
        let mut rest: Vec<String> = Vec::new();
        let mut i: usize = 0;
        while i < self.tx_ids.len()
            invariant
                i <= self.tx_ids.len(),
                self.wf(),
                own == texts_view(self.tx_ids@),
                other == texts_view(others@),
                texts_view(rest@).no_duplicates(),
                texts_view(rest@).to_set() == own.take(i as int).to_set().difference(
                    other.to_set(),
                ),
            decreases self.tx_ids.len() - i,
        {
            let ghost before = texts_view(rest@);
            let ghost text = self.tx_ids@[i as int]@;
            assert(own[i as int] == text);
            let known = match position(others, &self.tx_ids[i]) {
                Some(k) => {
                    assert(other[k as int] == text);
                    true
                },
                None => false,
            };
            if !known {
                rest.push(self.tx_ids[i].clone());
                assert(texts_view(rest@) =~= before.push(text));
            }
            proof {
                let seen = own.take(i as int);
                assert(own.take(i + 1) =~= seen.push(text));
                assert(!seen.contains(text)) by {
                    if seen.contains(text) {
                        let k = choose|k: int| 0 <= k < i && seen[k] == text;
                        assert(own[k] == own[i as int]);
                    }
                }
                seen.lemma_push_to_set_commute(text);
                before.lemma_push_to_set_commute(text);
                assert(seen.to_set().contains(text) == seen.contains(text));
                assert(before.to_set().contains(text) == before.contains(text));
                assert(other.to_set().contains(text) == other.contains(text));
                assert(texts_view(rest@).to_set() =~= own.take(i + 1).to_set().difference(
                    other.to_set(),
                ));
            }
            i += 1;
        }
        proof {
            assert(own.take(own.len() as int) =~= own);
            assert(texts_view(rest@).to_set() =~= self@.difference(other.to_set()));
        }
        rest
    }
}

/// Adds the transactions that have entries in the database. Gives up where the
/// statement is refused.
pub fn pg_actualize_mempool_cache(cache: &mut MempoolCache, reply: &Reply<String>) -> (r: Step<()>)
    requires
        old(cache).wf(),
    ensures
        final(cache).wf(),
        final(cache)@ == match *reply {
            Reply::Rows(rows) => old(cache)@.union(texts_view(rows@).to_set()),
            _ => old(cache)@,
        },
        r@ == match *reply {
            Reply::Begun => StepView::Run(bare_statement(SELECT_MEMPOOL_TX_IDS@)),
            Reply::Rows(_) => StepView::Finish(()),
            Reply::Failed => StepView::Abort("error getting tx_ids of the mempool"@),
        },
{
    match reply {
        Reply::Begun => Step::Run(bare(SELECT_MEMPOOL_TX_IDS)),
        Reply::Failed => Step::Abort("error getting tx_ids of the mempool"),
        Reply::Rows(rows) => {
            let ghost before = cache@;
            let ghost ids = texts_view(rows@);
            let mut i: usize = 0;
            assert(cache@ =~= before.union(ids.take(0).to_set()));
            while i < rows.len()
                invariant
                    i <= rows.len(),
                    cache.wf(),
                    ids == texts_view(rows@),
                    cache@ == before.union(ids.take(i as int).to_set()),
                decreases rows.len() - i,
            {
                let ghost text = rows@[i as int]@;
                cache.insert(rows[i].clone());
                proof {
                    let seen = ids.take(i as int);
                    let next = ids.take(i + 1);
                    assert(next =~= seen.push(text));
                    seen.lemma_push_to_set_commute(text);
                    assert(cache@ =~= before.union(next.to_set()));
                }
                i += 1;
            }
            assert(ids.take(ids.len() as int) =~= ids);
            Step::Finish(())
        },
    }
}

} // verus!

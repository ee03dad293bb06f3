//! Lists of records that stand for maps from a key to a record.

use vstd::prelude::*;

verus! {

/// A record with a key.
pub trait Keyed: Sized {
    /// What the key is made of.
    type Key;

    /// The key of the record.
    spec fn key(&self) -> Self::Key;

    /// Whether two records have the same key.
    fn same_key(&self, other: &Self) -> (r: bool)
        ensures
            r == (self.key() == other.key()),
    ;
}

/// The last record with a key, where there is one.
pub open spec fn latest<R: Keyed>(records: Seq<R>, key: R::Key) -> Option<R>
    decreases records.len(),
{
    if records.len() == 0 {
        None
    } else if records.last().key() == key {
        Some(records.last())
    } else {
        latest(records.drop_last(), key)
    }
}

/// The keys of records, each once, in the order in which they first occur.
pub open spec fn keys_in_order<R: Keyed>(records: Seq<R>) -> Seq<R::Key>
    decreases records.len(),
{
    if records.len() == 0 {
        Seq::empty()
    } else {
        let before = keys_in_order(records.drop_last());
        if before.contains(records.last().key()) {
            before
        } else {
            before.push(records.last().key())
        }
    }
}

/// No two records have the same key.
pub open spec fn distinct_keys<R: Keyed>(records: Seq<R>) -> bool {
    forall|i: int, j: int|
        0 <= i < j < records.len() ==> (#[trigger] records[i]).key() != (
        #[trigger] records[j]).key()
}

/// A key that a record has is found.
pub proof fn lemma_latest_of_listed<R: Keyed>(records: Seq<R>, i: int)
    requires
        0 <= i < records.len(),
    ensures
        latest(records, records[i].key()) is Some,
    decreases records.len(),
{
    if i < records.len() - 1 {
        lemma_latest_of_listed(records.drop_last(), i);
    }
}

/// The last record with a key is one of the records, and has the key.
pub proof fn lemma_latest_is_listed<R: Keyed>(records: Seq<R>, key: R::Key)
    ensures
        latest(records, key) matches Some(record) ==> {
            &&& record.key() == key
            &&& exists|i: int| 0 <= i < records.len() && #[trigger] records[i] == record
        },
    decreases records.len(),
{
    if records.len() > 0 {
        if records.last().key() == key {
            assert(records[records.len() - 1] == records.last());
        } else {
            lemma_latest_is_listed(records.drop_last(), key);
            if let Some(record) = latest(records, key) {
                let i = choose|i: int|
                    0 <= i < records.len() - 1 && #[trigger] records.drop_last()[i] == record;
                assert(records[i] == record);
            }
        }
    }
}

/// The keys are those that a record has, each once.
pub proof fn lemma_keys_in_order<R: Keyed>(records: Seq<R>, key: R::Key)
    ensures
        keys_in_order(records).no_duplicates(),
        keys_in_order(records).contains(key) <==> latest(records, key) is Some,
    decreases records.len(),
{
    if records.len() > 0 {
        let rest = records.drop_last();
        let before = keys_in_order(rest);
        let last = records.last().key();
        lemma_keys_in_order(rest, key);
        if !before.contains(last) {
            vstd::seq_lib::lemma_seq_contains_after_push(before, last, key);
        }
    }
}

/// One record for each of different keys leaves no two records with the same key,
/// and each key has its record.
pub proof fn lemma_latest_by_key<R: Keyed>(records: Seq<R>, keys: Seq<R::Key>, i: int)
    requires
        records.len() == keys.len(),
        keys.no_duplicates(),
        forall|k: int| 0 <= k < keys.len() ==> (#[trigger] records[k]).key() == keys[k],
        0 <= i < keys.len(),
    ensures
        latest(records, keys[i]) == Some(records[i]),
    decreases records.len(),
{
    if i < records.len() - 1 {
        let rest = records.drop_last();
        assert(records[records.len() - 1].key() != keys[i]);
        assert forall|k: int| 0 <= k < rest.len() implies (#[trigger] rest[k]).key()
            == keys.drop_last()[k] by {
            assert(rest[k] == records[k]);
        }
        lemma_latest_by_key(rest, keys.drop_last(), i);
    } else {
        assert(records[i].key() == keys[i]);
    }
}

/// The last record with a key in two lists is that in the second, where it has one.
pub proof fn lemma_latest_of_both<R: Keyed>(a: Seq<R>, b: Seq<R>, key: R::Key)
    ensures
        latest(a + b, key) == if latest(b, key) is Some {
            latest(b, key)
        } else {
            latest(a, key)
        },
    decreases b.len(),
{
    if b.len() == 0 {
        assert(a + b =~= a);
    } else {
        assert((a + b).drop_last() =~= a + b.drop_last());
        lemma_latest_of_both(a, b.drop_last(), key);
    }
}

/// The position of the last record with the key of another one.
pub(crate) fn find_latest<R: Keyed>(records: &Vec<R>, like: &R) -> (r: Option<usize>)
    ensures
        match r {
            Some(i) => {
                &&& i < records@.len()
                &&& latest(records@, like.key()) == Some(records@[i as int])
            },
            None => latest(records@, like.key()) is None,
        },
{
    let mut i: usize = records.len();
    assert(records@.take(i as int) =~= records@);
    while i > 0
        invariant
            i <= records.len(),
            latest(records@, like.key()) == latest(records@.take(i as int), like.key()),
        decreases i,
    {
        i -= 1;
        assert(records@.take(i + 1).drop_last() =~= records@.take(i as int));
        if records[i].same_key(like) {
            return Some(i);
        }
    }
    None
}

/// Whether the key of a record occurs before it, from a start on.
pub(crate) fn occurs_before<R: Keyed>(records: &Vec<R>, start: usize, at: usize) -> (r: bool)
    requires
        start <= at < records@.len(),
    ensures
        r == keys_in_order(records@.subrange(start as int, at as int)).contains(
            records@[at as int].key(),
        ),
{
    let ghost before = records@.subrange(start as int, at as int);
    let ghost key = records@[at as int].key();
    proof {
        lemma_keys_in_order(before, key);
    }
    let mut i: usize = start;
    while i < at
        invariant
            start <= i <= at < records@.len(),
            before == records@.subrange(start as int, at as int),
            key == records@[at as int].key(),
            keys_in_order(before).contains(key) <==> latest(before, key) is Some,
            forall|k: int| 0 <= k < i - start ==> (#[trigger] before[k]).key() != key,
        decreases at - i,
    {
        assert(before[i - start] == records@[i as int]);
        if records[i].same_key(&records[at]) {
            proof {
                lemma_latest_of_listed(before, i - start);
            }
            return true;
        }
        i += 1;
    }
    proof {
        lemma_latest_is_listed(before, key);
    }
    false
}

} // verus!

//! What the work on the database consists of: one step after the other, each
//! decided by how the last one went.

use vstd::prelude::*;

use crate::db::statement::{Statement, StatementView};

verus! {

/// What is to be done next.
#[derive(Debug, PartialEq, Eq)]
pub enum Step<T> {
    /// Run a statement.
    Run(Statement),
    /// Nothing: this is the result.
    Finish(T),
    /// Nothing: the error of the database is the result.
    Fail,
    /// End the process with a status.
    Exit(i32),
    /// Give up with a message.
    Abort(&'static str),
}

/// The model of [`Step`].
pub enum StepView<T> {
    Run(StatementView),
    Finish(T),
    Fail,
    Exit(i32),
    Abort(Seq<char>),
}

impl<T> View for Step<T> {
    type V = StepView<T>;

    open spec fn view(&self) -> StepView<T> {
        match *self {
            Step::Run(statement) => StepView::Run(statement@),
            Step::Finish(result) => StepView::Finish(result),
            Step::Fail => StepView::Fail,
            Step::Exit(status) => StepView::Exit(status),
            Step::Abort(message) => StepView::Abort(message@),
        }
    }
}

/// How the last statement went.
#[derive(Debug, Clone, Copy, PartialEq, Eq, Structural)]
pub enum Progress {
    /// There was none.
    Begun,
    /// It went through.
    Succeeded,
    /// The database refused it.
    Failed,
}

/// How a statement that reads rows went.
#[derive(Debug, PartialEq, Eq)]
pub enum Reply<R> {
    /// It was not run yet.
    Begun,
    /// It gave these rows.
    Rows(Vec<R>),
    /// The database refused it.
    Failed,
}

/// How a statement that reads at most one row went.
#[derive(Debug, PartialEq, Eq)]
pub enum RowReply<R> {
    /// It was not run yet.
    Begun,
    /// It gave this row, or none.
    Row(Option<R>),
    /// The database refused it.
    Failed,
}

/// How a statement went of which only the number of rows matters.
#[derive(Debug, Clone, Copy, PartialEq, Eq, Structural)]
pub enum CountReply {
    /// It was not run yet.
    Begun,
    /// It gave this many rows.
    Rows(usize),
    /// The database refused it.
    Failed,
}

/// How the last statement went where each batch takes two: one that reads the
/// records before it, and one that inserts.
#[derive(Debug, PartialEq, Eq)]
pub enum MergeReply<R> {
    /// There was none.
    Begun,
    /// These are the records before the batch.
    Previous(Vec<R>),
    /// The database refused to read.
    ReadFailed,
    /// The batch was inserted.
    Inserted,
    /// The database refused to insert.
    InsertFailed,
}

/// How many rows go into one statement at most.
pub const BATCH_SIZE: usize = 500;

/// The rows of a batch.
pub open spec fn batch_rows<R>(rows: Seq<R>, batch: nat) -> Seq<R> {
    let start = batch * BATCH_SIZE;
    let end = start + BATCH_SIZE;
    if start >= rows.len() {
        Seq::empty()
    } else {
        rows.subrange(
            start as int,
            if end <= rows.len() {
                end as int
            } else {
                rows.len() as int
            },
        )
    }
}

/// The rows of the first batches, one batch after the other.
pub open spec fn batches<R>(rows: Seq<R>, count: nat) -> Seq<R>
    decreases count,
{
    if count == 0 {
        Seq::empty()
    } else {
        batches(rows, (count - 1) as nat) + batch_rows(rows, (count - 1) as nat)
    }
}

/// The batches hold the rows in order, and each row once: the first `count` of
/// them hold the first rows, as many as fit them.
pub proof fn batches_hold_the_rows<R>(rows: Seq<R>, count: nat)
    ensures
        count * BATCH_SIZE <= rows.len() ==> batches(rows, count) == rows.take(
            (count * BATCH_SIZE) as int,
        ),
        count * BATCH_SIZE >= rows.len() ==> batches(rows, count) == rows,
    decreases count,
{
    if count == 0 {
        assert(rows.take(0) =~= Seq::<R>::empty());
        assert(rows.len() == 0 ==> rows =~= Seq::<R>::empty());
    } else {
        let before = (count - 1) as nat;
        batches_hold_the_rows(rows, before);
        if count * BATCH_SIZE <= rows.len() {
            assert(batches(rows, count) =~= rows.take((count * BATCH_SIZE) as int));
        }
        if count * BATCH_SIZE >= rows.len() {
            assert(batches(rows, count) =~= rows);
        }
    }
}

/// A batch has rows as long as there are any left, and never more than fit a
/// statement.
pub proof fn batches_are_bounded<R>(rows: Seq<R>, batch: nat)
    ensures
        batch_rows(rows, batch).len() <= BATCH_SIZE,
        batch_rows(rows, batch).len() > 0 <==> batch * BATCH_SIZE < rows.len(),
{
}

/// Where a batch starts and ends, where it has rows.
pub(crate) fn batch_range(len: usize, batch: usize) -> (r: Option<(usize, usize)>)
    ensures
        match r {
            Some((start, end)) => {
                &&& start == batch * BATCH_SIZE
                &&& start < end <= len
                &&& end == if start + BATCH_SIZE <= len {
                    start + BATCH_SIZE
                } else {
                    len as int
                }
            },
            None => batch * BATCH_SIZE >= len,
        },
{
    if batch > len / BATCH_SIZE {
        return None;
    }
    let start: usize = batch * BATCH_SIZE;
    if start >= len {
        None
    } else if len - start < BATCH_SIZE {
        Some((start, len))
    } else {
        Some((start, start + BATCH_SIZE))
    }
}

/// The steps that insert rows in batches: one statement for each batch, and the
/// end of the process where one is refused.
pub open spec fn insert_step<R>(
    rows: Seq<R>,
    batch: nat,
    last: Progress,
    statement: spec_fn(Seq<R>) -> StatementView,
) -> StepView<bool> {
    if last == Progress::Failed {
        StepView::Exit(1)
    } else if batch * BATCH_SIZE < rows.len() {
        StepView::Run(statement(batch_rows(rows, batch)))
    } else {
        StepView::Finish(true)
    }
}

/// The steps that merge rows into records in batches: for each batch, the records
/// before it are read and then those after it inserted. Where the reading is
/// refused, the error is the result; where the inserting is, the process ends.
pub open spec fn merge_step<R>(
    rows: Seq<R>,
    batch: nat,
    reply: MergeReply<R>,
    select: spec_fn(Seq<R>) -> StatementView,
    insert: spec_fn(Seq<R>, Seq<R>) -> StatementView,
) -> StepView<bool> {
    match reply {
        MergeReply::Begun | MergeReply::Inserted => if batch * BATCH_SIZE < rows.len() {
            StepView::Run(select(batch_rows(rows, batch)))
        } else {
            StepView::Finish(true)
        },
        MergeReply::Previous(previous) => StepView::Run(
            insert(batch_rows(rows, batch), previous@),
        ),
        MergeReply::ReadFailed => StepView::Fail,
        MergeReply::InsertFailed => StepView::Exit(1),
    }
}

} // verus!

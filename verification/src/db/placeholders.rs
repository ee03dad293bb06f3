//! The placeholders of parameters in the text of a statement.

use vstd::prelude::*;

use crate::decimal::{decimal, push_decimal};

verus! {

/// The placeholder of the parameter with a number, counted from one.
pub open spec fn placeholder(number: nat) -> Seq<char> {
    "$"@ + decimal(number)
}

/// The placeholders of consecutive parameters, with a separator between them.
pub open spec fn placeholders(first: nat, count: nat, separator: Seq<char>) -> Seq<char>
    decreases count,
{
    if count == 0 {
        Seq::empty()
    } else if count == 1 {
        placeholder(first)
    } else {
        placeholders(first, (count - 1) as nat, separator) + separator + placeholder(
            (first + count - 1) as nat,
        )
    }
}

/// The placeholders of one row, in brackets.
pub open spec fn row_placeholders(row: nat, columns: nat, separator: Seq<char>) -> Seq<char> {
    "("@ + placeholders(row * columns + 1, columns, separator) + ")"@
}

/// The placeholders of several rows, numbered from one, with the same separator
/// between two rows as between two columns.
pub open spec fn rows_placeholders(rows: nat, columns: nat, separator: Seq<char>) -> Seq<char>
    decreases rows,
{
    if rows == 0 {
        Seq::empty()
    } else if rows == 1 {
        row_placeholders(0, columns, separator)
    } else {
        rows_placeholders((rows - 1) as nat, columns, separator) + separator + row_placeholders(
            (rows - 1) as nat,
            columns,
            separator,
        )
    }
}

/// Appends the placeholder of a parameter.
pub fn push_placeholder(text: &mut String, number: u128)
    ensures
        final(text)@ == old(text)@ + placeholder(number as nat),
{
    text.append("$");
    push_decimal(text, number);
    assert(text@ =~= old(text)@ + placeholder(number as nat));
}

/// Appends the placeholders of consecutive parameters.
pub fn push_placeholders(text: &mut String, first: u128, count: usize, separator: &str)
    requires
        first + count <= u128::MAX,
    ensures
        final(text)@ == old(text)@ + placeholders(first as nat, count as nat, separator@),
{
    let ghost before = text@;
    let mut i: usize = 0;
    assert(before + Seq::<char>::empty() =~= before);
    while i < count
        invariant
            i <= count,
            first + count <= u128::MAX,
            text@ == before + placeholders(first as nat, i as nat, separator@),
        decreases count - i,
    {
        if i > 0 {
            text.append(separator);
        }
        push_placeholder(text, first + i as u128);
        assert(text@ =~= before + placeholders(first as nat, (i + 1) as nat, separator@));
        i += 1;
    }
}

/// Appends the placeholders of several rows.
pub fn push_rows_placeholders(text: &mut String, rows: usize, columns: u32, separator: &str)
    ensures
        final(text)@ == old(text)@ + rows_placeholders(rows as nat, columns as nat, separator@),
{
    let ghost before = text@;
    let mut i: usize = 0;
    assert(before + Seq::<char>::empty() =~= before);
    while i < rows
        invariant
            i <= rows,
            text@ == before + rows_placeholders(i as nat, columns as nat, separator@),
        decreases rows - i,
    {
        if i > 0 {
            text.append(separator);
        }
        text.append("(");
        assert(i * columns <= usize::MAX * u32::MAX) by (nonlinear_arith)
            requires
                i <= usize::MAX,
                columns <= u32::MAX,
        ;
        assert(usize::MAX * u32::MAX + 2 * u32::MAX <= u128::MAX) by (nonlinear_arith)
            requires
                usize::MAX <= u64::MAX,
        ;
        push_placeholders(text, i as u128 * columns as u128 + 1, columns as usize, separator);
        text.append(")");
        assert(text@ =~= before + rows_placeholders((i + 1) as nat, columns as nat, separator@));
        i += 1;
    }
}

} // verus!

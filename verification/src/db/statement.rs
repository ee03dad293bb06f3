//! Statements and their parameters.

use vstd::prelude::*;

use crate::db::models::db_ledger_operation::DbLedgerOperation;
use crate::db::models::input_rune_balance::clone_address;
use crate::db::types::pg_bigint_u32::PgBigIntU32;
use crate::db::types::pg_numeric_u128::PgNumericU128;
use crate::db::types::pg_numeric_u64::PgNumericU64;
use crate::db::types::pg_small_int_u8::PgSmallIntU8;
use crate::db::types::pg_text_u128::PgTextU128;

verus! {

/// The value of a parameter. Where a column can be null, so can the value.
#[derive(Debug, PartialEq, Eq)]
pub enum PgParam {
    Text(Option<String>),
    TextArray(Vec<String>),
    BigIntU32(Option<PgBigIntU32>),
    BigInt(i64),
    SmallIntU8(PgSmallIntU8),
    NumericU64(Option<PgNumericU64>),
    NumericU128(Option<PgNumericU128>),
    TextU128(Option<PgTextU128>),
    Bool(bool),
    Operation(DbLedgerOperation),
}

/// The model of [`PgParam`].
pub enum PgParamView {
    Text(Option<Seq<char>>),
    TextArray(Seq<Seq<char>>),
    BigIntU32(Option<PgBigIntU32>),
    BigInt(i64),
    SmallIntU8(PgSmallIntU8),
    NumericU64(Option<PgNumericU64>),
    NumericU128(Option<PgNumericU128>),
    TextU128(Option<PgTextU128>),
    Bool(bool),
    Operation(DbLedgerOperation),
}

/// The model of an optional text.
pub open spec fn text_view(text: Option<String>) -> Option<Seq<char>> {
    match text {
        Some(text) => Some(text@),
        None => None,
    }
}

/// The model of a list of texts.
pub open spec fn texts_view(texts: Seq<String>) -> Seq<Seq<char>> {
    texts.map_values(|text: String| text@)
}

impl View for PgParam {
    type V = PgParamView;

    open spec fn view(&self) -> PgParamView {
        match *self {
            PgParam::Text(text) => PgParamView::Text(text_view(text)),
            PgParam::TextArray(texts) => PgParamView::TextArray(texts_view(texts@)),
            PgParam::BigIntU32(value) => PgParamView::BigIntU32(value),
            PgParam::BigInt(value) => PgParamView::BigInt(value),
            PgParam::SmallIntU8(value) => PgParamView::SmallIntU8(value),
            PgParam::NumericU64(value) => PgParamView::NumericU64(value),
            PgParam::NumericU128(value) => PgParamView::NumericU128(value),
            PgParam::TextU128(value) => PgParamView::TextU128(value),
            PgParam::Bool(value) => PgParamView::Bool(value),
            PgParam::Operation(value) => PgParamView::Operation(value),
        }
    }
}

impl PgParam {
    /// A copy of a text as a parameter.
    pub fn text(text: &String) -> (r: PgParam)
        ensures
            r@ == PgParamView::Text(Some(text@)),
    {
        PgParam::Text(Some(text.clone()))
    }

    /// A copy of a text that may be null as a parameter.
    pub fn optional_text(text: &Option<String>) -> (r: PgParam)
        ensures
            r@ == PgParamView::Text(text_view(*text)),
    {
        PgParam::Text(clone_address(text))
    }
}

/// A statement: its text, and the values of its parameters in the order of their
/// numbers.
#[derive(Debug, PartialEq, Eq)]
pub struct Statement {
    pub sql: String,
    pub params: Vec<PgParam>,
}

/// The model of [`Statement`].
pub struct StatementView {
    pub sql: Seq<char>,
    pub params: Seq<PgParamView>,
}

/// The models of parameters.
pub open spec fn params_view(params: Seq<PgParam>) -> Seq<PgParamView> {
    params.map_values(|param: PgParam| param@)
}

impl View for Statement {
    type V = StatementView;

    open spec fn view(&self) -> StatementView {
        StatementView { sql: self.sql@, params: params_view(self.params@) }
    }
}

/// A statement without parameters.
pub open spec fn bare_statement(sql: Seq<char>) -> StatementView {
    StatementView { sql, params: Seq::empty() }
}

/// A statement without parameters.
pub(crate) fn bare(sql: &str) -> (r: Statement)
    ensures
        r@ == bare_statement(sql@),
{
    let statement = Statement { sql: sql.to_owned(), params: Vec::new() };
    assert(statement@.params =~= Seq::<PgParamView>::empty());
    statement
}

/// The parameters of several rows, one row after the other.
pub open spec fn flattened<R>(rows: Seq<R>, columns: spec_fn(R) -> Seq<PgParamView>) -> Seq<
    PgParamView,
>
    decreases rows.len(),
{
    if rows.len() == 0 {
        Seq::empty()
    } else {
        flattened(rows.drop_last(), columns) + columns(rows.last())
    }
}

/// The parameter that a placeholder in the text of a statement stands for is the
/// column that the placeholder stands at: with a fixed number of columns, column `j`
/// of row `i` has the number `i * width + j`, counted from zero.
pub proof fn parameters_match_placeholders<R>(
    rows: Seq<R>,
    columns: spec_fn(R) -> Seq<PgParamView>,
    width: nat,
    i: int,
    j: int,
)
    requires
        forall|k: int| 0 <= k < rows.len() ==> columns(#[trigger] rows[k]).len() == width,
        0 <= i < rows.len(),
        0 <= j < width,
    ensures
        flattened(rows, columns).len() == rows.len() * width,
        0 <= i * width + j < rows.len() * width,
        flattened(rows, columns)[i * width + j] == columns(rows[i])[j],
    decreases rows.len(),
{
    let rest = rows.drop_last();
    assert forall|k: int| 0 <= k < rest.len() implies columns(#[trigger] rest[k]).len()
        == width by {
        assert(rest[k] == rows[k]);
    }
    assert(columns(rows[rows.len() - 1]).len() == width);
    flattened_length(rest, columns, width);
    assert(rows.len() * width == rest.len() * width + width) by (nonlinear_arith)
        requires
            rows.len() == rest.len() + 1,
    ;
    assert(i * width >= 0) by (nonlinear_arith)
        requires
            i >= 0,
    ;
    if i < rest.len() {
        parameters_match_placeholders(rest, columns, width, i, j);
        assert(rest[i] == rows[i]);
    }
}

/// Rows with a fixed number of columns have that many parameters each.
pub proof fn flattened_length<R>(
    rows: Seq<R>,
    columns: spec_fn(R) -> Seq<PgParamView>,
    width: nat,
)
    requires
        forall|k: int| 0 <= k < rows.len() ==> columns(#[trigger] rows[k]).len() == width,
    ensures
        flattened(rows, columns).len() == rows.len() * width,
    decreases rows.len(),
{
    if rows.len() > 0 {
        let rest = rows.drop_last();
        assert forall|k: int| 0 <= k < rest.len() implies columns(#[trigger] rest[k]).len()
            == width by {
            assert(rest[k] == rows[k]);
        }
        assert(columns(rows[rows.len() - 1]).len() == width);
        flattened_length(rest, columns, width);
        assert(rows.len() * width == rest.len() * width + width) by (nonlinear_arith)
            requires
                rows.len() == rest.len() + 1,
        ;
    } else {
        assert(0 * width == 0) by (nonlinear_arith);
    }
}

} // verus!

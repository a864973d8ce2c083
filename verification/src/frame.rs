//! Tables of bars, held in `polars` data frames.
//!
//! A frame is known to the proofs by its columns (names and types, in order)
//! and by its rows, each standing as its opening time and its volume.

use crate::market::str_eq;
use polars::prelude::DataFrame;
use polars::prelude::DataType;
use polars::prelude::IntoLazy;
use polars::prelude::Series;
use vstd::prelude::*;

verus! {

/// A `polars` data frame, opaque to the proofs but for the two names below.
#[verifier::external_type_specification]
#[verifier::external_body]
pub struct ExDataFrame(polars::prelude::DataFrame);

/// A column of a data frame: declared because the frame's indexing impls
/// name it; no proof looks into one.
#[verifier::external_type_specification]
#[verifier::external_body]
pub struct ExColumn(polars::prelude::Column);

/// The error of `polars`: declared because the column operators name it; the
/// wrappers hand it on as text.
#[verifier::external_type_specification]
#[verifier::external_body]
pub struct ExPolarsError(polars::prelude::PolarsError);

/// The type of a column, as far as bar tables tell types apart.
#[derive(Clone, Copy, Debug, PartialEq, Eq, Structural)]
pub enum ColumnType {
    /// `DataType::Int64`.
    Int64,
    /// `DataType::UInt64`.
    UInt64,
    /// `DataType::Float64`.
    Float64,
    /// Any other data type.
    Other,
}

/// One row of a frame, with every cell of a bar: its `ts_nanos` cell, its
/// `open`, `high`, `low` and `close` cells, each held as the bit pattern of
/// its 64-bit float (`f64::to_bits`), and its `volume` cell. A cell stands as
/// `None` where it is null, or where its column is missing or not of the type
/// of the bar table (`Int64`, `Float64`, `UInt64`).
#[derive(Clone, Copy, Debug, PartialEq, Eq, Structural)]
pub struct Row {
    pub ts_nanos: Option<i64>,
    pub open: Option<u64>,
    pub high: Option<u64>,
    pub low: Option<u64>,
    pub close: Option<u64>,
    pub volume: Option<u64>,
}

/// The rows of `df`, in order; one per row of the frame.
pub uninterp spec fn frame_rows(df: polars::prelude::DataFrame) -> Seq<Row>;

/// The columns of `df`, in order: each one's name and type.
pub uninterp spec fn frame_layout(df: polars::prelude::DataFrame) -> Seq<(Seq<char>, ColumnType)>;

/// The columns of a bar table: the opening time in nanoseconds since the Unix
/// epoch, four prices and the volume.
pub open spec fn bar_layout() -> Seq<(Seq<char>, ColumnType)> {
    seq![
        ("ts_nanos"@, ColumnType::Int64),
        ("open"@, ColumnType::Float64),
        ("high"@, ColumnType::Float64),
        ("low"@, ColumnType::Float64),
        ("close"@, ColumnType::Float64),
        ("volume"@, ColumnType::UInt64),
    ]
}

/// Whether `df` has exactly the columns of a bar table.
pub open spec fn frame_is_bar(df: polars::prelude::DataFrame) -> bool {
    frame_layout(df) == bar_layout()
}

/// Whether the opening time `t` lies in `[begin, end)`; a null time never does.
pub open spec fn in_window(t: Option<i64>, begin: i64, end: i64) -> bool {
    match t {
        Some(x) => begin <= x && x < end,
        None => false,
    }
}

/// The rows of `rows` that open in `[begin, end)`, in order.
pub open spec fn window(rows: Seq<Row>, begin: i64, end: i64) -> Seq<Row> {
    rows.filter(|r: Row| in_window(r.ts_nanos, begin, end))
}

/// A frame with no column and no row: `DataFrame::empty`.
#[verifier::external_body]
fn frame_new() -> (r: polars::prelude::DataFrame)
    ensures
        frame_layout(r) == Seq::<(Seq<char>, ColumnType)>::empty(),
        frame_rows(r) == Seq::<Row>::empty(),
{
    polars::prelude::DataFrame::empty()
}

/// Adds an empty column named `name` of type `ty` to a frame with no row:
/// `DataFrame::with_column` with `Series::new_empty`. A new name is appended
/// after the other columns; the frame keeps no row.
#[verifier::external_body]
fn frame_add_empty_column(df: &mut polars::prelude::DataFrame, name: &str, ty: ColumnType)
    requires
        ty != ColumnType::Other,
        frame_rows(*old(df)).len() == 0,
        forall|j: int| 0 <= j < frame_layout(*old(df)).len() ==> frame_layout(*old(df))[j].0 != name@,
    ensures
        frame_layout(*final(df)) == frame_layout(*old(df)).push((name@, ty)),
        frame_rows(*final(df)) == Seq::<Row>::empty(),
{
    let dtype = match ty {
        ColumnType::Int64 => DataType::Int64,
        ColumnType::UInt64 => DataType::UInt64,
        ColumnType::Float64 => DataType::Float64,
        ColumnType::Other => DataType::Null,
    };
    df.with_column(Series::new_empty(name.into(), &dtype)).unwrap();
}

/// An empty bar table: the bar columns, one after the other, and no row.
pub(crate) fn empty_bar_frame() -> (r: polars::prelude::DataFrame)
    ensures
        frame_is_bar(r),
        frame_rows(r) == Seq::<Row>::empty(),
{
    proof {
        reveal_strlit("ts_nanos");
        reveal_strlit("open");
        reveal_strlit("high");
        reveal_strlit("low");
        reveal_strlit("close");
        reveal_strlit("volume");
    }
    assert("open"@[0] != "high"@[0]);
    assert(bar_layout()[0].0 == "ts_nanos"@ && "ts_nanos"@.len() == 8);
    assert(bar_layout()[1].0 == "open"@ && "open"@.len() == 4);
    assert(bar_layout()[2].0 == "high"@ && "high"@.len() == 4);
    assert(bar_layout()[3].0 == "low"@ && "low"@.len() == 3);
    assert(bar_layout()[4].0 == "close"@ && "close"@.len() == 5);
    assert(bar_layout()[5].0 == "volume"@ && "volume"@.len() == 6);
    assert forall|i: int, j: int| 0 <= i < j < 6 implies bar_layout()[i].0 != bar_layout()[j].0 by {
        assert(i == 0 || i == 1 || i == 2 || i == 3 || i == 4);
        assert(j == 1 || j == 2 || j == 3 || j == 4 || j == 5);
    }
    let mut df = frame_new();
    let mut i: usize = 0;
    while i < 6
        invariant
            0 <= i <= 6,
            frame_layout(df) == bar_layout().take(i as int),
            frame_rows(df) == Seq::<Row>::empty(),
            forall|a: int, b: int| 0 <= a < b < 6 ==> bar_layout()[a].0 != bar_layout()[b].0,
        decreases 6 - i,
    {
        let (name, ty) = bar_column(i);
        assert(forall|j: int| 0 <= j < frame_layout(df).len() ==> frame_layout(df)[j] == bar_layout()[j]);
        frame_add_empty_column(&mut df, name, ty);
        i = i + 1;
        assert(frame_layout(df) =~= bar_layout().take(i as int));
    }
    assert(bar_layout().take(6) =~= bar_layout());
    df
}

/// `DataFrame::extend`: appends the rows of `other` to `df`. It succeeds on two
/// bar tables, and a bar table stays one. It fails where the widths, the
/// column names or the column types differ; on failure the columns before the
/// failing one may have been extended, and nothing is claimed of `df`.
#[verifier::external_body]
pub(crate) fn frame_extend(
    df: &mut polars::prelude::DataFrame,
    other: &polars::prelude::DataFrame,
) -> (r: Result<(), String>)
    ensures
        frame_is_bar(*old(df)) && frame_is_bar(*other) ==> r is Ok,
        r is Ok && frame_is_bar(*old(df)) ==> frame_is_bar(*final(df)) && frame_rows(*final(df))
            == frame_rows(*old(df)) + frame_rows(*other),
{
    match df.extend(other) {
        Ok(()) => Ok(()),
        Err(e) => Err(e.to_string()),
    }
}

/// The rows of `rows` whose opening time is at least `bound`.
pub open spec fn at_least(rows: Seq<Row>, bound: i64) -> Seq<Row> {
    rows.filter(|r: Row| r.ts_nanos matches Some(t) && t >= bound)
}

/// The rows of `rows` whose opening time is below `bound`.
pub open spec fn below(rows: Seq<Row>, bound: i64) -> Seq<Row> {
    rows.filter(|r: Row| r.ts_nanos matches Some(t) && t < bound)
}

/// Keeping the rows at or after `begin`, then those before `end`, keeps the
/// rows of the window `[begin, end)`.
pub proof fn lemma_window_in_two_steps(rows: Seq<Row>, begin: i64, end: i64)
    ensures
        below(at_least(rows, begin), end) == window(rows, begin, end),
    decreases rows.len(),
{
    if rows.len() == 0 {
        reveal(Seq::filter);
        assert(below(at_least(rows, begin), end) =~= window(rows, begin, end));
    } else {
        let init = rows.drop_last();
        let last = rows.last();
        lemma_window_in_two_steps(init, begin, end);
        assert(init.push(last) =~= rows);
        let p1 = |r: Row| r.ts_nanos matches Some(t) && t >= begin;
        let p2 = |r: Row| r.ts_nanos matches Some(t) && t < end;
        let pw = |r: Row| in_window(r.ts_nanos, begin, end);
        init.lemma_filter_push(last, p1);
        init.lemma_filter_push(last, pw);
        at_least(init, begin).lemma_filter_push(last, p2);
    }
}

/// The window keeps whole stored rows: each row it gives is a row of `rows`,
/// every cell included (time, the four prices and the volume), taken in the
/// order of `rows`; it is a row opening in `[begin, end)`; and every row of
/// `rows` opening in `[begin, end)` is given, once. The result lists, for each
/// row given, the position in `rows` it comes from.
pub proof fn lemma_window_keeps_stored_rows(rows: Seq<Row>, begin: i64, end: i64) -> (idx: Seq<int>)
    ensures
        idx.len() == window(rows, begin, end).len(),
        forall|k: int|
            0 <= k < idx.len() ==> 0 <= #[trigger] idx[k] < rows.len() && window(rows, begin, end)[k]
                == rows[idx[k]],
        forall|k: int|
            0 <= k < idx.len() ==> (rows[#[trigger] idx[k]].ts_nanos matches Some(t) && begin <= t
                && t < end),
        forall|k1: int, k2: int| 0 <= k1 < k2 < idx.len() ==> #[trigger] idx[k1] < #[trigger] idx[k2],
        forall|j: int|
            0 <= j < rows.len() && (#[trigger] rows[j]).ts_nanos is Some && begin <= rows[j].ts_nanos->0 && rows[j].ts_nanos->0
                < end ==> exists|k: int| 0 <= k < idx.len() && idx[k] == j,
    decreases rows.len(),
{
    if rows.len() == 0 {
        reveal(Seq::filter);
        Seq::<int>::empty()
    } else {
        let init = rows.drop_last();
        let last = rows.last();
        let idx0 = lemma_window_keeps_stored_rows(init, begin, end);
        assert(init.push(last) =~= rows);
        let pw = |r: Row| in_window(r.ts_nanos, begin, end);
        init.lemma_filter_push(last, pw);
        let n = rows.len() - 1;
        if in_window(last.ts_nanos, begin, end) {
            let idx = idx0.push(n);
            assert(window(rows, begin, end) == window(init, begin, end).push(last));
            assert forall|k: int| 0 <= k < idx.len() implies 0 <= #[trigger] idx[k] < rows.len()
                && window(rows, begin, end)[k] == rows[idx[k]] by {
                if k < idx0.len() {
                    assert(idx[k] == idx0[k]);
                    assert(init[idx0[k]] == rows[idx0[k]]);
                }
            }
            assert forall|k: int| 0 <= k < idx.len() implies (rows[#[trigger] idx[k]].ts_nanos matches Some(
                t,
            ) && begin <= t && t < end) by {
                if k < idx0.len() {
                    assert(idx[k] == idx0[k]);
                    assert(init[idx0[k]] == rows[idx0[k]]);
                }
            }
            assert forall|k1: int, k2: int| 0 <= k1 < k2 < idx.len() implies #[trigger] idx[k1]
                < #[trigger] idx[k2] by {
                assert(idx[k1] == idx0[k1]);
                if k2 < idx0.len() {
                    assert(idx[k2] == idx0[k2]);
                }
            }
            assert forall|j: int|
                0 <= j < rows.len() && (#[trigger] rows[j]).ts_nanos is Some && begin <= rows[j].ts_nanos->0
                    && rows[j].ts_nanos->0 < end implies exists|k: int| 0 <= k < idx.len() && idx[k] == j by {
                if j < n {
                    assert(rows[j] == init[j]);
                    let k = choose|k: int| 0 <= k < idx0.len() && idx0[k] == j;
                    assert(idx[k] == j);
                } else {
                    assert(idx[idx0.len() as int] == j);
                }
            }
            idx
        } else {
            assert(window(rows, begin, end) == window(init, begin, end));
            assert forall|k: int| 0 <= k < idx0.len() implies 0 <= #[trigger] idx0[k] < rows.len()
                && window(rows, begin, end)[k] == rows[idx0[k]] by {
                assert(init[idx0[k]] == rows[idx0[k]]);
            }
            assert forall|k: int| 0 <= k < idx0.len() implies (rows[#[trigger] idx0[k]].ts_nanos matches Some(
                t,
            ) && begin <= t && t < end) by {
                assert(init[idx0[k]] == rows[idx0[k]]);
            }
            assert forall|j: int|
                0 <= j < rows.len() && (#[trigger] rows[j]).ts_nanos is Some && begin <= rows[j].ts_nanos->0
                    && rows[j].ts_nanos->0 < end implies exists|k: int| 0 <= k < idx0.len() && idx0[k] == j by {
                assert(j < n);
                assert(rows[j] == init[j]);
            }
            idx0
        }
    }
}

/// The rows of a table whose time in column `column` is at least `bound`, in
/// their order and with every cell as it was: `df.lazy()` filtered on `col(column).gt_eq(bound)`, and
/// collected. Rows with a null time are dropped.
#[verifier::external_body]
pub(crate) fn frame_keep_at_least(df: DataFrame, column: &str, bound: i64) -> (r: Result<DataFrame, String>)
    requires
        column@ == "ts_nanos"@,
    ensures
        frame_is_bar(df) ==> r is Ok,
        frame_is_bar(df) && r is Ok ==> frame_is_bar(r->Ok_0)
            && frame_rows(r->Ok_0) == at_least(frame_rows(df), bound),
{
    match df.lazy().filter(polars::prelude::col(column).gt_eq(bound)).collect() {
        Ok(f) => Ok(f),
        Err(e) => Err(e.to_string()),
    }
}

/// The rows of a table whose time in column `column` is below `bound`, in
/// their order and with every cell as it was: `df.lazy()` filtered on `col(column).lt(bound)`, and
/// collected. Rows with a null time are dropped.
#[verifier::external_body]
pub(crate) fn frame_keep_below(df: DataFrame, column: &str, bound: i64) -> (r: Result<DataFrame, String>)
    requires
        column@ == "ts_nanos"@,
    ensures
        frame_is_bar(df) ==> r is Ok,
        frame_is_bar(df) && r is Ok ==> frame_is_bar(r->Ok_0)
            && frame_rows(r->Ok_0) == below(frame_rows(df), bound),
{
    match df.lazy().filter(polars::prelude::col(column).lt(bound)).collect() {
        Ok(f) => Ok(f),
        Err(e) => Err(e.to_string()),
    }
}

/// The rows of a bar table that open in `[begin, end)`, in their order.
pub(crate) fn frame_window(df: DataFrame, begin: i64, end: i64) -> (r: Result<DataFrame, String>)
    ensures
        frame_is_bar(df) ==> (r matches Ok(f) && frame_is_bar(f) && frame_rows(f) == window(
            frame_rows(df),
            begin,
            end,
        )),
{
    let (column, _) = bar_column(0);
    let from = frame_keep_at_least(df, column, begin)?;
    let kept = frame_keep_below(from, column, end);
    proof {
        lemma_window_in_two_steps(frame_rows(df), begin, end);
    }
    kept
}

/// `DataFrame::is_empty`: true where the table has no row or no column.
#[verifier::external_body]
pub(crate) fn frame_is_empty(df: &polars::prelude::DataFrame) -> (r: bool)
    ensures
        r == (frame_rows(*df).len() == 0 || frame_layout(*df).len() == 0),
{
    df.is_empty()
}

/// `DataFrame::width`: the number of columns.
#[verifier::external_body]
fn frame_width(df: &polars::prelude::DataFrame) -> (r: usize)
    ensures
        r == frame_layout(*df).len(),
{
    df.width()
}

/// The name and the type of column `i`: `DataFrame::get_columns` indexed, with
/// `Column::name` and `Column::dtype`.
#[verifier::external_body]
fn frame_column(df: &polars::prelude::DataFrame, i: usize) -> (r: (String, ColumnType))
    requires
        i < frame_layout(*df).len(),
    ensures
        r.0@ == frame_layout(*df)[i as int].0,
        r.1 == frame_layout(*df)[i as int].1,
{
    let c = &df.get_columns()[i];
    let t = match c.dtype() {
        DataType::Int64 => ColumnType::Int64,
        DataType::UInt64 => ColumnType::UInt64,
        DataType::Float64 => ColumnType::Float64,
        _ => ColumnType::Other,
    };
    (c.name().to_string(), t)
}

/// Column `i` of a bar table.
fn bar_column(i: usize) -> (r: (&'static str, ColumnType))
    requires
        i < 6,
    ensures
        r.0@ == bar_layout()[i as int].0,
        r.1 == bar_layout()[i as int].1,
{
    if i == 0 {
        ("ts_nanos", ColumnType::Int64)
    } else if i == 1 {
        ("open", ColumnType::Float64)
    } else if i == 2 {
        ("high", ColumnType::Float64)
    } else if i == 3 {
        ("low", ColumnType::Float64)
    } else if i == 4 {
        ("close", ColumnType::Float64)
    } else {
        ("volume", ColumnType::UInt64)
    }
}

/// Whether `df` has exactly the columns of a bar table.
pub fn has_bar_layout(df: &polars::prelude::DataFrame) -> (r: bool)
    ensures
        r == frame_is_bar(*df),
{
    if frame_width(df) != 6 {
        return false;
    }
    let mut i: usize = 0;
    while i < 6
        invariant
            0 <= i <= 6,
            frame_layout(*df).len() == 6,
            forall|j: int| 0 <= j < i ==> #[trigger] frame_layout(*df)[j] == bar_layout()[j],
        decreases 6 - i,
    {
        let (name, t) = frame_column(df, i);
        let (want, want_t) = bar_column(i);
        if !(str_eq(name.as_str(), want) && t == want_t) {
            assert(frame_layout(*df)[i as int] != bar_layout()[i as int]);
            return false;
        }
        assert(frame_layout(*df)[i as int] == bar_layout()[i as int]);
        i = i + 1;
    }
    assert(frame_layout(*df) =~= bar_layout());
    true
}

} // verus!

//! Finding instruments, and requesting and downloading their stored bars.

use crate::data_file_bar::request_not_found;
use crate::data_file_bar::request_text;
use crate::data_file_bar::DataFileBar;
use crate::frame::lemma_window_keeps_stored_rows;
use crate::frame::empty_bar_frame;
use crate::frame::frame_extend;
use crate::frame::frame_window;
use crate::frame::frame_is_bar;
use crate::frame::frame_is_empty;
use crate::frame::frame_layout;
use crate::frame::frame_rows;
use crate::frame::Row;
use crate::frame::in_window;
use crate::frame::window;
use crate::market::find_figi_in;
use crate::market::find_iid;
use crate::market::lemma_find_iid_exact;
use crate::market::DataError;
use crate::market::IidCache;
use crate::market::MarketData;
use crate::market::IID;
use crate::text::split;
use crate::text::all_ascii;
use crate::text::ascii_lower;
use crate::text::ascii_lower_text;
use crate::text::ascii_upper;
use crate::text::ascii_upper_text;
use crate::text::lemma_case_keeps_ascii;
use crate::text::lemma_split_ascii;
use crate::text::lemma_split_map;
use crate::text::lemma_upper_absorbs;
use crate::text::split_on;
use crate::text::to_uppercase;
use crate::text::unicode_uppercase;
use crate::time::nanos_of;
use crate::time::lemma_epoch_year;
use crate::time::lemma_year_start_grows;
use crate::time::year_start;
use crate::time::ymdhms_secs;
use crate::time::UtcDateTime;
use crate::time::MAX_UTC_YEAR;
use crate::time::MIN_UTC_YEAR;
use polars::prelude::DataFrame;
use vstd::prelude::*;

verus! {

/// The first year for which bars are looked for when all are downloaded.
pub const FIRST_DATA_YEAR: i32 = 1990i32;

/// Whether `years` are the years from `first` to `last`, ascending (none
/// where `first > last`).
pub open spec fn is_year_run(years: Seq<i32>, first: int, last: int) -> bool {
    &&& years.len() == if first <= last {
        last - first + 1
    } else {
        0
    }
    &&& forall|i: int| 0 <= i < years.len() ==> years[i] == first + i
}

/// The pieces of an instrument query `exchange_category_ticker`.
pub open spec fn query_parts(s: Seq<char>) -> Seq<Seq<char>> {
    split_on(s, '_')
}

/// Whether an instrument query names an exchange and category that can be
/// looked up: only `MOEX` shares are.
pub open spec fn query_supported(s: Seq<char>) -> bool {
    query_parts(s).len() == 3 ==> unicode_uppercase(query_parts(s)[0]) == "MOEX"@
        && unicode_uppercase(query_parts(s)[1]) == "SHARE"@
}

/// The instrument that a well-formed query finds in `iids`.
pub open spec fn query_result(s: Seq<char>, iids: Seq<IID>) -> Option<IID> {
    let p = query_parts(s);
    find_iid(iids, unicode_uppercase(p[0]), unicode_uppercase(p[1]), unicode_uppercase(p[2]))
}

/// Whether a query is supported, with its pieces in ASCII upper case.
pub open spec fn ascii_query_supported(s: Seq<char>) -> bool {
    query_parts(s).len() == 3 ==> ascii_upper_text(query_parts(s)[0]) == "MOEX"@
        && ascii_upper_text(query_parts(s)[1]) == "SHARE"@
}

/// The instrument that a query finds with its pieces in ASCII upper case.
pub open spec fn ascii_query_result(s: Seq<char>, iids: Seq<IID>) -> Option<IID> {
    let p = query_parts(s);
    find_iid(iids, ascii_upper_text(p[0]), ascii_upper_text(p[1]), ascii_upper_text(p[2]))
}

/// Whether a year's load gave a bar table or found no file.
pub open spec fn well_read(loaded: Result<DataFrame, DataError>) -> bool {
    match loaded {
        Ok(df) => frame_is_bar(df),
        Err(DataError::NotFound(_)) => true,
        Err(DataError::ReadError(_)) => false,
    }
}

/// The rows of all bars found, year after year.
pub open spec fn found_rows(years: Seq<Result<DataFrame, DataError>>) -> Seq<Row>
    decreases years.len(),
{
    if years.len() == 0 {
        Seq::empty()
    } else {
        found_rows(years.drop_last()) + match years.last() {
            Ok(df) => frame_rows(df),
            Err(_) => Seq::empty(),
        }
    }
}

/// The start of a request's window: the nanoseconds of `begin`, or 0 where
/// they do not fit in an `i64`.
pub open spec fn window_begin(begin: UtcDateTime) -> i64 {
    match nanos_of(begin.secs(), begin.nsecs()) {
        Some(n) => n,
        None => 0,
    }
}

/// The end of a request's window: the nanoseconds of `end`.
pub open spec fn window_end(end: UtcDateTime) -> i64 {
    nanos_of(end.secs(), end.nsecs())->0
}

/// The bars of a request are those found that open in `[begin, end)`: every
/// bar of the window opens there, and every bar found that opens there is in
/// the window.
pub proof fn lemma_window_bounds(rows: Seq<Row>, begin: i64, end: i64)
    ensures
        forall|i: int|
            0 <= i < window(rows, begin, end).len() ==> in_window(
                (#[trigger] window(rows, begin, end)[i]).ts_nanos,
                begin,
                end,
            ),
        forall|j: int|
            0 <= j < rows.len() && in_window(rows[j].ts_nanos, begin, end) ==> window(
                rows,
                begin,
                end,
            ).contains(#[trigger] rows[j]),
{
    let pred = |r: Row| in_window(r.ts_nanos, begin, end);
    assert forall|i: int| 0 <= i < window(rows, begin, end).len() implies in_window(
        (#[trigger] window(rows, begin, end)[i]).ts_nanos,
        begin,
        end,
    ) by {
        rows.lemma_filter_pred(pred, i);
    }
    assert forall|j: int| 0 <= j < rows.len() && in_window(rows[j].ts_nanos, begin, end) implies window(
        rows,
        begin,
        end,
    ).contains(#[trigger] rows[j]) by {
        rows.lemma_filter_contains(pred, j);
    }
}

/// The opening times of `rows` do not fall: of any two rows with a time, the
/// later row's time is not smaller.
pub open spec fn times_ascending(rows: Seq<Row>) -> bool {
    forall|i: int, j: int|
        0 <= i < j < rows.len() && (#[trigger] rows[i]).ts_nanos is Some && (
        #[trigger] rows[j]).ts_nanos is Some ==> rows[i].ts_nanos->0 <= rows[j].ts_nanos->0
}

/// No row opens in `[mid, end)` when every time is before `mid`.
proof fn lemma_window_empty_below(rows: Seq<Row>, mid: i64, end: i64)
    requires
        forall|i: int|
            0 <= i < rows.len() && (#[trigger] rows[i]).ts_nanos is Some ==> rows[i].ts_nanos->0
                < mid,
    ensures
        window(rows, mid, end) == Seq::<Row>::empty(),
    decreases rows.len(),
{
    reveal(Seq::filter);
    if rows.len() > 0 {
        lemma_window_empty_below(rows.drop_last(), mid, end);
        assert(rows.last() == rows[rows.len() - 1]);
    }
}

/// Windows side by side cut the rows without dropping or repeating any: for
/// rows in time order, the rows of `[begin, mid)` followed by those of
/// `[mid, end)` are the rows of `[begin, end)`; a bar opening at `mid` is in
/// the second window only.
pub proof fn lemma_window_split(rows: Seq<Row>, begin: i64, mid: i64, end: i64)
    requires
        begin <= mid <= end,
        times_ascending(rows),
    ensures
        window(rows, begin, mid) + window(rows, mid, end) == window(rows, begin, end),
    decreases rows.len(),
{
    reveal(Seq::filter);
    if rows.len() == 0 {
        assert(window(rows, begin, mid) + window(rows, mid, end) =~= window(rows, begin, end));
    } else {
        let init = rows.drop_last();
        let last = rows.last();
        assert forall|i: int, j: int|
            0 <= i < j < init.len() && (#[trigger] init[i]).ts_nanos is Some && (
            #[trigger] init[j]).ts_nanos is Some implies init[i].ts_nanos->0 <= init[j].ts_nanos->0 by {
            assert(init[i] == rows[i] && init[j] == rows[j]);
        }
        lemma_window_split(init, begin, mid, end);
        if in_window(last.ts_nanos, begin, mid) {
            assert forall|i: int|
                0 <= i < init.len() && (#[trigger] init[i]).ts_nanos is Some implies init[i].ts_nanos->0
                    < mid by {
                assert(init[i] == rows[i] && rows[rows.len() - 1] == last);
            }
            lemma_window_empty_below(init, mid, end);
            assert(window(rows, begin, mid) + window(rows, mid, end) =~= window(rows, begin, end));
        } else {
            assert(window(rows, begin, mid) + window(rows, mid, end) =~= window(rows, begin, end));
        }
    }
}

/// Requests over `[begin, mid)` and `[mid, end)` of the same stored years give,
/// one after the other, the bars that a request over `[begin, end)` gives,
/// when the stored bars are in time order.
pub proof fn lemma_request_split(
    years: Seq<Result<DataFrame, DataError>>,
    begin: UtcDateTime,
    mid: UtcDateTime,
    end: UtcDateTime,
)
    requires
        nanos_of(mid.secs(), mid.nsecs()) is Some,
        nanos_of(end.secs(), end.nsecs()) is Some,
        window_begin(begin) <= window_end(mid) <= window_end(end),
        times_ascending(found_rows(years)),
    ensures
        window(found_rows(years), window_begin(begin), window_end(mid)) + window(
            found_rows(years),
            window_begin(mid),
            window_end(end),
        ) == window(found_rows(years), window_begin(begin), window_end(end)),
{
    lemma_window_split(found_rows(years), window_begin(begin), window_end(mid), window_end(end));
}

/// Nanoseconds in a second.
pub open spec fn nanos_per_sec() -> int {
    1_000_000_000
}

/// The first nanosecond of year `y` since the Unix epoch.
pub open spec fn year_nanos(y: int) -> int {
    year_start(y) * nanos_per_sec()
}

/// Whether `secs` lies in year `y`.
pub open spec fn in_year(y: int, secs: int) -> bool {
    year_start(y) <= secs < year_start(y + 1)
}

/// Whether every bar of `rows` that has a time opens in year `y`.
pub open spec fn rows_in_year(rows: Seq<Row>, y: int) -> bool {
    forall|i: int|
        0 <= i < rows.len() && (#[trigger] rows[i]).ts_nanos is Some ==> year_nanos(y)
            <= rows[i].ts_nanos->0 < year_nanos(y + 1)
}

/// Whether what loading year `y` gave holds only bars of year `y`.
pub open spec fn holds_own_year(loaded: Result<DataFrame, DataError>, y: int) -> bool {
    match loaded {
        Ok(df) => rows_in_year(frame_rows(df), y),
        Err(_) => true,
    }
}

/// What loading the years from `first` to `last` of `store` gives, in order;
/// `store(y)` is what loading year `y` gives.
pub open spec fn loaded_years(
    store: spec_fn(int) -> Result<DataFrame, DataError>,
    first: int,
    last: int,
) -> Seq<Result<DataFrame, DataError>> {
    Seq::new(
        if first <= last {
            (last - first + 1) as nat
        } else {
            0
        },
        |k: int| store(first + k),
    )
}

/// Whether every year from `first` to `last` of `store` holds only its own bars.
pub open spec fn store_holds_own_years(
    store: spec_fn(int) -> Result<DataFrame, DataError>,
    first: int,
    last: int,
) -> bool {
    forall|y: int| first <= y <= last ==> holds_own_year(#[trigger] store(y), y)
}

/// The rows found over consecutive runs of years are those of the first run
/// followed by those of the second.
proof fn lemma_found_rows_add(a: Seq<Result<DataFrame, DataError>>, b: Seq<Result<DataFrame, DataError>>)
    ensures
        found_rows(a + b) == found_rows(a) + found_rows(b),
    decreases b.len(),
{
    if b.len() == 0 {
        assert(a + b =~= a);
        assert(found_rows(a) + found_rows(b) =~= found_rows(a));
    } else {
        lemma_found_rows_add(a, b.drop_last());
        assert((a + b).drop_last() =~= a + b.drop_last());
        assert((a + b).last() == b.last());
        assert(found_rows(a + b) =~= found_rows(a) + found_rows(b));
    }
}

/// No row opens in `[begin, end)` when every time lies outside it.
proof fn lemma_window_empty(rows: Seq<Row>, begin: i64, end: i64)
    requires
        forall|i: int|
            0 <= i < rows.len() && (#[trigger] rows[i]).ts_nanos is Some ==> !in_window(
                rows[i].ts_nanos,
                begin,
                end,
            ),
    ensures
        window(rows, begin, end) == Seq::<Row>::empty(),
    decreases rows.len(),
{
    reveal(Seq::filter);
    if rows.len() > 0 {
        lemma_window_empty(rows.drop_last(), begin, end);
        assert(rows.last() == rows[rows.len() - 1]);
    }
}

/// The bars of years `first` to `last`, each holding only its own bars, open
/// from the first nanosecond of `first` to before that of `last + 1`.
proof fn lemma_found_rows_in_years(
    store: spec_fn(int) -> Result<DataFrame, DataError>,
    first: int,
    last: int,
)
    requires
        store_holds_own_years(store, first, last),
        first <= last + 1,
    ensures
        forall|i: int|
            0 <= i < found_rows(loaded_years(store, first, last)).len() && (#[trigger] found_rows(
                loaded_years(store, first, last),
            )[i]).ts_nanos is Some ==> year_nanos(first) <= found_rows(
                loaded_years(store, first, last),
            )[i].ts_nanos->0 < year_nanos(last + 1),
    decreases last - first + 1,
{
    let run = loaded_years(store, first, last);
    if first <= last {
        lemma_found_rows_in_years(store, first, last - 1);
        let init = loaded_years(store, first, last - 1);
        assert(run.drop_last() =~= init);
        assert(run.last() == store(last));
        assert(holds_own_year(store(last), last));
        let f = found_rows(run);
        let fi = found_rows(init);
        let tail = match store(last) {
            Ok(df) => frame_rows(df),
            Err(_) => Seq::<Row>::empty(),
        };
        assert(f == fi + tail);
        lemma_year_start_grows_or_equal(first, last);
        lemma_year_start_grows_or_equal(last, last + 1);
        assert forall|i: int| 0 <= i < f.len() && (#[trigger] f[i]).ts_nanos is Some implies year_nanos(
            first,
        ) <= f[i].ts_nanos->0 < year_nanos(last + 1) by {
            if i < fi.len() {
                assert(f[i] == fi[i]);
            } else {
                assert(f[i] == tail[i - fi.len()]);
            }
        }
    } else {
        assert(run =~= Seq::<Result<DataFrame, DataError>>::empty());
    }
}

/// Years start no earlier as they go on, counted in nanoseconds too.
proof fn lemma_year_start_grows_or_equal(a: int, b: int)
    requires
        a <= b,
    ensures
        year_start(a) <= year_start(b),
        year_nanos(a) <= year_nanos(b),
{
    if a < b {
        lemma_year_start_grows(a, b);
    }
}

/// More years add no bar to a window that lies within fewer of them: where
/// each year of `store` holds only its own bars and `[b, e)` lies within the
/// years `a` to `c`, loading the years `first` to `last` around them finds in
/// the window exactly what loading `a` to `c` finds.
pub proof fn lemma_more_years_add_nothing(
    store: spec_fn(int) -> Result<DataFrame, DataError>,
    first: int,
    last: int,
    a: int,
    c: int,
    b: i64,
    e: i64,
)
    requires
        first <= a <= c + 1 <= last + 1,
        store_holds_own_years(store, first, last),
        year_nanos(a) <= b,
        e <= year_nanos(c + 1),
    ensures
        window(found_rows(loaded_years(store, first, last)), b, e) == window(
            found_rows(loaded_years(store, a, c)),
            b,
            e,
        ),
{
    let before = loaded_years(store, first, a - 1);
    let inside = loaded_years(store, a, c);
    let after = loaded_years(store, c + 1, last);
    assert(loaded_years(store, first, last) =~= before + inside + after);
    lemma_found_rows_add(before + inside, after);
    lemma_found_rows_add(before, inside);
    lemma_found_rows_in_years(store, first, a - 1);
    lemma_found_rows_in_years(store, c + 1, last);
    let fb = found_rows(before);
    let fa = found_rows(after);
    assert forall|i: int| 0 <= i < fb.len() && (#[trigger] fb[i]).ts_nanos is Some implies !in_window(
        fb[i].ts_nanos,
        b,
        e,
    ) by {}
    assert forall|i: int| 0 <= i < fa.len() && (#[trigger] fa[i]).ts_nanos is Some implies !in_window(
        fa[i].ts_nanos,
        b,
        e,
    ) by {}
    lemma_window_empty(fb, b, e);
    lemma_window_empty(fa, b, e);
    let pred = |r: Row| in_window(r.ts_nanos, b, e);
    Seq::filter_distributes_over_add(fb + found_rows(inside), fa, pred);
    Seq::filter_distributes_over_add(fb, found_rows(inside), pred);
    assert(window(found_rows(loaded_years(store, first, last)), b, e) =~= window(
        found_rows(inside),
        b,
        e,
    ));
}

/// Requests over `[begin, mid)` and `[mid, end)` give, one after the other,
/// the bars that a request over `[begin, end)` gives, each loading the years
/// of its own range from the same store: no bar is dropped or repeated,
/// where each year holds only its own bars, in time order across the years,
/// and neither `mid` nor `end` falls in a leap second.
pub proof fn lemma_request_split_across_years(
    store: spec_fn(int) -> Result<DataFrame, DataError>,
    begin: UtcDateTime,
    mid: UtcDateTime,
    end: UtcDateTime,
    by: int,
    my: int,
    ey: int,
)
    requires
        in_year(by, begin.secs()),
        in_year(my, mid.secs()),
        in_year(ey, end.secs()),
        nanos_of(begin.secs(), begin.nsecs()) is Some,
        nanos_of(mid.secs(), mid.nsecs()) is Some,
        nanos_of(end.secs(), end.nsecs()) is Some,
        0 <= begin.nsecs(),
        0 <= mid.nsecs() < nanos_per_sec(),
        0 <= end.nsecs() < nanos_per_sec(),
        window_begin(begin) <= window_end(mid) <= window_end(end),
        store_holds_own_years(store, by, ey),
        times_ascending(found_rows(loaded_years(store, by, ey))),
    ensures
        window(found_rows(loaded_years(store, by, my)), window_begin(begin), window_end(mid))
            + window(found_rows(loaded_years(store, my, ey)), window_begin(mid), window_end(end))
            == window(found_rows(loaded_years(store, by, ey)), window_begin(begin), window_end(end)),
{
    let wb = window_begin(begin);
    let wm = window_end(mid);
    let we = window_end(end);
    assert(window_begin(mid) == wm);
    assert(begin.secs() <= mid.secs()) by (nonlinear_arith)
        requires
            wb == begin.secs() * 1_000_000_000 + begin.nsecs(),
            wm == mid.secs() * 1_000_000_000 + mid.nsecs(),
            wb <= wm,
            0 <= begin.nsecs(),
            mid.nsecs() < 1_000_000_000,
    ;
    assert(mid.secs() <= end.secs()) by (nonlinear_arith)
        requires
            wm == mid.secs() * 1_000_000_000 + mid.nsecs(),
            we == end.secs() * 1_000_000_000 + end.nsecs(),
            wm <= we,
            0 <= mid.nsecs(),
            end.nsecs() < 1_000_000_000,
    ;
    if by > my {
        lemma_year_start_grows_or_equal(my + 1, by);
    }
    if my > ey {
        lemma_year_start_grows_or_equal(ey + 1, my);
    }
    assert(year_nanos(by) <= wb) by (nonlinear_arith)
        requires
            year_start(by) <= begin.secs(),
            wb == begin.secs() * 1_000_000_000 + begin.nsecs(),
            0 <= begin.nsecs(),
            year_nanos(by) == year_start(by) * 1_000_000_000,
    ;
    assert(year_nanos(my) <= wm && wm <= year_nanos(my + 1)) by (nonlinear_arith)
        requires
            year_start(my) <= mid.secs() < year_start(my + 1),
            wm == mid.secs() * 1_000_000_000 + mid.nsecs(),
            0 <= mid.nsecs() < 1_000_000_000,
            year_nanos(my) == year_start(my) * 1_000_000_000,
            year_nanos(my + 1) == year_start(my + 1) * 1_000_000_000,
    ;
    assert(we <= year_nanos(ey + 1)) by (nonlinear_arith)
        requires
            end.secs() < year_start(ey + 1),
            we == end.secs() * 1_000_000_000 + end.nsecs(),
            0 <= end.nsecs() < 1_000_000_000,
            year_nanos(ey + 1) == year_start(ey + 1) * 1_000_000_000,
    ;
    lemma_more_years_add_nothing(store, by, ey, by, my, wb, wm);
    lemma_more_years_add_nothing(store, by, ey, my, ey, wm, we);
    lemma_window_split(found_rows(loaded_years(store, by, ey)), wb, wm, we);
}

/// A request whose `begin` is before the nanosecond range finds what a
/// request from the Unix epoch finds: its window starts at nanosecond 0 and
/// the years before 1970 that it loads add no bar, where each year holds only
/// its own bars, `begin` is before `end` and neither falls in a leap second.
pub proof fn lemma_early_begin_loads_as_epoch(
    store: spec_fn(int) -> Result<DataFrame, DataError>,
    begin: UtcDateTime,
    end: UtcDateTime,
    by: int,
    ey: int,
)
    requires
        in_year(by, begin.secs()),
        in_year(ey, end.secs()),
        nanos_of(begin.secs(), begin.nsecs()) is None,
        nanos_of(end.secs(), end.nsecs()) is Some,
        begin.secs() < end.secs(),
        0 <= begin.nsecs() < nanos_per_sec(),
        0 <= end.nsecs() < nanos_per_sec(),
        store_holds_own_years(store, by, ey),
    ensures
        window(found_rows(loaded_years(store, by, ey)), window_begin(begin), window_end(end))
            == window(found_rows(loaded_years(store, 1970, ey)), 0, window_end(end)),
{
    let we = window_end(end);
    lemma_epoch_year();
    assert(begin.secs() * 1_000_000_000 + begin.nsecs() < i64::MIN) by (nonlinear_arith)
        requires
            begin.secs() < end.secs(),
            0 <= begin.nsecs() < 1_000_000_000,
            0 <= end.nsecs(),
            end.secs() * 1_000_000_000 + end.nsecs() <= i64::MAX,
            !(i64::MIN <= begin.secs() * 1_000_000_000 + begin.nsecs() <= i64::MAX),
    ;
    assert(begin.secs() < 0) by (nonlinear_arith)
        requires
            begin.secs() * 1_000_000_000 + begin.nsecs() < i64::MIN,
            0 <= begin.nsecs(),
    ;
    if by >= 1970 {
        lemma_year_start_grows_or_equal(1970, by);
    }
    assert(year_nanos(ey + 1) >= we) by (nonlinear_arith)
        requires
            end.secs() < year_start(ey + 1),
            we == end.secs() * 1_000_000_000 + end.nsecs(),
            0 <= end.nsecs() < 1_000_000_000,
            year_nanos(ey + 1) == year_start(ey + 1) * 1_000_000_000,
    ;
    if ey >= 1970 {
        lemma_more_years_add_nothing(store, by, ey, 1970, ey, 0, we);
    } else {
        lemma_year_start_grows_or_equal(ey + 1, 1970);
        assert(loaded_years(store, 1970, ey) =~= Seq::<Result<DataFrame, DataError>>::empty());
        assert(found_rows(loaded_years(store, 1970, ey)) =~= Seq::<Row>::empty());
        reveal(Seq::filter);
        let f = found_rows(loaded_years(store, by, ey));
        assert forall|i: int| 0 <= i < f.len() && (#[trigger] f[i]).ts_nanos is Some implies !in_window(
            f[i].ts_nanos,
            0,
            we,
        ) by {}
        lemma_window_empty(f, 0, we);
    }
}

/// A `begin` whose nanoseconds do not fit in an `i64` acts as the Unix epoch:
/// the window starts at nanosecond 0, so stored bars before 1970 are left out.
pub proof fn lemma_early_begin_is_epoch(begin: UtcDateTime, epoch: UtcDateTime)
    requires
        nanos_of(begin.secs(), begin.nsecs()) is None,
        epoch.secs() == 0,
        epoch.nsecs() == 0,
    ensures
        window_begin(begin) == window_begin(epoch),
        window_begin(begin) == 0,
{
}

/// A year with no stored file changes nothing in what a request finds,
/// wherever it stands among the years.
pub proof fn lemma_missing_year_ignored(
    a: Seq<Result<DataFrame, DataError>>,
    b: Seq<Result<DataFrame, DataError>>,
    missing: DataError,
)
    requires
        missing matches DataError::NotFound(_),
    ensures
        found_rows(a + seq![Err(missing)] + b) == found_rows(a + b),
    decreases b.len(),
{
    let gap = seq![Err::<DataFrame, DataError>(missing)];
    if b.len() == 0 {
        assert((a + gap + b).drop_last() =~= a);
        assert(a + b =~= a);
        assert(found_rows(a + gap + b) =~= found_rows(a));
    } else {
        lemma_missing_year_ignored(a, b.drop_last(), missing);
        assert((a + gap + b).drop_last() =~= a + gap + b.drop_last());
        assert((a + b).drop_last() =~= a + b.drop_last());
        assert((a + gap + b).last() == b.last());
        assert((a + b).last() == b.last());
    }
}

/// A supported query finds only a cached MOEX share whose ticker is the
/// query's ticker in upper case, and finds nothing exactly when no cached
/// instrument is such a share: a share of another exchange with that ticker
/// is never found.
pub proof fn lemma_query_finds_only_moex_shares(s: Seq<char>, iids: Seq<IID>)
    requires
        query_supported(s),
        query_parts(s).len() == 3,
    ensures
        query_result(s, iids) matches Some(x) ==> x.spec_exchange() == "MOEX"@ && x.spec_category()
            == "SHARE"@ && x.spec_ticker() == unicode_uppercase(query_parts(s)[2])
            && iids.contains(x),
        query_result(s, iids) is None <==> forall|i: int|
            0 <= i < iids.len() ==> !((#[trigger] iids[i]).spec_exchange() == "MOEX"@
                && iids[i].spec_category() == "SHARE"@ && iids[i].spec_ticker() == unicode_uppercase(
                query_parts(s)[2],
            )),
{
    let p = query_parts(s);
    lemma_find_iid_exact(iids, unicode_uppercase(p[0]), unicode_uppercase(p[1]), unicode_uppercase(p[2]));
}

/// Looking an instrument up ignores case: two queries whose pieces agree in
/// upper case find the same instrument.
pub proof fn lemma_find_ignores_case(s1: Seq<char>, s2: Seq<char>, iids: Seq<IID>)
    requires
        query_parts(s1).len() == 3,
        query_parts(s2).len() == 3,
        forall|i: int|
            0 <= i < 3 ==> unicode_uppercase(#[trigger] query_parts(s1)[i]) == unicode_uppercase(
                query_parts(s2)[i],
            ),
    ensures
        query_result(s1, iids) == query_result(s2, iids),
{
    assert(unicode_uppercase(query_parts(s1)[0]) == unicode_uppercase(query_parts(s2)[0]));
    assert(unicode_uppercase(query_parts(s1)[1]) == unicode_uppercase(query_parts(s2)[1]));
    assert(unicode_uppercase(query_parts(s1)[2]) == unicode_uppercase(query_parts(s2)[2]));
}

/// Looking an instrument up ignores ASCII case: a query, the query in upper
/// case and the query in lower case have as many pieces, are supported alike
/// and find the same instrument. An ASCII query stays ASCII in either case,
/// and for ASCII queries `find` and `find_supported` go by these ASCII forms.
pub proof fn lemma_find_ignores_ascii_case(s: Seq<char>, iids: Seq<IID>)
    ensures
        query_parts(ascii_upper_text(s)).len() == query_parts(s).len(),
        query_parts(ascii_lower_text(s)).len() == query_parts(s).len(),
        ascii_query_supported(ascii_upper_text(s)) == ascii_query_supported(s),
        ascii_query_supported(ascii_lower_text(s)) == ascii_query_supported(s),
        query_parts(s).len() == 3 ==> ascii_query_result(ascii_upper_text(s), iids)
            == ascii_query_result(s, iids),
        query_parts(s).len() == 3 ==> ascii_query_result(ascii_lower_text(s), iids)
            == ascii_query_result(s, iids),
        all_ascii(s) ==> all_ascii(ascii_upper_text(s)) && all_ascii(ascii_lower_text(s)),
{
    let up = |c: char| ascii_upper(c);
    let low = |c: char| ascii_lower(c);
    assert forall|c: char| (#[trigger] up(c) == '_') == (c == '_') by {}
    assert forall|c: char| (#[trigger] low(c) == '_') == (c == '_') by {}
    lemma_split_map(s, '_', up);
    lemma_split_map(s, '_', low);
    let p = query_parts(s);
    let pu = query_parts(ascii_upper_text(s));
    let pl = query_parts(ascii_lower_text(s));
    assert(pu.len() == p.len());
    assert(pl.len() == p.len());
    if p.len() == 3 {
        assert forall|k: int| 0 <= k < 3 implies ascii_upper_text(#[trigger] pu[k])
            == ascii_upper_text(p[k]) && ascii_upper_text(pl[k]) == ascii_upper_text(p[k]) by {
            assert(pu[k] =~= ascii_upper_text(p[k]));
            assert(pl[k] =~= ascii_lower_text(p[k]));
            lemma_upper_absorbs(p[k]);
        }
        assert(ascii_upper_text(pu[0]) == ascii_upper_text(p[0]));
        assert(ascii_upper_text(pu[1]) == ascii_upper_text(p[1]));
        assert(ascii_upper_text(pu[2]) == ascii_upper_text(p[2]));
        assert(ascii_upper_text(pl[0]) == ascii_upper_text(p[0]));
        assert(ascii_upper_text(pl[1]) == ascii_upper_text(p[1]));
        assert(ascii_upper_text(pl[2]) == ascii_upper_text(p[2]));
    }
    if all_ascii(s) {
        lemma_case_keeps_ascii(s);
    }
}

/// Finds instruments, and requests and downloads stored bars.
pub struct Manager {}

impl Manager {
    /// The instrument that a query `exchange_category_ticker` names, looked up
    /// in `cache` in upper case; only `MOEX` shares are supported.
    pub fn find(s: &str, cache: &IidCache) -> (r: Result<IID, &'static str>)
        requires
            query_supported(s@),
        ensures
            query_parts(s@).len() != 3 ==> (r matches Err(m) && m@ == "Invalid IID"@),
            query_parts(s@).len() == 3 ==> match query_result(s@, cache.iids@) {
                Some(iid) => r == Ok::<IID, &'static str>(iid),
                None => r matches Err(m) && m@ == "instrument not found"@,
            },
            all_ascii(s@) && query_parts(s@).len() == 3 ==> query_result(s@, cache.iids@)
                == ascii_query_result(s@, cache.iids@),
            r matches Ok(x) ==> x.spec_exchange() == "MOEX"@ && x.spec_category() == "SHARE"@
                && x.spec_ticker() == unicode_uppercase(query_parts(s@)[2]) && cache.iids@.contains(
                x,
            ),
            query_parts(s@).len() == 3 && r is Err ==> forall|i: int|
                0 <= i < cache.iids@.len() ==> !((#[trigger] cache.iids@[i]).spec_exchange()
                    == "MOEX"@ && cache.iids@[i].spec_category() == "SHARE"@
                    && cache.iids@[i].spec_ticker() == unicode_uppercase(query_parts(s@)[2])),
    {
        let parts = split(s, '_');
        if parts.len() != 3 {
            return Err("Invalid IID");
        }
        assert(parts@[0]@ == query_parts(s@)[0]);
        assert(parts@[1]@ == query_parts(s@)[1]);
        assert(parts@[2]@ == query_parts(s@)[2]);
        proof {
            if all_ascii(s@) {
                lemma_split_ascii(s@, '_');
                assert(all_ascii(query_parts(s@)[0]));
                assert(all_ascii(query_parts(s@)[1]));
                assert(all_ascii(query_parts(s@)[2]));
            }
        }
        let exchange = to_uppercase(parts[0].as_str());
        let category = to_uppercase(parts[1].as_str());
        let ticker = to_uppercase(parts[2].as_str());
        let iid = cache.find(exchange.as_str(), category.as_str(), ticker.as_str());
        match iid {
            Some(iid) => Ok(iid),
            None => Err("instrument not found"),
        }
    }

    /// `find` where the query is supported; `None` where its exchange is not
    /// `MOEX` or its category not `SHARE`.
    pub fn find_supported(s: &str, cache: &IidCache) -> (r: Option<Result<IID, &'static str>>)
        ensures
            r is None <==> !query_supported(s@),
            all_ascii(s@) ==> (query_supported(s@) <==> ascii_query_supported(s@)),
            all_ascii(s@) && query_supported(s@) && query_parts(s@).len() == 3 ==> query_result(
                s@,
                cache.iids@,
            ) == ascii_query_result(s@, cache.iids@),
            query_parts(s@).len() != 3 ==> (r matches Some(Err(m)) && m@ == "Invalid IID"@),
            query_supported(s@) && query_parts(s@).len() == 3 ==> match query_result(
                s@,
                cache.iids@,
            ) {
                Some(iid) => r == Some(Ok::<IID, &'static str>(iid)),
                None => r matches Some(Err(m)) && m@ == "instrument not found"@,
            },
            r matches Some(Ok(x)) ==> x.spec_exchange() == "MOEX"@ && x.spec_category()
                == "SHARE"@ && x.spec_ticker() == unicode_uppercase(query_parts(s@)[2])
                && cache.iids@.contains(x),
    {
        let parts = split(s, '_');
        if parts.len() == 3 {
            assert(parts@[0]@ == query_parts(s@)[0]);
            assert(parts@[1]@ == query_parts(s@)[1]);
            proof {
                if all_ascii(s@) {
                    lemma_split_ascii(s@, '_');
                    assert(all_ascii(query_parts(s@)[0]));
                    assert(all_ascii(query_parts(s@)[1]));
                }
            }
            let exchange = to_uppercase(parts[0].as_str());
            let category = to_uppercase(parts[1].as_str());
            proof {
                reveal_strlit("MOEX");
                reveal_strlit("SHARE");
            }
            let moex = String::from_str("MOEX");
            let share = String::from_str("SHARE");
            if !(exchange == moex && category == share) {
                return None;
            }
        }
        Some(Self::find(s, cache))
    }

    /// The instrument with FIGI `s` in `cache`.
    pub fn find_figi(s: &str, cache: &IidCache) -> (r: Result<IID, &'static str>)
        ensures
            match find_figi_in(cache.iids@, s@) {
                Some(iid) => r == Ok::<IID, &'static str>(iid),
                None => r matches Err(m) && m@ == "instrument not found"@,
            },
    {
        let iid = cache.find_figi(s);
        match iid {
            Some(iid) => Ok(iid),
            None => Err("instrument not found"),
        }
    }

    /// The years from `first` to `last`, ascending.
    pub fn years(first: i32, last: i32) -> (r: Vec<i32>)
        ensures
            is_year_run(r@, first as int, last as int),
    {
        let mut r: Vec<i32> = Vec::new();
        if first > last {
            return r;
        }
        let mut y: i32 = first;
        while y < last
            invariant
                first <= y <= last,
                r@.len() == y - first,
                forall|i: int| 0 <= i < r@.len() ==> r@[i] == first + i,
            decreases last - y,
        {
            r.push(y);
            y = y + 1;
        }
        r.push(y);
        r
    }

    /// The years whose stored bars a request from `begin` to `end` reads: from
    /// the year of `begin` to the year of `end`.
    pub fn request_years(begin: &UtcDateTime, end: &UtcDateTime) -> (r: Vec<i32>)
        ensures
            exists|a: int, b: int|
                year_start(a) <= begin.secs() < year_start(a + 1) && year_start(b) <= end.secs()
                    < year_start(b + 1) && is_year_run(r@, a, b),
    {
        let first = begin.year();
        let last = end.year();
        Self::years(first, last)
    }

    /// The stored bars of an instrument that open in `[begin, end)`, given
    /// what loading each year of `request_years(begin, end)` gave, in order:
    /// a bar table, or `NotFound` where no file is stored. Years with no file
    /// are skipped.
    pub fn request(
        iid: &IID,
        market_data: &MarketData,
        begin: &UtcDateTime,
        end: &UtcDateTime,
        years: Vec<Result<DataFrame, DataError>>,
    ) -> (r: Result<DataFrame, DataError>)
        requires
            nanos_of(end.secs(), end.nsecs()) is Some,
            forall|i: int| 0 <= i < years@.len() ==> well_read(#[trigger] years@[i]),
        ensures
            if window(found_rows(years@), window_begin(*begin), window_end(*end)).len() == 0 {
                (r matches Err(DataError::NotFound(m)) && m@ == request_text(*iid, *market_data))
            } else {
                (r matches Ok(df) && frame_is_bar(df) && frame_rows(df) == window(
                    found_rows(years@),
                    window_begin(*begin),
                    window_end(*end),
                ))
            },
            r matches Ok(df) ==> forall|k: int|
                0 <= k < frame_rows(df).len() ==> found_rows(years@).contains(
                    #[trigger] frame_rows(df)[k],
                ),
    {
        let ghost idx = lemma_window_keeps_stored_rows(
            found_rows(years@),
            window_begin(*begin),
            window_end(*end),
        );
        let mut df = empty_bar_frame();
        let n = years.len();
        let mut i: usize = 0;
        while i < n
            invariant
                n == years@.len(),
                0 <= i <= n,
                frame_is_bar(df),
                frame_rows(df) == found_rows(years@.take(i as int)),
                forall|j: int| 0 <= j < years@.len() ==> well_read(#[trigger] years@[j]),
            decreases n - i,
        {
            assert(years@.take(i + 1).drop_last() =~= years@.take(i as int));
            assert(well_read(years@[i as int]));
            match &years[i] {
                Ok(data) => {
                    let extended = frame_extend(&mut df, data);
                    if let Err(e) = extended {
                        return Err(DataError::ReadError(e));
                    }
                },
                Err(DataError::NotFound(_)) => {},
                Err(DataError::ReadError(e)) => {
                    return Err(DataError::ReadError(e.clone()));
                },
            }
            i = i + 1;
        }
        assert(years@.take(n as int) =~= years@);
        let begin_ns = match begin.timestamp_nanos_opt() {
            Some(b) => b,
            None => 0,
        };
        let end_ns = end.timestamp_nanos_opt().unwrap();
        let filtered = frame_window(df, begin_ns, end_ns);
        let df = match filtered {
            Ok(f) => f,
            Err(e) => {
                return Err(DataError::ReadError(e));
            },
        };
        if frame_is_empty(&df) {
            return Err(request_not_found(iid, market_data));
        }
        proof {
            assert forall|k: int| 0 <= k < frame_rows(df).len() implies found_rows(
                years@,
            ).contains(#[trigger] frame_rows(df)[k]) by {
                assert(frame_rows(df)[k] == found_rows(years@)[idx[k]]);
            }
        }
        Ok(df)
    }

    /// Whether there are data files to convert from; an error where there are
    /// none.
    pub fn has_files_to_convert(data: &Vec<DataFileBar>) -> (r: Result<(), &'static str>)
        ensures
            r is Err <==> data@.len() == 0,
            r matches Err(m) ==> m@ == "   - no data files"@,
    {
        if data.len() == 0 {
            return Err("   - no data files");
        }
        Ok(())
    }

    /// The first and the last second of `year`: January 1, 00:00:00 and
    /// December 31, 23:59:59.
    pub fn year_bounds(year: i32) -> (r: (UtcDateTime, UtcDateTime))
        requires
            MIN_UTC_YEAR <= year <= MAX_UTC_YEAR,
        ensures
            r.0.secs() == ymdhms_secs(year as int, 1, 1, 0, 0, 0),
            r.0.nsecs() == 0,
            r.1.secs() == ymdhms_secs(year as int, 12, 31, 23, 59, 59),
            r.1.nsecs() == 0,
    {
        let begin = UtcDateTime::with_ymd_and_hms(year, 1, 1, 0, 0, 0).unwrap();
        let end = UtcDateTime::with_ymd_and_hms(year, 12, 31, 23, 59, 59).unwrap();
        (begin, end)
    }

    /// The data file to save for one year of downloaded bars; `None` where
    /// there is no bar.
    pub fn year_file(iid: &IID, market_data: &MarketData, data: DataFrame, year: i32) -> (r:
        Option<DataFileBar>)
        ensures
            r is None <==> (frame_rows(data).len() == 0 || frame_layout(data).len() == 0),
            r matches Some(f) ==> f.iid == *iid && f.market_data == *market_data && f.data == data
                && f.year == year,
    {
        if frame_is_empty(&data) {
            return None;
        }
        let data_file = DataFileBar::new(iid, *market_data, data, year).unwrap();
        Some(data_file)
    }

    /// The data file to save when one year is downloaded; an error where there
    /// is no bar for that year.
    pub fn one_year_file(iid: &IID, market_data: &MarketData, data: DataFrame, year: i32) -> (r:
        Result<DataFileBar, &'static str>)
        ensures
            r is Err <==> (frame_rows(data).len() == 0 || frame_layout(data).len() == 0),
            r matches Ok(f) ==> f.iid == *iid && f.market_data == *market_data && f.data == data
                && f.year == year,
            r matches Err(m) ==> m@ == "   - no data for {year}"@,
    {
        match Self::year_file(iid, market_data, data, year) {
            Some(f) => Ok(f),
            None => Err("   - no data for {year}"),
        }
    }
}

} // verus!

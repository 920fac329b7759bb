//! Calendar features from `Date` and `Datetime` columns.
//!
//! [`DatetimeFeatures`] adds, for each selected temporal column `col` and each
//! requested [`DatetimeComponent`], a column `{col}_{suffix}` (for example
//! `t_year`). Components are `Int32` columns, except `IsWeekend`, a `Float64`
//! column of `1.0` / `0.0`. Weekdays count from `0` (Monday) to `6` (Sunday).
//!
//! Calendar fields are computed by polars on the value converted to
//! milliseconds since the epoch; a null input gives a null feature.

use vstd::prelude::*;
use polars::prelude::{DataType, NamedFrom, Series as PolarsSeries, TemporalMethods};
use crate::frame::{
    CellView, DType, Frame, FrameView, Series, SeriesView, TimeUnit, Value, opt_view,
    with_column_spec, strings_view, lemma_position_of, ONE_BITS, ZERO_BITS,
};
use crate::text::{owned, concat, joined, push_str, lemma_text_append, lemma_text_at_end, contains_text, join3, quote_in, quoted, str_eq, dedup_strings, owned_all, dedup_first};
use crate::traits::{Error, Fit, Transform};

verus! {

/// The calendar year polars reports for a millisecond timestamp.
pub uninterp spec fn calendar_year(ms: int) -> Option<int>;

/// The month (1 to 12) polars reports for a millisecond timestamp.
pub uninterp spec fn calendar_month(ms: int) -> Option<int>;

/// The day of the month (1 to 31) polars reports for a millisecond timestamp.
pub uninterp spec fn calendar_day(ms: int) -> Option<int>;

/// The hour (0 to 23) polars reports for a millisecond timestamp.
pub uninterp spec fn calendar_hour(ms: int) -> Option<int>;

/// The minute (0 to 59) polars reports for a millisecond timestamp.
pub uninterp spec fn calendar_minute(ms: int) -> Option<int>;

/// The second (0 to 59) polars reports for a millisecond timestamp.
pub uninterp spec fn calendar_second(ms: int) -> Option<int>;

/// The ISO weekday (Monday 1 to Sunday 7) polars reports for a millisecond timestamp.
pub uninterp spec fn calendar_weekday(ms: int) -> Option<int>;

/// The day of the year (from 1) polars reports for a millisecond timestamp.
pub uninterp spec fn calendar_ordinal_day(ms: int) -> Option<int>;

/// The ISO week number polars reports for a millisecond timestamp.
pub uninterp spec fn calendar_week(ms: int) -> Option<int>;

/// The quarter (1 to 4) polars reports for a millisecond timestamp.
pub uninterp spec fn calendar_quarter(ms: int) -> Option<int>;

/// A possibly-null `i64` as a possibly-absent integer.
pub open spec fn opt_int(o: Option<i64>) -> Option<int> {
    match o {
        Some(v) => Some(v as int),
        None => None,
    }
}

/// `r` holds `part` of each non-null timestamp of `ms`, and null where `ms`
/// is null.
pub open spec fn parts_of(r: Seq<Option<i64>>, ms: Seq<Option<i64>>, part: spec_fn(int) -> Option<int>) -> bool {
    &&& r.len() == ms.len()
    &&& forall|k: int| 0 <= k < r.len() ==> match #[trigger] ms[k] {
        None => r[k] is None,
        Some(t) => opt_int(r[k]) == part(t as int),
    }
}

/// Each present value `v` of `r` at a present timestamp `t` of `ms` has
/// `fact(t, v)`.
pub open spec fn parts_obey(r: Seq<Option<i64>>, ms: Seq<Option<i64>>, fact: spec_fn(int, int) -> bool) -> bool {
    forall|k: int| 0 <= k < r.len() && k < ms.len() && (#[trigger] r[k]) is Some && ms[k] is Some ==> fact(
        ms[k]->0 as int,
        r[k]->0 as int,
    )
}

/// A column as a listing of columns shows it: `'name' (dtype)`.
pub open spec fn typed_column(c: SeriesView) -> Seq<char> {
    quoted(c.name) + " ("@ + crate::util::dtype_name(c.dtype) + ")"@
}

/// The columns `cols` listed as `'a' (f64), 'b' (str)`.
pub open spec fn typed_columns(cols: Seq<SeriesView>) -> Seq<char> {
    joined(cols.map_values(|c: SeriesView| typed_column(c)), ", "@)
}

/// The names `names` listed as `["a", "b"]`.
pub open spec fn name_list(names: Seq<Seq<char>>) -> Seq<char> {
    "["@ + joined(names.map_values(|n: Seq<char>| "\""@ + n + "\""@), ", "@) + "]"@
}

/// The listing of the columns of `x` with their dtypes.
fn typed_columns_text(x: &Frame) -> (r: String)
    ensures
        r@ == typed_columns(x@.columns),
{
    let cols = x.columns();
    let ghost cv = x@.columns;
    let mut out = owned("");
    proof {
        reveal_strlit("");
        assert(cv.take(0).map_values(|c: SeriesView| typed_column(c)) =~= Seq::<Seq<char>>::empty());
    }
    for i in 0..cols.len()
        invariant
            cv == x@.columns,
            cols.len() == cv.len(),
            forall|k: int| 0 <= k < cols.len() ==> (#[trigger] cols@[k])@ == cv[k],
            out@ == typed_columns(cv.take(i as int)),
    {
        let ghost before = out@;
        if i > 0 {
            push_str(&mut out, ", ");
        }
        let ghost sep_done = out@;
        push_str(&mut out, "'");
        push_str(&mut out, cols[i].name.as_str());
        push_str(&mut out, "'");
        push_str(&mut out, " (");
        push_str(&mut out, crate::util::dtype_text(cols[i].dtype));
        push_str(&mut out, ")");
        proof {
            let parts = cv.take(i + 1).map_values(|c: SeriesView| typed_column(c));
            assert(cols@[i as int]@ == cv[i as int]);
            assert(parts.drop_last() =~= cv.take(i as int).map_values(|c: SeriesView| typed_column(c)));
            assert(parts.last() == typed_column(cv[i as int]));
            assert(out@ =~= sep_done + typed_column(cv[i as int]));
            if i == 0 {
                assert(parts =~= seq![typed_column(cv[0])]);
                assert(before =~= Seq::<char>::empty());
            }
        }
    }
    proof {
        assert(cv.take(cols.len() as int) =~= cv);
    }
    out
}

/// The names `v` listed as `["a", "b"]`.
fn name_list_text(v: &Vec<String>) -> (r: String)
    ensures
        r@ == name_list(strings_view(v@)),
{
    let ghost nv = strings_view(v@);
    let mut out = owned("");
    proof {
        reveal_strlit("");
        assert(nv.take(0).map_values(|n: Seq<char>| "\""@ + n + "\""@) =~= Seq::<Seq<char>>::empty());
    }
    for i in 0..v.len()
        invariant
            nv == strings_view(v@),
            out@ == joined(nv.take(i as int).map_values(|n: Seq<char>| "\""@ + n + "\""@), ", "@),
    {
        let ghost before = out@;
        if i > 0 {
            push_str(&mut out, ", ");
        }
        let ghost sep_done = out@;
        push_str(&mut out, "\"");
        push_str(&mut out, v[i].as_str());
        push_str(&mut out, "\"");
        proof {
            let parts = nv.take(i + 1).map_values(|n: Seq<char>| "\""@ + n + "\""@);
            assert(nv[i as int] == v@[i as int]@);
            assert(parts.drop_last() =~= nv.take(i as int).map_values(|n: Seq<char>| "\""@ + n + "\""@));
            assert(parts.last() == "\""@ + nv[i as int] + "\""@);
            assert(out@ =~= sep_done + ("\""@ + nv[i as int] + "\""@));
            if i == 0 {
                assert(parts =~= seq!["\""@ + nv[0] + "\""@]);
                assert(before =~= Seq::<char>::empty());
            }
        }
    }
    proof {
        assert(nv.take(v.len() as int) =~= nv);
    }
    let mut r = owned("[");
    push_str(&mut r, out.as_str());
    push_str(&mut r, "]");
    r
}

/// polars `TemporalMethods::year` on a `Datetime(ms)` column holding `ms`.
#[verifier::external_body]
fn polars_year(ms: &Vec<Option<i64>>) -> (r: Vec<Option<i64>>)
    ensures
        parts_of(r@, ms@, |t: int| calendar_year(t)),
{
    let s = PolarsSeries::new("t".into(), ms.as_slice()).cast(&DataType::Datetime(polars::prelude::TimeUnit::Milliseconds, None)).unwrap();
    s.year().unwrap().iter().map(|v| v.map(|x| x as i64)).collect()
}

/// polars `TemporalMethods::month` on a `Datetime(ms)` column holding `ms`:
/// `calendar_month` of each timestamp, documented to lie in 1 to 12.
#[verifier::external_body]
fn polars_month(ms: &Vec<Option<i64>>) -> (r: Vec<Option<i64>>)
    ensures
        parts_of(r@, ms@, |t: int| calendar_month(t)),
        parts_obey(r@, ms@, |t: int, v: int| 1 <= v <= 12),
{
    let s = PolarsSeries::new("t".into(), ms.as_slice()).cast(&DataType::Datetime(polars::prelude::TimeUnit::Milliseconds, None)).unwrap();
    s.month().unwrap().iter().map(|v| v.map(|x| x as i64)).collect()
}

/// polars `TemporalMethods::day` on a `Datetime(ms)` column holding `ms`:
/// `calendar_day` of each timestamp, documented to lie in 1 to 31.
#[verifier::external_body]
fn polars_day(ms: &Vec<Option<i64>>) -> (r: Vec<Option<i64>>)
    ensures
        parts_of(r@, ms@, |t: int| calendar_day(t)),
        parts_obey(r@, ms@, |t: int, v: int| 1 <= v <= 31),
{
    let s = PolarsSeries::new("t".into(), ms.as_slice()).cast(&DataType::Datetime(polars::prelude::TimeUnit::Milliseconds, None)).unwrap();
    s.day().unwrap().iter().map(|v| v.map(|x| x as i64)).collect()
}

/// polars `TemporalMethods::hour` on a `Datetime(ms)` column holding `ms`:
/// `calendar_hour` of each timestamp. polars reads `t` as the naive datetime
/// `t` milliseconds after the epoch, so a present hour is the whole hours of
/// the milliseconds into the day.
#[verifier::external_body]
fn polars_hour(ms: &Vec<Option<i64>>) -> (r: Vec<Option<i64>>)
    ensures
        parts_of(r@, ms@, |t: int| calendar_hour(t)),
        parts_obey(r@, ms@, |t: int, v: int| v == (t % 86_400_000) / 3_600_000),
{
    let s = PolarsSeries::new("t".into(), ms.as_slice()).cast(&DataType::Datetime(polars::prelude::TimeUnit::Milliseconds, None)).unwrap();
    s.hour().unwrap().iter().map(|v| v.map(|x| x as i64)).collect()
}

/// polars `TemporalMethods::minute` on a `Datetime(ms)` column holding `ms`:
/// `calendar_minute` of each timestamp; a present minute is the whole
/// minutes of the milliseconds into the hour.
#[verifier::external_body]
fn polars_minute(ms: &Vec<Option<i64>>) -> (r: Vec<Option<i64>>)
    ensures
        parts_of(r@, ms@, |t: int| calendar_minute(t)),
        parts_obey(r@, ms@, |t: int, v: int| v == (t % 3_600_000) / 60_000),
{
    let s = PolarsSeries::new("t".into(), ms.as_slice()).cast(&DataType::Datetime(polars::prelude::TimeUnit::Milliseconds, None)).unwrap();
    s.minute().unwrap().iter().map(|v| v.map(|x| x as i64)).collect()
}

/// polars `TemporalMethods::second` on a `Datetime(ms)` column holding `ms`:
/// `calendar_second` of each timestamp; a present second is the whole
/// seconds of the milliseconds into the minute.
#[verifier::external_body]
fn polars_second(ms: &Vec<Option<i64>>) -> (r: Vec<Option<i64>>)
    ensures
        parts_of(r@, ms@, |t: int| calendar_second(t)),
        parts_obey(r@, ms@, |t: int, v: int| v == (t % 60_000) / 1_000),
{
    let s = PolarsSeries::new("t".into(), ms.as_slice()).cast(&DataType::Datetime(polars::prelude::TimeUnit::Milliseconds, None)).unwrap();
    s.second().unwrap().iter().map(|v| v.map(|x| x as i64)).collect()
}

/// polars `TemporalMethods::weekday` on a `Datetime(ms)` column holding `ms`:
/// `calendar_weekday` of each timestamp, the ISO weekday counted from the
/// whole days since the epoch, a Thursday (4).
#[verifier::external_body]
fn polars_weekday(ms: &Vec<Option<i64>>) -> (r: Vec<Option<i64>>)
    ensures
        parts_of(r@, ms@, |t: int| calendar_weekday(t)),
        parts_obey(r@, ms@, |t: int, v: int| v == (t / 86_400_000 + 3) % 7 + 1),
        forall|k: int| 0 <= k < r.len() ==> (#[trigger] r@[k] matches Some(v) ==> 1 <= v <= 7),
{
    let s = PolarsSeries::new("t".into(), ms.as_slice()).cast(&DataType::Datetime(polars::prelude::TimeUnit::Milliseconds, None)).unwrap();
    s.weekday().unwrap().iter().map(|v| v.map(|x| x as i64)).collect()
}

/// polars `TemporalMethods::ordinal_day` on a `Datetime(ms)` column holding `ms`:
/// `calendar_ordinal_day` of each timestamp, from 1 to 366.
#[verifier::external_body]
fn polars_ordinal_day(ms: &Vec<Option<i64>>) -> (r: Vec<Option<i64>>)
    ensures
        parts_of(r@, ms@, |t: int| calendar_ordinal_day(t)),
        parts_obey(r@, ms@, |t: int, v: int| 1 <= v <= 366),
{
    let s = PolarsSeries::new("t".into(), ms.as_slice()).cast(&DataType::Datetime(polars::prelude::TimeUnit::Milliseconds, None)).unwrap();
    s.ordinal_day().unwrap().iter().map(|v| v.map(|x| x as i64)).collect()
}

/// polars `TemporalMethods::week` on a `Datetime(ms)` column holding `ms`:
/// `calendar_week` of each timestamp, documented to lie in 1 to 53.
#[verifier::external_body]
fn polars_week(ms: &Vec<Option<i64>>) -> (r: Vec<Option<i64>>)
    ensures
        parts_of(r@, ms@, |t: int| calendar_week(t)),
        parts_obey(r@, ms@, |t: int, v: int| 1 <= v <= 53),
{
    let s = PolarsSeries::new("t".into(), ms.as_slice()).cast(&DataType::Datetime(polars::prelude::TimeUnit::Milliseconds, None)).unwrap();
    s.week().unwrap().iter().map(|v| v.map(|x| x as i64)).collect()
}

/// polars `TemporalMethods::quarter` on a `Datetime(ms)` column holding `ms`:
/// `calendar_quarter` of each timestamp, which polars computes from the
/// month as `(month + 2) / 3`.
#[verifier::external_body]
fn polars_quarter(ms: &Vec<Option<i64>>) -> (r: Vec<Option<i64>>)
    ensures
        parts_of(r@, ms@, |t: int| calendar_quarter(t)),
        parts_obey(r@, ms@, |t: int, v: int| calendar_month(t) matches Some(m) && v == (m + 2) / 3),
{
    let s = PolarsSeries::new("t".into(), ms.as_slice()).cast(&DataType::Datetime(polars::prelude::TimeUnit::Milliseconds, None)).unwrap();
    s.quarter().unwrap().iter().map(|v| v.map(|x| x as i64)).collect()
}

/// A calendar component to extract.
#[derive(Clone, Copy, Debug, PartialEq, Eq, Structural)]
pub enum DatetimeComponent {
    /// Calendar year.
    Year,
    /// Month, 1 to 12.
    Month,
    /// Day of the month, 1 to 31.
    Day,
    /// Hour, 0 to 23 (always 0 for `Date` columns).
    Hour,
    /// Minute, 0 to 59 (always 0 for `Date` columns).
    Minute,
    /// Second, 0 to 59 (always 0 for `Date` columns).
    Second,
    /// Day of the week, 0 (Monday) to 6 (Sunday).
    Weekday,
    /// Day of the year, from 1.
    DayOfYear,
    /// ISO week number.
    WeekOfYear,
    /// Quarter, 1 to 4.
    Quarter,
    /// `1.0` on Saturday and Sunday, else `0.0`.
    IsWeekend,
}

/// The suffix of the feature column of a component.
pub open spec fn component_suffix(c: DatetimeComponent) -> Seq<char> {
    match c {
        DatetimeComponent::Year => "year"@,
        DatetimeComponent::Month => "month"@,
        DatetimeComponent::Day => "day"@,
        DatetimeComponent::Hour => "hour"@,
        DatetimeComponent::Minute => "minute"@,
        DatetimeComponent::Second => "second"@,
        DatetimeComponent::Weekday => "weekday"@,
        DatetimeComponent::DayOfYear => "day_of_year"@,
        DatetimeComponent::WeekOfYear => "week_of_year"@,
        DatetimeComponent::Quarter => "quarter"@,
        DatetimeComponent::IsWeekend => "is_weekend"@,
    }
}

impl DatetimeComponent {
    /// The suffix of the feature column, e.g. `"day_of_year"`.
    pub fn suffix(self) -> (r: &'static str)
        ensures
            r@ == component_suffix(self),
    {
        match self {
            DatetimeComponent::Year => "year",
            DatetimeComponent::Month => "month",
            DatetimeComponent::Day => "day",
            DatetimeComponent::Hour => "hour",
            DatetimeComponent::Minute => "minute",
            DatetimeComponent::Second => "second",
            DatetimeComponent::Weekday => "weekday",
            DatetimeComponent::DayOfYear => "day_of_year",
            DatetimeComponent::WeekOfYear => "week_of_year",
            DatetimeComponent::Quarter => "quarter",
            DatetimeComponent::IsWeekend => "is_weekend",
        }
    }
}

/// The name of the feature `comp` of column `col`: `{col}_{suffix}`.
pub open spec fn feature_name(col: Seq<char>, comp: DatetimeComponent) -> Seq<char> {
    col + "_"@ + component_suffix(comp)
}

/// Whether a dtype is `Date` or `Datetime`.
pub open spec fn is_temporal(d: DType) -> bool {
    d is Date || d is Datetime
}

/// A temporal value as milliseconds since the epoch: days are scaled, finer
/// units are floored. A `Date` outside the `i32` day range has no value.
pub open spec fn millis_of(d: DType, t: int) -> Option<int> {
    match d {
        DType::Date => if -0x8000_0000 <= t < 0x8000_0000 { Some(t * 86_400_000) } else { None },
        DType::Datetime(TimeUnit::Milliseconds) => Some(t),
        DType::Datetime(TimeUnit::Microseconds) => Some(t / 1000),
        DType::Datetime(TimeUnit::Nanoseconds) => Some(t / 1_000_000),
        _ => None,
    }
}

/// An integer feature cell from a possibly-absent field.
pub open spec fn int_cell(o: Option<int>) -> Option<CellView> {
    match o {
        Some(v) => Some(CellView::Int(v)),
        None => None,
    }
}

/// The feature `comp` of one cell of a temporal column of dtype `d`.
pub open spec fn part_cell(comp: DatetimeComponent, d: DType, cell: Option<CellView>) -> Option<CellView> {
    match cell {
        Some(CellView::Int(t)) => {
            if d is Date && (comp is Hour || comp is Minute || comp is Second) {
                Some(CellView::Int(0))
            } else {
                match millis_of(d, t) {
                    None => None,
                    Some(ms) => match comp {
                        DatetimeComponent::Year => int_cell(calendar_year(ms)),
                        DatetimeComponent::Month => int_cell(calendar_month(ms)),
                        DatetimeComponent::Day => int_cell(calendar_day(ms)),
                        DatetimeComponent::Hour => int_cell(calendar_hour(ms)),
                        DatetimeComponent::Minute => int_cell(calendar_minute(ms)),
                        DatetimeComponent::Second => int_cell(calendar_second(ms)),
                        DatetimeComponent::Weekday => match calendar_weekday(ms) {
                            Some(w) => Some(CellView::Int(w - 1)),
                            None => None,
                        },
                        DatetimeComponent::DayOfYear => int_cell(calendar_ordinal_day(ms)),
                        DatetimeComponent::WeekOfYear => int_cell(calendar_week(ms)),
                        DatetimeComponent::Quarter => int_cell(calendar_quarter(ms)),
                        DatetimeComponent::IsWeekend => match calendar_weekday(ms) {
                            Some(w) => Some(CellView::Float(if w >= 6 { ONE_BITS } else { ZERO_BITS })),
                            None => None,
                        },
                    },
                }
            }
        },
        _ => None,
    }
}

/// The dtype of the feature column of `comp`.
pub open spec fn part_dtype(comp: DatetimeComponent) -> DType {
    if comp is IsWeekend { DType::Float64 } else { DType::Int32 }
}

/// The feature column `comp` of the temporal column `c`.
pub open spec fn part_series(c: SeriesView, comp: DatetimeComponent) -> SeriesView {
    SeriesView {
        name: feature_name(c.name, comp),
        dtype: part_dtype(comp),
        cells: c.cells.map_values(|x: Option<CellView>| part_cell(comp, c.dtype, x)),
    }
}

/// `f` with the features `comps` of the column `c` added one by one.
pub open spec fn add_parts(f: FrameView, c: SeriesView, comps: Seq<DatetimeComponent>) -> FrameView
    decreases comps.len(),
{
    if comps.len() == 0 {
        f
    } else {
        with_column_spec(add_parts(f, c, comps.drop_last()), part_series(c, comps.last()))
    }
}

/// How expanding a frame ends.
pub ghost enum Expansion {
    /// The frame with every feature added.
    Done(FrameView),
    /// A selected column is missing.
    Missing,
    /// A selected column is not `Date` or `Datetime`.
    NotTemporal,
}

/// The features of the columns `cols`, added column by column, each looked
/// up in the frame built so far.
pub open spec fn expand_all(f: FrameView, cols: Seq<Seq<char>>, comps: Seq<DatetimeComponent>) -> Expansion
    decreases cols.len(),
{
    if cols.len() == 0 {
        Expansion::Done(f)
    } else {
        match expand_all(f, cols.drop_last(), comps) {
            Expansion::Done(g) => if !g.has(cols.last()) {
                Expansion::Missing
            } else if comps.len() > 0 && !is_temporal(g.col(cols.last()).dtype) {
                Expansion::NotTemporal
            } else {
                Expansion::Done(add_parts(g, g.col(cols.last()), comps))
            },
            other => other,
        }
    }
}

/// The feature names for `cols` and `comps`: every component of the first
/// column, then of the second, and so on.
pub open spec fn planned_names(cols: Seq<Seq<char>>, comps: Seq<DatetimeComponent>) -> Seq<Seq<char>>
    decreases cols.len(),
{
    if cols.len() == 0 {
        Seq::empty()
    } else {
        planned_names(cols.drop_last(), comps) + comps.map_values(|c: DatetimeComponent| feature_name(cols.last(), c))
    }
}

/// The planned names are pairwise distinct and none is in `existing`.
pub open spec fn collision_free(existing: Seq<Seq<char>>, planned: Seq<Seq<char>>) -> bool {
    &&& forall|i: int| 0 <= i < planned.len() ==> !existing.contains(#[trigger] planned[i])
    &&& forall|i: int, j: int| 0 <= i < j < planned.len() ==> #[trigger] planned[i] != #[trigger] planned[j]
}

/// Whether the planned name at `k` is already in `existing` or repeats an
/// earlier planned name, while no earlier one does either.
pub open spec fn first_planned_clash(existing: Seq<Seq<char>>, planned: Seq<Seq<char>>, k: int) -> bool {
    &&& 0 <= k < planned.len()
    &&& (existing.contains(planned[k]) || exists|a: int| 0 <= a < k && planned[a] == planned[k])
    &&& forall|j: int| 0 <= j < k ==> !existing.contains(#[trigger] planned[j])
    &&& forall|a: int, b: int| 0 <= a < b < k ==> #[trigger] planned[a] != #[trigger] planned[b]
}

/// The names of the `Date` and `Datetime` columns of `cols`, in order.
pub open spec fn temporal_names(cols: Seq<SeriesView>) -> Seq<Seq<char>>
    decreases cols.len(),
{
    if cols.len() == 0 {
        Seq::empty()
    } else if is_temporal(cols.last().dtype) {
        temporal_names(cols.drop_last()).push(cols.last().name)
    } else {
        temporal_names(cols.drop_last())
    }
}

/// `s` with every repeated component dropped after its first occurrence.
pub open spec fn unique_components(s: Seq<DatetimeComponent>) -> Seq<DatetimeComponent>
    decreases s.len(),
{
    if s.len() == 0 {
        Seq::empty()
    } else {
        let d = unique_components(s.drop_last());
        if d.contains(s.last()) { d } else { d.push(s.last()) }
    }
}

/// The components used by a fit: `Year, Month, Day` when none are given,
/// else the given ones without repeats.
pub open spec fn effective_components(s: Seq<DatetimeComponent>) -> Seq<DatetimeComponent> {
    if s.len() == 0 {
        seq![DatetimeComponent::Year, DatetimeComponent::Month, DatetimeComponent::Day]
    } else {
        unique_components(s)
    }
}

/// The components without repeats, in first-occurrence order.
fn dedup_components(s: &Vec<DatetimeComponent>) -> (r: Vec<DatetimeComponent>)
    ensures
        r@ == unique_components(s@),
{
    let mut out: Vec<DatetimeComponent> = Vec::new();
    for i in 0..s.len()
        invariant
            out@ == unique_components(s@.take(i as int)),
    {
        proof {
            assert(s@.take(i + 1).drop_last() =~= s@.take(i as int));
            assert(s@.take(i + 1).last() == s@[i as int]);
        }
        let mut seen = false;
        for j in 0..out.len()
            invariant
                i < s.len(),
                seen <==> exists|k: int| 0 <= k < j && out@[k] == s@[i as int],
        {
            if out[j] == s[i] {
                seen = true;
            }
        }
        proof {
            if out@.contains(s@[i as int]) {
                let k = choose|k: int| 0 <= k < out@.len() && out@[k] == s@[i as int];
                assert(out@[k] == s@[i as int]);
            }
        }
        if !seen {
            out.push(s[i]);
        }
    }
    proof {
        assert(s@.take(s.len() as int) =~= s@);
    }
    out
}

/// The names of the `Date` and `Datetime` columns of `x`, in order.
fn temporal_columns(x: &Frame) -> (r: Vec<String>)
    ensures
        strings_view(r@) == temporal_names(x@.columns),
{
    let cols = x.columns();
    let ghost views = x@.columns;
    let mut out: Vec<String> = Vec::new();
    for i in 0..cols.len()
        invariant
            views == x@.columns,
            cols.len() == views.len(),
            forall|k: int| 0 <= k < cols.len() ==> (#[trigger] cols@[k])@ == views[k],
            strings_view(out@) == temporal_names(views.take(i as int)),
    {
        proof {
            assert(views.take(i + 1).drop_last() =~= views.take(i as int));
            assert(views.take(i + 1).last() == views[i as int]);
        }
        let d = cols[i].dtype;
        if matches!(d, DType::Date) || matches!(d, DType::Datetime(_)) {
            let ghost before = out@;
            out.push(cols[i].name.clone());
            assert(strings_view(out@) =~= strings_view(before).push(views[i as int].name));
        }
    }
    proof {
        assert(views.take(cols.len() as int) =~= views);
    }
    out
}

/// The feature names for `cols` and `comps`, in order.
fn plan_names(cols: &Vec<String>, comps: &Vec<DatetimeComponent>) -> (r: Vec<String>)
    ensures
        strings_view(r@) == planned_names(strings_view(cols@), comps@),
{
    let ghost cv = strings_view(cols@);
    let mut out: Vec<String> = Vec::new();
    for i in 0..cols.len()
        invariant
            cv == strings_view(cols@),
            strings_view(out@) == planned_names(cv.take(i as int), comps@),
    {
        proof {
            assert(cv.take(i + 1).drop_last() =~= cv.take(i as int));
            assert(cv.take(i + 1).last() == cv[i as int]);
        }
        let ghost base = strings_view(out@);
        for j in 0..comps.len()
            invariant
                cv == strings_view(cols@),
                i < cols.len(),
                strings_view(out@) == base + comps@.take(j as int).map_values(
                    |c: DatetimeComponent| feature_name(cv[i as int], c),
                ),
        {
            let name = join3(cols[i].as_str(), "_", comps[j].suffix());
            let ghost before = out@;
            out.push(name);
            proof {
                assert(comps@.take(j + 1).map_values(|c: DatetimeComponent| feature_name(cv[i as int], c))
                    =~= comps@.take(j as int).map_values(|c: DatetimeComponent| feature_name(cv[i as int], c)).push(
                    feature_name(cv[i as int], comps@[j as int])));
                assert(strings_view(out@) =~= strings_view(before).push(name@));
            }
        }
        proof {
            assert(comps@.take(comps.len() as int) =~= comps@);
        }
    }
    proof {
        assert(cv.take(cols.len() as int) =~= cv);
    }
    out
}

/// Whether `name` is one of `names`.
fn contains_name(names: &Vec<String>, name: &str) -> (r: bool)
    ensures
        r == strings_view(names@).contains(name@),
{
    for k in 0..names.len()
        invariant
            forall|i: int| 0 <= i < k ==> names@[i]@ != name@,
    {
        if str_eq(names[k].as_str(), name) {
            assert(strings_view(names@)[k as int] == name@);
            return true;
        }
    }
    proof {
        if strings_view(names@).contains(name@) {
            let i = choose|i: int| 0 <= i < names.len() && strings_view(names@)[i] == name@;
            assert(names@[i]@ == name@);
        }
    }
    false
}

/// The first planned name that is in `existing` or repeats an earlier
/// planned name, if any.
fn first_collision(existing: &Vec<String>, planned: &Vec<String>) -> (r: Option<usize>)
    ensures
        r is None <==> collision_free(strings_view(existing@), strings_view(planned@)),
        r matches Some(i) ==> i < planned.len() && first_planned_clash(strings_view(existing@), strings_view(planned@), i as int),
{
    let ghost ev = strings_view(existing@);
    let ghost pv = strings_view(planned@);
    for i in 0..planned.len()
        invariant
            ev == strings_view(existing@),
            pv == strings_view(planned@),
            forall|a: int| 0 <= a < i ==> !ev.contains(#[trigger] pv[a]),
            forall|a: int, b: int| 0 <= a < b < i ==> #[trigger] pv[a] != #[trigger] pv[b],
    {
        if contains_name(existing, planned[i].as_str()) {
            assert(pv[i as int] == planned@[i as int]@);
            assert(!collision_free(ev, pv));
            return Some(i);
        }
        for j in 0..i
            invariant
                ev == strings_view(existing@),
                pv == strings_view(planned@),
                i < planned.len(),
                forall|a: int| 0 <= a < j ==> pv[a] != pv[i as int],
                forall|a: int| 0 <= a < i ==> !ev.contains(#[trigger] pv[a]),
                forall|a: int, b: int| 0 <= a < b < i ==> #[trigger] pv[a] != #[trigger] pv[b],
        {
            if str_eq(planned[j].as_str(), planned[i].as_str()) {
                assert(pv[j as int] == pv[i as int]);
                assert(!collision_free(ev, pv));
                return Some(i);
            }
        }
    }
    None
}

/// `t / d`, rounded toward negative infinity.
fn floor_div(t: i64, d: i64) -> (r: i64)
    requires
        d > 0,
    ensures
        r == t / d,
{
    if t >= 0 {
        t / d
    } else {
        let u: i64 = -(t + 1);
        let q: i64 = u / d;
        proof {
            let r0 = u % d;
            assert(u == d * q + r0) by (nonlinear_arith)
                requires
                    d > 0,
                    q == u / d,
                    r0 == u % d,
            ;
            assert(0 <= r0 < d);
            assert(t == d * (-q - 1) + (d - r0 - 1)) by (nonlinear_arith)
                requires
                    u == d * q + r0,
                    u == -(t + 1),
            ;
            vstd::arithmetic::div_mod::lemma_fundamental_div_mod_converse(t as int, d as int, -q - 1, d - r0 - 1);
        }
        -q - 1
    }
}

/// The milliseconds since the epoch of each value of a temporal column.
fn millis_column(s: &Series) -> (r: Vec<Option<i64>>)
    requires
        is_temporal(s.dtype),
        s@.cells_fit(),
    ensures
        r.len() == s@.cells.len(),
        forall|k: int| 0 <= k < r.len() ==> opt_int(#[trigger] r@[k]) == match s@.cells[k] {
            Some(CellView::Int(t)) => millis_of(s.dtype, t),
            _ => None,
        },
{
    let mut out: Vec<Option<i64>> = Vec::new();
    for k in 0..s.values.len()
        invariant
            is_temporal(s.dtype),
            out.len() == k,
            forall|i: int| 0 <= i < k ==> opt_int(#[trigger] out@[i]) == match s@.cells[i] {
                Some(CellView::Int(t)) => millis_of(s.dtype, t),
                _ => None,
            },
    {
        let m: Option<i64> = match &s.values[k] {
            Some(Value::Int(t)) => {
                let t = *t;
                match s.dtype {
                    DType::Date => if -0x8000_0000 <= t && t < 0x8000_0000 {
                        Some(t * 86_400_000)
                    } else {
                        None
                    },
                    DType::Datetime(TimeUnit::Milliseconds) => Some(t),
                    DType::Datetime(TimeUnit::Microseconds) => Some(floor_div(t, 1000)),
                    DType::Datetime(TimeUnit::Nanoseconds) => Some(floor_div(t, 1_000_000)),
                    _ => None,
                }
            },
            _ => None,
        };
        out.push(m);
    }
    out
}

/// The feature column `comp` of the temporal column `s`.
fn part_column(s: &Series, comp: DatetimeComponent) -> (r: Series)
    requires
        is_temporal(s.dtype),
        s@.cells_fit(),
    ensures
        r@ == part_series(s@, comp),
        r@.cells_fit(),
{
    let n = s.values.len();
    let date_zero = matches!(s.dtype, DType::Date) && (matches!(comp, DatetimeComponent::Hour)
        || matches!(comp, DatetimeComponent::Minute) || matches!(comp, DatetimeComponent::Second));
    let ms = millis_column(s);
    let raw: Vec<Option<i64>> = if date_zero {
        Vec::new()
    } else {
        match comp {
            DatetimeComponent::Year => polars_year(&ms),
            DatetimeComponent::Month => polars_month(&ms),
            DatetimeComponent::Day => polars_day(&ms),
            DatetimeComponent::Hour => polars_hour(&ms),
            DatetimeComponent::Minute => polars_minute(&ms),
            DatetimeComponent::Second => polars_second(&ms),
            DatetimeComponent::Weekday => polars_weekday(&ms),
            DatetimeComponent::DayOfYear => polars_ordinal_day(&ms),
            DatetimeComponent::WeekOfYear => polars_week(&ms),
            DatetimeComponent::Quarter => polars_quarter(&ms),
            DatetimeComponent::IsWeekend => polars_weekday(&ms),
        }
    };
    let ghost part: spec_fn(int) -> Option<int> = match comp {
        DatetimeComponent::Year => |t: int| calendar_year(t),
        DatetimeComponent::Month => |t: int| calendar_month(t),
        DatetimeComponent::Day => |t: int| calendar_day(t),
        DatetimeComponent::Hour => |t: int| calendar_hour(t),
        DatetimeComponent::Minute => |t: int| calendar_minute(t),
        DatetimeComponent::Second => |t: int| calendar_second(t),
        DatetimeComponent::Weekday => |t: int| calendar_weekday(t),
        DatetimeComponent::DayOfYear => |t: int| calendar_ordinal_day(t),
        DatetimeComponent::WeekOfYear => |t: int| calendar_week(t),
        DatetimeComponent::Quarter => |t: int| calendar_quarter(t),
        DatetimeComponent::IsWeekend => |t: int| calendar_weekday(t),
    };
    assert(!date_zero ==> parts_of(raw@, ms@, part));
    let mut cells: Vec<Option<Value>> = Vec::new();
    for k in 0..n
        invariant
            n == s.values.len(),
            ms.len() == n,
            !date_zero ==> parts_of(raw@, ms@, part),
            !date_zero && (comp is Weekday || comp is IsWeekend) ==> forall|i: int|
                0 <= i < raw.len() ==> (#[trigger] raw@[i] matches Some(v) ==> 1 <= v <= 7),
            date_zero == (s.dtype is Date && (comp is Hour || comp is Minute || comp is Second)),
            forall|i: int| 0 <= i < n ==> opt_int(#[trigger] ms@[i]) == match s@.cells[i] {
                Some(CellView::Int(t)) => millis_of(s.dtype, t),
                _ => None,
            },
            part == (match comp {
                DatetimeComponent::Year => |t: int| calendar_year(t),
                DatetimeComponent::Month => |t: int| calendar_month(t),
                DatetimeComponent::Day => |t: int| calendar_day(t),
                DatetimeComponent::Hour => |t: int| calendar_hour(t),
                DatetimeComponent::Minute => |t: int| calendar_minute(t),
                DatetimeComponent::Second => |t: int| calendar_second(t),
                DatetimeComponent::Weekday => |t: int| calendar_weekday(t),
                DatetimeComponent::DayOfYear => |t: int| calendar_ordinal_day(t),
                DatetimeComponent::WeekOfYear => |t: int| calendar_week(t),
                DatetimeComponent::Quarter => |t: int| calendar_quarter(t),
                DatetimeComponent::IsWeekend => |t: int| calendar_weekday(t),
            }),
            s@.cells_fit(),
            is_temporal(s.dtype),
            cells.len() == k,
            forall|i: int| 0 <= i < k ==> opt_view(#[trigger] cells@[i]) == part_cell(comp, s.dtype, s@.cells[i]),
            forall|i: int| 0 <= i < k ==> crate::frame::cell_fits(part_dtype(comp), opt_view(#[trigger] cells@[i])),
    {
        proof {
            assert(crate::frame::cell_fits(s.dtype, s@.cells[k as int]));
        }
        let c: Option<Value> = match &s.values[k] {
            None => None,
            Some(_) => if date_zero {
                Some(Value::Int(0))
            } else {
                match raw[k] {
                    None => None,
                    Some(v) => match comp {
                        DatetimeComponent::Weekday => Some(Value::Int(v - 1)),
                        DatetimeComponent::IsWeekend => Some(Value::Float(if v >= 6 { ONE_BITS } else { ZERO_BITS })),
                        _ => Some(Value::Int(v)),
                    },
                }
            },
        };
        proof {
            if !date_zero {
                assert(ms@[k as int] is Some ==> opt_int(raw@[k as int]) == part(ms@[k as int]->0 as int));
            }
        }
        cells.push(c);
    }
    let name = join3(s.name.as_str(), "_", comp.suffix());
    let dtype = if matches!(comp, DatetimeComponent::IsWeekend) { DType::Float64 } else { DType::Int32 };
    let r = Series { name, dtype, values: cells };
    assert(r@.cells =~= part_series(s@, comp).cells);
    r
}

/// Extract calendar components from `Date` and `Datetime` columns.
pub struct DatetimeFeatures {
    fitted: bool,
    columns: Vec<String>,
    column_config: Option<Vec<String>>,
    components: Vec<DatetimeComponent>,
}

impl DatetimeFeatures {
    #[verifier::type_invariant]
    spec fn inv(&self) -> bool {
        self.fitted ==> self.components.len() > 0
    }

    /// Whether a fit has succeeded.
    pub closed spec fn is_fitted(&self) -> bool {
        self.fitted
    }

    /// The columns resolved by the last fit.
    pub closed spec fn resolved(&self) -> Seq<Seq<char>> {
        strings_view(self.columns@)
    }

    /// The configured columns; `None` asks for auto-discovery.
    pub closed spec fn configured(&self) -> Option<Seq<Seq<char>>> {
        match self.column_config {
            Some(v) => Some(strings_view(v@)),
            None => None,
        }
    }

    /// The components (as configured, or as resolved by the last fit).
    pub closed spec fn comps(&self) -> Seq<DatetimeComponent> {
        self.components@
    }

    /// A transformer with auto-discovery of columns and the default components.
    pub fn new() -> (r: Self)
        ensures
            !r.is_fitted(),
            r.configured() is None,
            r.comps().len() == 0,
            r.resolved().len() == 0,
    {
        let r = Self { fitted: false, columns: Vec::new(), column_config: None, components: Vec::new() };
        assert(r.resolved() =~= Seq::<Seq<char>>::empty());
        r
    }

    /// Set the columns to expand; an empty list asks for auto-discovery.
    pub fn columns(self, cols: &[&str]) -> (r: Self)
        ensures
            r.is_fitted() == self.is_fitted(),
            r.configured() == Some(cols@.map_values(|s: &str| s@)),
            r.comps() == self.comps(),
            r.resolved() == self.resolved(),
    {
        proof {
            use_type_invariant(&self);
        }
        let cfg = owned_all(cols);
        Self { fitted: self.fitted, columns: self.columns, column_config: Some(cfg), components: self.components }
    }

    /// Set the components to extract; an empty list asks for `Year, Month, Day`.
    pub fn components(self, comps: &[DatetimeComponent]) -> (r: Self)
        ensures
            !r.is_fitted(),
            r.configured() == self.configured(),
            r.comps() == comps@,
            r.resolved() == self.resolved(),
    {
        let mut v: Vec<DatetimeComponent> = Vec::new();
        for i in 0..comps.len()
            invariant
                v@ == comps@.take(i as int),
        {
            v.push(comps[i]);
            assert(v@ =~= comps@.take(i + 1));
        }
        assert(v@ =~= comps@);
        Self { fitted: false, columns: self.columns, column_config: self.column_config, components: v }
    }
}

impl Default for DatetimeFeatures {
    fn default() -> (r: Self)
        ensures
            !r.is_fitted(),
            r.configured() is None,
            r.comps().len() == 0,
    {
        Self::new()
    }
}

/// The columns a fit resolves: the configured ones without repeats, or the
/// temporal columns of `f` when none are configured.
pub open spec fn resolve_columns(f: FrameView, cfg: Option<Seq<Seq<char>>>) -> Seq<Seq<char>> {
    match cfg {
        Some(c) => if c.len() > 0 { dedup_first(c) } else { temporal_names(f.columns) },
        None => temporal_names(f.columns),
    }
}

/// Whether the configured columns are all present and temporal.
pub open spec fn configured_ok(f: FrameView, cfg: Option<Seq<Seq<char>>>) -> bool {
    match cfg {
        Some(c) => c.len() == 0 || forall|k: int| 0 <= k < c.len() ==> f.has(#[trigger] c[k]) && is_temporal(f.col(c[k]).dtype),
        None => true,
    }
}

impl Fit<Frame> for DatetimeFeatures {
    type Output = ();

    open spec fn fits_to(&self, x: Frame, after: Self, r: Result<(), Error>) -> bool {
        &&& after.configured() == self.configured()
        &&& after.is_fitted() == r is Ok
        &&& r matches Err(e) ==> e is InvalidInput
        &&& x@.height == 0 || x@.columns.len() == 0 ==> r is Err
        &&& r is Ok <==> ({
            &&& x@.height > 0
            &&& x@.columns.len() > 0
            &&& configured_ok(x@, self.configured())
            &&& resolve_columns(x@, self.configured()).len() > 0
            &&& collision_free(x@.names(), planned_names(resolve_columns(x@, self.configured()), effective_components(self.comps())))
        })
        &&& (x@.height > 0 && x@.columns.len() > 0 && (self.configured() matches Some(c) ==> c.len() == 0)
            && resolve_columns(x@, self.configured()).len() == 0) ==> (r matches Err(Error::InvalidInput(m)) && contains_text(
            m@,
            typed_columns(x@.columns),
        ))
        &&& r is Ok ==> after.resolved() == resolve_columns(x@, self.configured())
        &&& r is Ok ==> after.comps() == effective_components(self.comps())
        &&& ({
            let planned = planned_names(resolve_columns(x@, self.configured()), effective_components(self.comps()));
            (x@.height > 0 && x@.columns.len() > 0 && configured_ok(x@, self.configured())
                && resolve_columns(x@, self.configured()).len() > 0 && !collision_free(x@.names(), planned))
                ==> (r matches Err(Error::InvalidInput(m)) && exists|k: int| first_planned_clash(x@.names(), planned, k)
                    && contains_text(m@, quoted(planned[k])))
        })
    }

    /// Resolve the columns and components and check the feature names.
    ///
    /// Fails with `InvalidInput` on an empty frame, when auto-discovery finds
    /// no temporal column, when a configured column is missing or not
    /// temporal, and when a feature name repeats an input column or another
    /// feature. Any failure leaves the transformer unfitted.
    fn fit(&mut self, x: Frame) -> (r: Result<(), Error>) {
        self.fitted = false;
        self.columns = Vec::new();
        if x.width() == 0 || x.height() == 0 {
            return Err(Error::InvalidInput(owned("DatetimeFeatures.fit received an empty DataFrame (0 rows or 0 columns). Provide at least one row and one column.")));
        }
        let ghost cfg = self.configured();
        let auto = match &self.column_config {
            None => true,
            Some(c) => c.len() == 0,
        };
        if auto {
            let found = temporal_columns(&x);
            if found.len() == 0 {
                let listing = typed_columns_text(&x);
                let head = join3(
                    "DatetimeFeatures: no Date or Datetime columns found. This transformer only operates on Date/Datetime columns. Available columns: [",
                    listing.as_str(),
                    "]. Cast non-date columns before fitting.",
                );
                proof {
                    let a = "DatetimeFeatures: no Date or Datetime columns found. This transformer only operates on Date/Datetime columns. Available columns: ["@;
                    lemma_text_at_end(a, listing@);
                    lemma_text_append(a + listing@, listing@, "]. Cast non-date columns before fitting."@);
                }
                return Err(Error::InvalidInput(head));
            }
            self.columns = found;
        } else {
            let cols = match &self.column_config {
                Some(c) => c,
                None => {
                    return Err(Error::InvalidInput(owned("DatetimeFeatures.fit: no columns configured.")));
                },
            };
            let ghost cv = strings_view(cols@);
            for i in 0..cols.len()
                invariant
                    cv == strings_view(cols@),
                    !self.fitted,
                    self.configured() == old(self).configured(),
                    self.column_config == Some(*cols),
                    forall|k: int| 0 <= k < i ==> x@.has(#[trigger] cv[k]) && is_temporal(x@.col(cv[k]).dtype),
            {
                let name = cols[i].as_str();
                assert(cv[i as int] == name@);
                match x.column(name) {
                    None => {
                        return Err(Error::InvalidInput(join3("DatetimeFeatures.fit: column '", name, "' not found.")));
                    },
                    Some(c) => {
                        if !(matches!(c.dtype, DType::Date) || matches!(c.dtype, DType::Datetime(_))) {
                            let head = join3("DatetimeFeatures.fit: column '", name, "' has dtype ");
                            return Err(Error::InvalidInput(join3(head.as_str(), crate::util::dtype_text(c.dtype), "; expected Date or Datetime.")));
                        }
                    },
                }
            }
            self.columns = dedup_strings(cols);
        }
        if self.components.len() == 0 {
            let mut d: Vec<DatetimeComponent> = Vec::new();
            d.push(DatetimeComponent::Year);
            d.push(DatetimeComponent::Month);
            d.push(DatetimeComponent::Day);
            assert(d@ =~= seq![DatetimeComponent::Year, DatetimeComponent::Month, DatetimeComponent::Day]);
            self.components = d;
        } else {
            self.components = dedup_components(&self.components);
        }
        let names = x.get_column_names();
        let planned = plan_names(&self.columns, &self.components);
        match first_collision(&names, &planned) {
            Some(i) => {
                assert(strings_view(planned@)[i as int] == planned@[i as int]@);
                return Err(Error::InvalidInput(quote_in(
                    "DatetimeFeatures: generated column ",
                    planned[i].as_str(),
                    " collides with an existing input column or another generated column. Rename the conflicting input column or drop the conflicting component.",
                )));
            },
            None => {},
        }
        self.fitted = true;
        Ok(())
    }
}

impl Transform<Frame> for DatetimeFeatures {
    type Output = Frame;

    /// Add the feature columns, column by column and component by component.
    ///
    /// Fails with `NotFitted` before a fit; with `InvalidInput` when `x`
    /// already holds a feature name or misses a resolved column; with
    /// `Computation` when a resolved column is not temporal.
    fn transform(&self, x: Frame) -> (r: Result<Frame, Error>)
        ensures
            !self.is_fitted() ==> r matches Err(Error::NotFitted(_)),
            self.is_fitted() ==> ({
                let planned = planned_names(self.resolved(), self.comps());
                if exists|i: int| 0 <= i < planned.len() && x@.has(#[trigger] planned[i]) {
                    r matches Err(Error::InvalidInput(_))
                } else {
                    match expand_all(x@, self.resolved(), self.comps()) {
                        Expansion::Done(f) => r matches Ok(g) && g@ == f,
                        Expansion::Missing => r matches Err(Error::InvalidInput(_)),
                        Expansion::NotTemporal => r matches Err(Error::Computation(_)),
                    }
                }
            }),
    {
        proof {
            use_type_invariant(self);
        }
        if !self.fitted {
            return Err(Error::NotFitted(owned("DatetimeFeatures has not been fitted. Call .fit(dataframe) before .transform().")));
        }
        let planned = plan_names(&self.columns, &self.components);
        let ghost pv = strings_view(planned@);
        for i in 0..planned.len()
            invariant
                pv == strings_view(planned@),
                pv == planned_names(self.resolved(), self.comps()),
                self.fitted,
                forall|k: int| 0 <= k < i ==> !x@.has(#[trigger] pv[k]),
        {
            if x.column(planned[i].as_str()).is_some() {
                assert(x@.has(pv[i as int]));
                assert(x@.has(planned_names(self.resolved(), self.comps())[i as int]));
                let head = join3("DatetimeFeatures.transform: input already contains column '", planned[i].as_str(), "', which would be overwritten by a generated feature. ");
                return Err(Error::InvalidInput(concat(head.as_str(), "Rename the conflicting column or drop the conflicting component.")));
            }
        }
        let ghost cols = strings_view(self.columns@);
        let ghost comps = self.components@;
        let mut out = x.copy();
        for i in 0..self.columns.len()
            invariant
                cols == strings_view(self.columns@),
                comps == self.components@,
                comps.len() > 0,
                self.fitted,
                pv == planned_names(cols, comps),
                forall|k: int| 0 <= k < pv.len() ==> !x@.has(#[trigger] pv[k]),
                expand_all(x@, cols.take(i as int), comps) == Expansion::Done(out@),
        {
            proof {
                assert(cols.take(i + 1).drop_last() =~= cols.take(i as int));
                assert(cols.take(i + 1).last() == cols[i as int]);
            }
            let name = self.columns[i].as_str();
            proof {
                assert(cols[i as int] == name@);
                lemma_position_of(out@.columns, name@);
            }
            let s = match out.column(name) {
                Some(c) => c.copy(),
                None => {
                    proof {
                        lemma_expand_stops(x@, cols, comps, i as int + 1);
                    }
                    let fitted = name_list_text(&self.columns);
                    let head = join3("DatetimeFeatures.transform: column '", name, "' not found. The transformer was fitted on columns: ");
                    return Err(Error::InvalidInput(join3(head.as_str(), fitted.as_str(), ".")));
                },
            };
            if !(matches!(s.dtype, DType::Date) || matches!(s.dtype, DType::Datetime(_))) {
                proof {
                    lemma_expand_stops(x@, cols, comps, i as int + 1);
                }
                let head = join3("DatetimeFeatures.transform: column '", name, "': temporal components are not supported for dtype ");
                return Err(Error::Computation(concat(head.as_str(), crate::util::dtype_text(s.dtype))));
            }
            proof {
                let g = out@;
                let p = crate::frame::position_of(g.columns, name@)->0;
                assert(g.columns[p].cells_fit());
                assert(g.columns[p].cells.len() == g.height);
            }
            let ghost g0 = out@;
            for j in 0..self.components.len()
                invariant
                    comps == self.components@,
                    s@ == g0.col(name@),
                    s@.cells_fit(),
                    s@.cells.len() == g0.height,
                    g0.columns.len() > 0,
                    is_temporal(s.dtype),
                    out@ == add_parts(g0, s@, comps.take(j as int)),
                    out@.height == g0.height,
                    out@.columns.len() > 0,
            {
                proof {
                    assert(comps.take(j + 1).drop_last() =~= comps.take(j as int));
                    assert(comps.take(j + 1).last() == comps[j as int]);
                }
                let part = part_column(&s, self.components[j]);
                let _ = out.with_column(part);
            }
            proof {
                assert(comps.take(comps.len() as int) =~= comps);
            }
        }
        proof {
            assert(cols.take(self.columns.len() as int) =~= cols);
        }
        Ok(out)
    }
}

/// Once a prefix stops, every longer prefix stops the same way.
proof fn lemma_expand_stops(f: FrameView, cols: Seq<Seq<char>>, comps: Seq<DatetimeComponent>, n: int)
    requires
        0 <= n <= cols.len(),
        !(expand_all(f, cols.take(n), comps) is Done),
    ensures
        expand_all(f, cols, comps) == expand_all(f, cols.take(n), comps),
    decreases cols.len() - n,
{
    if n < cols.len() {
        assert(cols.take(n + 1).drop_last() =~= cols.take(n));
        lemma_expand_stops(f, cols, comps, n + 1);
    } else {
        assert(cols.take(n) =~= cols);
    }
}

/// Auto-discovery finds exactly the `Date` and `Datetime` columns, each
/// once, in column order.
pub proof fn law_temporal_names_filter(s: Seq<SeriesView>)
    ensures
        temporal_names(s) == s.filter_map(|c: SeriesView| if is_temporal(c.dtype) { Some(c.name) } else { None }),
    decreases s.len(),
{
    if s.len() > 0 {
        law_temporal_names_filter(s.drop_last());
        let rest = temporal_names(s.drop_last());
        assert forall|v: Seq<char>| #[trigger] rest.push(v) == rest + seq![v] by {
            assert(rest.push(v) =~= rest + seq![v]);
        }
    }
}

/// The feature names of two runs of columns are those of the first
/// followed by those of the second, and one column gives its components
/// in order.
pub proof fn law_planned_names_split(s: Seq<Seq<char>>, t: Seq<Seq<char>>, x: Seq<char>, comps: Seq<DatetimeComponent>)
    ensures
        planned_names(s + t, comps) == planned_names(s, comps) + planned_names(t, comps),
        planned_names(seq![x], comps) == comps.map_values(|c: DatetimeComponent| feature_name(x, c)),
    decreases t.len(),
{
    let one = seq![x];
    assert(one.drop_last() =~= Seq::<Seq<char>>::empty());
    assert(one.last() == x);
    assert(planned_names(Seq::<Seq<char>>::empty(), comps) =~= Seq::<Seq<char>>::empty());
    assert(Seq::<Seq<char>>::empty() + comps.map_values(|c: DatetimeComponent| feature_name(x, c)) =~= comps.map_values(|c: DatetimeComponent| feature_name(x, c)));
    if t.len() == 0 {
        assert(s + t =~= s);
        assert(planned_names(s, comps) + Seq::<Seq<char>>::empty() =~= planned_names(s, comps));
    } else {
        law_planned_names_split(s, t.drop_last(), x, comps);
        assert((s + t).drop_last() =~= s + t.drop_last());
        assert((s + t).last() == t.last());
        assert(planned_names(s, comps) + planned_names(t.drop_last(), comps) + comps.map_values(|c: DatetimeComponent| feature_name(t.last(), c)) =~= planned_names(s, comps) + (planned_names(t.drop_last(), comps) + comps.map_values(|c: DatetimeComponent| feature_name(t.last(), c))));
    }
}

/// The weekday counts from `0` (Monday) to `6` (Sunday), and a day is a
/// weekend day exactly when its weekday is `5` or `6`: the two features
/// agree on every cell.
pub proof fn law_weekend_matches_weekday(d: DType, cell: Option<CellView>, t: int)
    requires
        is_temporal(d),
    ensures
        part_cell(DatetimeComponent::Weekday, d, cell) is None <==> part_cell(DatetimeComponent::IsWeekend, d, cell) is None,
        forall|w: int| part_cell(DatetimeComponent::Weekday, d, cell) == Some(CellView::Int(w)) ==> part_cell(
            DatetimeComponent::IsWeekend,
            d,
            cell,
        ) == Some(CellView::Float(if w >= 5 { ONE_BITS } else { ZERO_BITS })),
        cell == Some(CellView::Int(t)) ==> match millis_of(d, t) {
            Some(ms) => match calendar_weekday(ms) {
                Some(w) => part_cell(DatetimeComponent::Weekday, d, cell) == Some(CellView::Int(w - 1)),
                None => part_cell(DatetimeComponent::Weekday, d, cell) is None,
            },
            None => part_cell(DatetimeComponent::Weekday, d, cell) is None,
        },
{
}

/// A `Date` has no time of day: its hour, minute and second are `0`, and
/// its other features are those of midnight of that day.
pub proof fn law_date_is_midnight(comp: DatetimeComponent, t: int)
    requires
        -0x8000_0000 <= t < 0x8000_0000,
    ensures
        (comp is Hour || comp is Minute || comp is Second) ==> part_cell(comp, DType::Date, Some(CellView::Int(t))) == Some(
            CellView::Int(0),
        ),
        !(comp is Hour || comp is Minute || comp is Second) ==> part_cell(comp, DType::Date, Some(CellView::Int(t)))
            == part_cell(comp, DType::Datetime(TimeUnit::Milliseconds), Some(CellView::Int(t * 86_400_000))),
{
}

/// Finer time units are floored to milliseconds: a value in microseconds or
/// nanoseconds has the features of the millisecond it falls in, and a null
/// or a non-temporal cell gives a null feature.
pub proof fn law_finer_units_floor(comp: DatetimeComponent, t: int)
    ensures
        part_cell(comp, DType::Datetime(TimeUnit::Microseconds), Some(CellView::Int(t))) == part_cell(
            comp,
            DType::Datetime(TimeUnit::Milliseconds),
            Some(CellView::Int(t / 1000)),
        ),
        part_cell(comp, DType::Datetime(TimeUnit::Nanoseconds), Some(CellView::Int(t))) == part_cell(
            comp,
            DType::Datetime(TimeUnit::Milliseconds),
            Some(CellView::Int(t / 1_000_000)),
        ),
        part_cell(comp, DType::Datetime(TimeUnit::Milliseconds), None) is None,
{
}

/// Different components give different feature names for the same column.
pub proof fn law_feature_names_distinct(col: Seq<char>, a: DatetimeComponent, b: DatetimeComponent)
    requires
        a != b,
    ensures
        feature_name(col, a) != feature_name(col, b),
{
    reveal_strlit("year");
    reveal_strlit("month");
    reveal_strlit("day");
    reveal_strlit("hour");
    reveal_strlit("minute");
    reveal_strlit("second");
    reveal_strlit("weekday");
    reveal_strlit("day_of_year");
    reveal_strlit("week_of_year");
    reveal_strlit("quarter");
    reveal_strlit("is_weekend");
    let pre = col + "_"@;
    let x = pre + component_suffix(a);
    let y = pre + component_suffix(b);
    if component_suffix(a) == component_suffix(b) {
        assert(component_suffix(a).len() == component_suffix(b).len());
        assert(component_suffix(a)[0] == component_suffix(b)[0]);
        assert(component_suffix(a)[4] == component_suffix(b)[4]);
    }
    if x == y {
        assert(x.subrange(pre.len() as int, x.len() as int) =~= component_suffix(a));
        assert(y.subrange(pre.len() as int, y.len() as int) =~= component_suffix(b));
    }
}

} // verus!

//! The columnar table that every transformer reads and writes.
//!
//! A [`Frame`] is a list of named, typed columns ([`Series`]) of equal length.
//! Column names are unique and every cell agrees with its column's dtype; the
//! type invariant of `Frame` keeps both facts for every value of the type.
//!
//! Floating-point cells are held as the IEEE-754 bit pattern of the `f64`
//! value, canonicalized so that the bit equality used here agrees with the
//! equality of the values they stand for (all NaNs are equal, and `-0.0`
//! equals `0.0`).

use vstd::prelude::*;
use crate::text::{owned, str_eq};

verus! {

/// Time resolution of a `Datetime` column.
#[derive(Clone, Copy, Debug, PartialEq, Eq, Structural)]
pub enum TimeUnit {
    /// Nanoseconds since the epoch.
    Nanoseconds,
    /// Microseconds since the epoch.
    Microseconds,
    /// Milliseconds since the epoch.
    Milliseconds,
}

/// The data type of a column.
#[derive(Clone, Copy, Debug, PartialEq, Eq, Structural)]
pub enum DType {
    /// `true`/`false` values.
    Boolean,
    /// 8-bit signed integers.
    Int8,
    /// 16-bit signed integers.
    Int16,
    /// 32-bit signed integers.
    Int32,
    /// 64-bit signed integers.
    Int64,
    /// 8-bit unsigned integers.
    UInt8,
    /// 16-bit unsigned integers.
    UInt16,
    /// 32-bit unsigned integers.
    UInt32,
    /// 64-bit unsigned integers.
    UInt64,
    /// 32-bit floats.
    Float32,
    /// 64-bit floats.
    Float64,
    /// UTF-8 strings.
    Utf8,
    /// Calendar dates, stored as days since 1970-01-01.
    Date,
    /// Timestamps, stored as ticks of the unit since the epoch.
    Datetime(TimeUnit),
    /// Any other dtype; its cells are held as their text rendering.
    Other,
}

/// One non-null cell.
#[derive(Clone, Debug)]
pub enum Value {
    /// A boolean.
    Bool(bool),
    /// A signed integer (also dates and timestamps).
    Int(i64),
    /// An unsigned integer.
    UInt(u64),
    /// A float, as its canonical IEEE-754 bit pattern.
    Float(u64),
    /// A string.
    Str(String),
}

/// The mathematical content of a cell.
pub ghost enum CellView {
    Bool(bool),
    Int(int),
    UInt(int),
    Float(u64),
    Str(Seq<char>),
}

impl View for Value {
    type V = CellView;

    open spec fn view(&self) -> CellView {
        match self {
            Value::Bool(b) => CellView::Bool(*b),
            Value::Int(i) => CellView::Int(*i as int),
            Value::UInt(u) => CellView::UInt(*u as int),
            Value::Float(f) => CellView::Float(*f),
            Value::Str(s) => CellView::Str(s@),
        }
    }
}

/// The view of a possibly-null cell.
pub open spec fn opt_view(o: Option<Value>) -> Option<CellView> {
    match o {
        Some(v) => Some(v@),
        None => None,
    }
}

/// The views of a sequence of possibly-null cells.
pub open spec fn cells_view(s: Seq<Option<Value>>) -> Seq<Option<CellView>> {
    s.map_values(|o: Option<Value>| opt_view(o))
}

/// The bit pattern that stands for every NaN.
pub const CANONICAL_NAN_BITS: u64 = 0x7ff8_0000_0000_0000u64;

/// The bit pattern of `-0.0`.
pub const NEGATIVE_ZERO_BITS: u64 = 0x8000_0000_0000_0000u64;

/// The bit pattern of `1.0`.
pub const ONE_BITS: u64 = 0x3ff0_0000_0000_0000u64;

/// The bit pattern of `0.0`.
pub const ZERO_BITS: u64 = 0u64;

/// Whether `b` encodes a NaN: all exponent bits set and a non-zero fraction.
pub open spec fn is_nan_bits(b: u64) -> bool {
    &&& (b / 0x10_0000_0000_0000u64) % 0x800 == 0x7ff
    &&& b % 0x10_0000_0000_0000u64 != 0
}

/// The canonical form of a float bit pattern: one NaN, one zero.
pub open spec fn canonical_float_bits(b: u64) -> u64 {
    if is_nan_bits(b) {
        CANONICAL_NAN_BITS
    } else if b == NEGATIVE_ZERO_BITS {
        ZERO_BITS
    } else {
        b
    }
}

/// Whether a cell may appear in a column of `dtype`.
pub open spec fn cell_fits(dtype: DType, cell: Option<CellView>) -> bool {
    match cell {
        None => true,
        Some(v) => match dtype {
            DType::Boolean => v is Bool,
            DType::Int8 | DType::Int16 | DType::Int32 | DType::Int64 | DType::Date
            | DType::Datetime(_) => v is Int,
            DType::UInt8 | DType::UInt16 | DType::UInt32 | DType::UInt64 => v is UInt,
            DType::Float32 | DType::Float64 => v is Float,
            DType::Utf8 | DType::Other => v is Str,
        },
    }
}

impl Value {
    /// A float cell from the bit pattern of an `f64` (`f64::to_bits`).
    pub fn from_f64_bits(bits: u64) -> (r: Value)
        ensures
            r == Value::Float(canonical_float_bits(bits)),
    {
        let exponent = (bits / 0x10_0000_0000_0000u64) % 0x800;
        let fraction = bits % 0x10_0000_0000_0000u64;
        if exponent == 0x7ff && fraction != 0 {
            Value::Float(CANONICAL_NAN_BITS)
        } else if bits == NEGATIVE_ZERO_BITS {
            Value::Float(ZERO_BITS)
        } else {
            Value::Float(bits)
        }
    }

    /// An independent copy of this cell.
    pub fn copy(&self) -> (r: Value)
        ensures
            r@ == self@,
    {
        match self {
            Value::Bool(b) => Value::Bool(*b),
            Value::Int(i) => Value::Int(*i),
            Value::UInt(u) => Value::UInt(*u),
            Value::Float(f) => Value::Float(*f),
            Value::Str(s) => Value::Str(s.clone()),
        }
    }

    /// Whether two cells hold the same value.
    pub fn same(&self, other: &Value) -> (r: bool)
        ensures
            r == (self@ == other@),
    {
        match (self, other) {
            (Value::Bool(x), Value::Bool(y)) => *x == *y,
            (Value::Int(x), Value::Int(y)) => *x == *y,
            (Value::UInt(x), Value::UInt(y)) => *x == *y,
            (Value::Float(x), Value::Float(y)) => *x == *y,
            (Value::Str(x), Value::Str(y)) => x.eq(y),
            _ => false,
        }
    }
}

/// Whether `v` may appear in a column of `dtype`.
pub fn value_fits(dtype: DType, v: &Value) -> (r: bool)
    ensures
        r == cell_fits(dtype, Some(v@)),
{
    match dtype {
        DType::Boolean => matches!(v, Value::Bool(_)),
        DType::Int8 | DType::Int16 | DType::Int32 | DType::Int64 | DType::Date
        | DType::Datetime(_) => matches!(v, Value::Int(_)),
        DType::UInt8 | DType::UInt16 | DType::UInt32 | DType::UInt64 => matches!(v, Value::UInt(_)),
        DType::Float32 | DType::Float64 => matches!(v, Value::Float(_)),
        DType::Utf8 | DType::Other => matches!(v, Value::Str(_)),
    }
}

/// Whether two possibly-null cells are equal (null equals only null).
pub fn same_cell(a: &Option<Value>, b: &Option<Value>) -> (r: bool)
    ensures
        r == (opt_view(*a) == opt_view(*b)),
{
    match (a, b) {
        (Some(x), Some(y)) => x.same(y),
        (None, None) => true,
        _ => false,
    }
}

/// An independent copy of a possibly-null cell.
pub fn copy_cell(a: &Option<Value>) -> (r: Option<Value>)
    ensures
        opt_view(r) == opt_view(*a),
{
    match a {
        Some(v) => Some(v.copy()),
        None => None,
    }
}

/// A named, typed column.
#[derive(Clone, Debug)]
pub struct Series {
    /// The column name.
    pub name: String,
    /// The column dtype.
    pub dtype: DType,
    /// The cells, `None` for null.
    pub values: Vec<Option<Value>>,
}

/// The mathematical content of a column.
pub ghost struct SeriesView {
    pub name: Seq<char>,
    pub dtype: DType,
    pub cells: Seq<Option<CellView>>,
}

impl View for Series {
    type V = SeriesView;

    open spec fn view(&self) -> SeriesView {
        SeriesView { name: self.name@, dtype: self.dtype, cells: cells_view(self.values@) }
    }
}

impl SeriesView {
    /// Every cell agrees with the dtype.
    pub open spec fn cells_fit(self) -> bool {
        forall|k: int| 0 <= k < self.cells.len() ==> cell_fits(self.dtype, #[trigger] self.cells[k])
    }
}

/// A copy of the cells of `v`.
pub fn copy_cells(v: &Vec<Option<Value>>) -> (r: Vec<Option<Value>>)
    ensures
        cells_view(r@) == cells_view(v@),
{
    let mut out: Vec<Option<Value>> = Vec::new();
    for i in 0..v.len()
        invariant
            out.len() == i,
            forall|k: int| 0 <= k < i ==> opt_view(#[trigger] out@[k]) == opt_view(v@[k]),
    {
        out.push(copy_cell(&v[i]));
    }
    assert(cells_view(out@) =~= cells_view(v@));
    out
}

impl Series {
    /// A new column.
    pub fn new(name: &str, dtype: DType, values: Vec<Option<Value>>) -> (r: Series)
        ensures
            r@ == (SeriesView { name: name@, dtype, cells: cells_view(values@) }),
    {
        Series { name: owned(name), dtype, values }
    }

    /// An independent copy of this column.
    pub fn copy(&self) -> (r: Series)
        ensures
            r@ == self@,
    {
        Series { name: self.name.clone(), dtype: self.dtype, values: copy_cells(&self.values) }
    }

    /// The number of cells.
    pub fn len(&self) -> (r: usize)
        ensures
            r == self@.cells.len(),
    {
        self.values.len()
    }

    /// Whether every cell agrees with the dtype.
    pub fn check_cells(&self) -> (r: bool)
        ensures
            r == self@.cells_fit(),
    {
        for k in 0..self.values.len()
            invariant
                forall|j: int| 0 <= j < k ==> cell_fits(self.dtype, #[trigger] self@.cells[j]),
        {
            let ok = match &self.values[k] {
                None => true,
                Some(v) => value_fits(self.dtype, v),
            };
            if !ok {
                assert(!cell_fits(self.dtype, self@.cells[k as int]));
                return false;
            }
        }
        true
    }
}

/// Why a frame operation failed.
#[derive(Clone, Debug)]
pub enum FrameError {
    /// A requested column does not exist.
    ColumnNotFound(String),
    /// A column name occurs twice.
    Duplicate(String),
    /// Column lengths disagree with the frame height.
    ShapeMismatch,
    /// A cell does not agree with its column's dtype.
    DtypeMismatch(String),
}

/// The mathematical content of a frame.
pub ghost struct FrameView {
    pub height: nat,
    pub columns: Seq<SeriesView>,
}

/// Whether the names of `cols` are pairwise distinct.
pub open spec fn distinct_names(cols: Seq<SeriesView>) -> bool {
    forall|i: int, j: int|
        0 <= i < cols.len() && 0 <= j < cols.len() && i != j ==> #[trigger] cols[i].name
            != #[trigger] cols[j].name
}

/// Whether every column of `cols` has `height` cells.
pub open spec fn all_of_height(cols: Seq<SeriesView>, height: nat) -> bool {
    forall|i: int| 0 <= i < cols.len() ==> (#[trigger] cols[i]).cells.len() == height
}

/// Whether every column of `cols` agrees with its dtype.
pub open spec fn all_fit(cols: Seq<SeriesView>) -> bool {
    forall|i: int| 0 <= i < cols.len() ==> (#[trigger] cols[i]).cells_fit()
}

/// The views of a list of columns.
pub open spec fn series_views(cols: Seq<Series>) -> Seq<SeriesView> {
    cols.map_values(|s: Series| s@)
}

/// The names of a list of column views.
pub open spec fn names_of(cols: Seq<SeriesView>) -> Seq<Seq<char>> {
    cols.map_values(|s: SeriesView| s.name)
}

/// The position of the column named `name`, if any.
pub open spec fn position_of(cols: Seq<SeriesView>, name: Seq<char>) -> Option<int> {
    if exists|i: int| 0 <= i < cols.len() && (#[trigger] cols[i]).name == name {
        Some(choose|i: int| 0 <= i < cols.len() && (#[trigger] cols[i]).name == name)
    } else {
        None
    }
}

/// The column found by name carries that name and sits at a valid position.
pub proof fn lemma_position_of(cols: Seq<SeriesView>, name: Seq<char>)
    ensures
        position_of(cols, name) is Some <==> has_name(cols, name),
        position_of(cols, name) matches Some(p) ==> 0 <= p < cols.len() && cols[p].name == name,
{
}

/// With distinct names, the position of a name is the only index carrying it.
pub proof fn lemma_position_unique(cols: Seq<SeriesView>, name: Seq<char>, i: int)
    requires
        distinct_names(cols),
        0 <= i < cols.len(),
        cols[i].name == name,
    ensures
        position_of(cols, name) == Some(i),
{
    lemma_position_of(cols, name);
    let p = position_of(cols, name)->0;
    if p != i {
        assert(cols[p].name != cols[i].name);
    }
}

/// Whether `cols` has a column named `name`.
pub open spec fn has_name(cols: Seq<SeriesView>, name: Seq<char>) -> bool {
    exists|i: int| 0 <= i < cols.len() && (#[trigger] cols[i]).name == name
}

impl FrameView {
    /// The frame invariant: equal lengths, distinct names, cells agree with dtypes.
    pub open spec fn wf(self) -> bool {
        &&& all_of_height(self.columns, self.height)
        &&& distinct_names(self.columns)
        &&& all_fit(self.columns)
    }

    /// The column names, in order.
    pub open spec fn names(self) -> Seq<Seq<char>> {
        names_of(self.columns)
    }

    /// Whether a column named `name` exists.
    pub open spec fn has(self, name: Seq<char>) -> bool {
        has_name(self.columns, name)
    }

    /// The column named `name` (meaningful when [`has`](Self::has) holds).
    pub open spec fn col(self, name: Seq<char>) -> SeriesView {
        self.columns[position_of(self.columns, name)->0]
    }
}

/// The frame that `with_column` produces: the column replaces the one with
/// the same name, in place, or is appended.
pub open spec fn with_column_spec(f: FrameView, s: SeriesView) -> FrameView {
    if f.has(s.name) {
        FrameView {
            height: f.height,
            columns: f.columns.update(position_of(f.columns, s.name)->0, s),
        }
    } else {
        FrameView {
            height: if f.columns.len() == 0 { s.cells.len() } else { f.height },
            columns: f.columns.push(s),
        }
    }
}

/// Whether `with_column` accepts `s` for `f`.
pub open spec fn with_column_ok(f: FrameView, s: SeriesView) -> bool {
    &&& (f.columns.len() == 0 || s.cells.len() == f.height)
    &&& s.cells_fit()
}

/// The frame that selects `names`, in that order.
pub open spec fn select_spec(f: FrameView, names: Seq<Seq<char>>) -> FrameView {
    FrameView { height: f.height, columns: names.map_values(|n: Seq<char>| f.col(n)) }
}

/// Whether every name of `names` is a column of `f`.
pub open spec fn all_present(f: FrameView, names: Seq<Seq<char>>) -> bool {
    forall|k: int| 0 <= k < names.len() ==> f.has(#[trigger] names[k])
}

/// Whether the names of `names` are pairwise distinct.
pub open spec fn distinct_seq(names: Seq<Seq<char>>) -> bool {
    forall|i: int, j: int|
        0 <= i < names.len() && 0 <= j < names.len() && i != j ==> #[trigger] names[i]
            != #[trigger] names[j]
}

/// The views of a list of strings.
pub open spec fn strings_view(v: Seq<String>) -> Seq<Seq<char>> {
    v.map_values(|s: String| s@)
}

/// A table of named, typed, equal-length columns.
#[derive(Debug)]
pub struct Frame {
    height: usize,
    columns: Vec<Series>,
}

impl View for Frame {
    type V = FrameView;

    closed spec fn view(&self) -> FrameView {
        FrameView { height: self.height as nat, columns: series_views(self.columns@) }
    }
}

/// Finds the position of `name` among `cols`.
fn find_position(cols: &Vec<Series>, name: &str) -> (r: Option<usize>)
    ensures
        match r {
            Some(i) => i < cols.len() && cols@[i as int]@.name == name@ && forall|j: int|
                0 <= j < i ==> (#[trigger] cols@[j])@.name != name@,
            None => forall|j: int| 0 <= j < cols.len() ==> (#[trigger] cols@[j])@.name != name@,
        },
{
    for i in 0..cols.len()
        invariant
            forall|j: int| 0 <= j < i ==> (#[trigger] cols@[j])@.name != name@,
    {
        if str_eq(cols[i].name.as_str(), name) {
            return Some(i);
        }
    }
    None
}

/// Whether the names of `cols` are pairwise distinct; else the first repeated name.
fn first_duplicate(cols: &Vec<Series>) -> (r: Option<usize>)
    ensures
        r is None <==> distinct_names(series_views(cols@)),
        r matches Some(i) ==> i < cols.len(),
{
    let ghost views = series_views(cols@);
    for i in 0..cols.len()
        invariant
            views == series_views(cols@),
            forall|a: int, b: int|
                0 <= a < i && 0 <= b < i && a != b ==> #[trigger] views[a].name
                    != #[trigger] views[b].name,
    {
        for j in 0..i
            invariant
                views == series_views(cols@),
                i < cols.len(),
                forall|a: int, b: int|
                    0 <= a < i && 0 <= b < i && a != b ==> #[trigger] views[a].name
                        != #[trigger] views[b].name,
                forall|b: int| 0 <= b < j ==> views[b].name != views[i as int].name,
        {
            if str_eq(cols[j].name.as_str(), cols[i].name.as_str()) {
                assert(views[j as int].name == views[i as int].name);
                return Some(i);
            }
        }
    }
    None
}

impl Frame {
    #[verifier::type_invariant]
    spec fn inv(&self) -> bool {
        self@.wf()
    }

    /// A frame of `height` rows holding `columns`.
    ///
    /// Fails with `ShapeMismatch` when a column length differs from `height`,
    /// then with `DtypeMismatch` when a cell disagrees with its dtype, then with
    /// `Duplicate` when two columns share a name.
    pub fn new(height: usize, columns: Vec<Series>) -> (r: Result<Frame, FrameError>)
        ensures
            ({
                let v = FrameView { height: height as nat, columns: series_views(columns@) };
                match r {
                    Ok(f) => f@ == v && v.wf(),
                    Err(FrameError::ShapeMismatch) => !all_of_height(v.columns, v.height),
                    Err(FrameError::DtypeMismatch(_)) => all_of_height(v.columns, v.height)
                        && !all_fit(v.columns),
                    Err(FrameError::Duplicate(_)) => all_of_height(v.columns, v.height)
                        && all_fit(v.columns) && !distinct_names(v.columns),
                    Err(_) => false,
                }
            }),
    {
        let ghost views = series_views(columns@);
        for i in 0..columns.len()
            invariant
                views == series_views(columns@),
                forall|j: int| 0 <= j < i ==> (#[trigger] views[j]).cells.len() == height,
        {
            if columns[i].len() != height {
                assert(views[i as int].cells.len() != height);
                return Err(FrameError::ShapeMismatch);
            }
        }
        for i in 0..columns.len()
            invariant
                views == series_views(columns@),
                all_of_height(views, height as nat),
                forall|j: int| 0 <= j < i ==> (#[trigger] views[j]).cells_fit(),
        {
            if !columns[i].check_cells() {
                assert(!views[i as int].cells_fit());
                return Err(FrameError::DtypeMismatch(columns[i].name.clone()));
            }
        }
        match first_duplicate(&columns) {
            Some(i) => Err(FrameError::Duplicate(columns[i].name.clone())),
            None => Ok(Frame { height, columns }),
        }
    }

    /// A frame with no rows and no columns.
    pub fn empty() -> (r: Frame)
        ensures
            r@.height == 0,
            r@.columns.len() == 0,
    {
        let f = Frame { height: 0, columns: Vec::new() };
        assert(f@.columns =~= Seq::<SeriesView>::empty());
        f
    }

    /// The number of rows.
    pub fn height(&self) -> (r: usize)
        ensures
            r == self@.height,
            self@.wf(),
    {
        proof {
            use_type_invariant(self);
        }
        self.height
    }

    /// The number of columns.
    pub fn width(&self) -> (r: usize)
        ensures
            r == self@.columns.len(),
            self@.wf(),
    {
        proof {
            use_type_invariant(self);
        }
        self.columns.len()
    }

    /// The columns, in order.
    pub fn columns(&self) -> (r: &Vec<Series>)
        ensures
            series_views(r@) == self@.columns,
            r.len() == self@.columns.len(),
            forall|i: int| 0 <= i < r.len() ==> (#[trigger] r@[i])@ == self@.columns[i],
            self@.wf(),
    {
        proof {
            use_type_invariant(self);
        }
        &self.columns
    }

    /// The position of the column named `name`, if any.
    pub fn column_index(&self, name: &str) -> (r: Option<usize>)
        ensures
            r is Some <==> self@.has(name@),
            r matches Some(i) ==> i < self@.columns.len() && self@.columns[i as int].name
                == name@ && self@.col(name@) == self@.columns[i as int],
            self@.wf(),
    {
        proof {
            use_type_invariant(self);
        }
        let r = find_position(&self.columns, name);
        proof {
            let cols = self@.columns;
            match r {
                Some(i) => {
                    assert(cols[i as int].name == name@);
                    let c = choose|k: int| 0 <= k < cols.len() && (#[trigger] cols[k]).name == name@;
                    assert(c == i as int);
                },
                None => {
                    assert(!has_name(cols, name@));
                },
            }
        }
        r
    }

    /// The column named `name`, if any.
    pub fn column(&self, name: &str) -> (r: Option<&Series>)
        ensures
            r is Some <==> self@.has(name@),
            r matches Some(s) ==> s@ == self@.col(name@),
            self@.wf(),
    {
        match self.column_index(name) {
            Some(i) => Some(&self.columns[i]),
            None => None,
        }
    }

    /// The column names, in order.
    pub fn get_column_names(&self) -> (r: Vec<String>)
        ensures
            strings_view(r@) == self@.names(),
            self@.wf(),
    {
        proof {
            use_type_invariant(self);
        }
        let mut out: Vec<String> = Vec::new();
        for i in 0..self.columns.len()
            invariant
                out.len() == i,
                forall|k: int| 0 <= k < i ==> (#[trigger] out@[k])@ == self.columns@[k]@.name,
        {
            out.push(self.columns[i].name.clone());
        }
        assert(strings_view(out@) =~= self@.names());
        out
    }

    /// Copies of the columns, in order.
    pub fn copy_columns(&self) -> (r: Vec<Series>)
        ensures
            series_views(r@) == self@.columns,
            self@.wf(),
    {
        proof {
            use_type_invariant(self);
        }
        let mut out: Vec<Series> = Vec::new();
        for k in 0..self.columns.len()
            invariant
                out.len() == k,
                forall|j: int| 0 <= j < k ==> (#[trigger] out@[j])@ == self.columns@[j]@,
        {
            out.push(self.columns[k].copy());
        }
        assert(series_views(out@) =~= self@.columns);
        out
    }

    /// An independent copy of this frame.
    pub fn copy(&self) -> (r: Frame)
        ensures
            r@ == self@,
    {
        proof {
            use_type_invariant(self);
        }
        let mut cols: Vec<Series> = Vec::new();
        for i in 0..self.columns.len()
            invariant
                cols.len() == i,
                forall|k: int| 0 <= k < i ==> (#[trigger] cols@[k])@ == self.columns@[k]@,
        {
            cols.push(self.columns[i].copy());
        }
        assert(series_views(cols@) =~= self@.columns);
        Frame { height: self.height, columns: cols }
    }

    /// The frame holding the columns `names`, in that order.
    ///
    /// Fails with `Duplicate` when `names` repeats a name, else with
    /// `ColumnNotFound` when a name is not a column.
    pub fn select(&self, names: &Vec<String>) -> (r: Result<Frame, FrameError>)
        ensures
            ({
                let ns = strings_view(names@);
                match r {
                    Ok(f) => distinct_seq(ns) && all_present(self@, ns) && f@ == select_spec(
                        self@,
                        ns,
                    ),
                    Err(FrameError::Duplicate(_)) => !distinct_seq(ns),
                    Err(FrameError::ColumnNotFound(_)) => distinct_seq(ns) && !all_present(
                        self@,
                        ns,
                    ),
                    Err(_) => false,
                }
            }),
            self@.wf(),
    {
        proof {
            use_type_invariant(self);
        }
        let ghost ns = strings_view(names@);
        for i in 0..names.len()
            invariant
                ns == strings_view(names@),
                self@.wf(),
                forall|a: int, b: int|
                    0 <= a < i && 0 <= b < i && a != b ==> #[trigger] ns[a] != #[trigger] ns[b],
        {
            for j in 0..i
                invariant
                    ns == strings_view(names@),
                    self@.wf(),
                    i < names.len(),
                    forall|a: int, b: int|
                        0 <= a < i && 0 <= b < i && a != b ==> #[trigger] ns[a] != #[trigger] ns[b],
                    forall|b: int| 0 <= b < j ==> ns[b] != ns[i as int],
            {
                if names[j].eq(&names[i]) {
                    assert(ns[j as int] == ns[i as int]);
                    return Err(FrameError::Duplicate(names[i].clone()));
                }
            }
        }
        let mut cols: Vec<Series> = Vec::new();
        for i in 0..names.len()
            invariant
                ns == strings_view(names@),
                distinct_seq(ns),
                self@.wf(),
                cols.len() == i,
                forall|k: int| 0 <= k < i ==> self@.has(#[trigger] ns[k]),
                forall|k: int| 0 <= k < i ==> (#[trigger] cols@[k])@ == self@.col(ns[k]),
        {
            match self.column(names[i].as_str()) {
                Some(s) => {
                    cols.push(s.copy());
                },
                None => {
                    assert(!self@.has(ns[i as int]));
                    return Err(FrameError::ColumnNotFound(names[i].clone()));
                },
            }
        }
        proof {
            let sv = select_spec(self@, ns);
            assert(series_views(cols@) =~= sv.columns);
            assert forall|k: int| 0 <= k < sv.columns.len() implies sv.columns[k].name == ns[k]
                && sv.columns[k].cells.len() == self@.height && sv.columns[k].cells_fit() by {
                lemma_position_of(self@.columns, ns[k]);
            }
            assert forall|a: int, b: int|
                0 <= a < sv.columns.len() && 0 <= b < sv.columns.len() && a != b implies #[trigger] sv.columns[a].name
                    != #[trigger] sv.columns[b].name by {
                assert(sv.columns[a].name == ns[a]);
                assert(sv.columns[b].name == ns[b]);
            }
        }
        Ok(Frame { height: self.height, columns: cols })
    }

    /// Adds `s` as a column, replacing the column of the same name in place.
    ///
    /// Fails with `ShapeMismatch` when the frame has columns and `s` has a
    /// different length, and with `DtypeMismatch` when a cell of `s` disagrees
    /// with its dtype; the frame is then unchanged.
    pub fn with_column(&mut self, s: Series) -> (r: Result<(), FrameError>)
        ensures
            r is Ok <==> with_column_ok(old(self)@, s@),
            r is Ok ==> final(self)@ == with_column_spec(old(self)@, s@),
            r is Err ==> final(self)@ == old(self)@,
            r matches Err(e) ==> (e is ShapeMismatch || e is DtypeMismatch),
    {
        proof {
            use_type_invariant(&*self);
        }
        if self.columns.len() != 0 && s.len() != self.height {
            return Err(FrameError::ShapeMismatch);
        }
        if !s.check_cells() {
            return Err(FrameError::DtypeMismatch(s.name.clone()));
        }
        let ghost before = self@;
        match find_position(&self.columns, s.name.as_str()) {
            Some(i) => {
                proof {
                    assert(before.columns[i as int].name == s@.name);
                    lemma_position_unique(before.columns, s@.name, i as int);
                }
                let mut cols = Vec::new();
                std::mem::swap(&mut cols, &mut self.columns);
                cols.set(i, s);
                proof {
                    assert(series_views(cols@) =~= before.columns.update(i as int, s@));
                    let nv = before.columns.update(i as int, s@);
                    assert forall|a: int, b: int|
                        0 <= a < nv.len() && 0 <= b < nv.len() && a != b implies #[trigger] nv[a].name
                            != #[trigger] nv[b].name by {
                        if a != i && b != i {
                            assert(before.columns[a].name != before.columns[b].name);
                        } else if a == i {
                            assert(before.columns[b].name != before.columns[i as int].name);
                        } else {
                            assert(before.columns[a].name != before.columns[i as int].name);
                        }
                    }
                }
                *self = Frame { height: self.height, columns: cols };
            },
            None => {
                let mut cols = Vec::new();
                std::mem::swap(&mut cols, &mut self.columns);
                let h = if cols.len() == 0 { s.len() } else { self.height };
                cols.push(s);
                proof {
                    assert(series_views(cols@) =~= before.columns.push(s@));
                    assert(!has_name(before.columns, s@.name));
                }
                *self = Frame { height: h, columns: cols };
            },
        }
        Ok(())
    }
}

} // verus!

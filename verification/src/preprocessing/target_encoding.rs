//! Applying a learned target encoding to `String` columns.
//!
//! A target encoder learns, per `String` column, a smoothed mean of the
//! target for each category, and the global mean of the target (floating-
//! point arithmetic, done outside this crate's verified core). Applying the
//! encoding is this module's part: each encoded column is replaced, in place,
//! by a `Float64` column holding the encoding of each category, the global
//! mean for a category not seen at fit time, and null for a null. Floats are
//! handled as their IEEE-754 bit patterns.
//!
//! Fitting starts here too: [`target_groups`] checks the inputs and gathers,
//! per encodable column, the usable targets of each category, which the
//! means are then computed from.

use vstd::prelude::*;
use crate::frame::{CellView, DType, Frame, FrameView, Series, SeriesView, Value, canonical_float_bits, opt_view, series_views};
use crate::preprocessing::max_abs_scaler::{finite_cell, float_of};
use crate::preprocessing::sorted_values::finite_bits;
use crate::text::{owned, push_str, str_eq};
use crate::traits::Error;

verus! {

/// The encoding of `s` in `mapping` (the first entry for it), if any.
pub open spec fn lookup(mapping: Seq<(Seq<char>, u64)>, s: Seq<char>) -> Option<u64>
    decreases mapping.len(),
{
    if mapping.len() == 0 {
        None
    } else if mapping[0].0 == s {
        Some(mapping[0].1)
    } else {
        lookup(mapping.drop_first(), s)
    }
}

/// The encoded cell: a category's encoding, else the global mean; null stays null.
pub open spec fn encoded_cell(o: Option<CellView>, mapping: Seq<(Seq<char>, u64)>, global: u64) -> Option<CellView> {
    match o {
        Some(CellView::Str(s)) => Some(CellView::Float(canonical_float_bits(
            match lookup(mapping, s) {
                Some(b) => b,
                None => global,
            },
        ))),
        _ => None,
    }
}

/// The encoded column: same name, `Float64`, each cell encoded.
pub open spec fn encoded_series(c: SeriesView, mapping: Seq<(Seq<char>, u64)>, global: u64) -> SeriesView {
    SeriesView {
        name: c.name,
        dtype: DType::Float64,
        cells: c.cells.map_values(|o: Option<CellView>| encoded_cell(o, mapping, global)),
    }
}

/// The view of one column's mapping.
pub open spec fn mapping_view(m: Seq<(String, u64)>) -> Seq<(Seq<char>, u64)> {
    m.map_values(|p: (String, u64)| (p.0@, p.1))
}

/// The view of the encodings, one (column, mapping) pair per column.
pub open spec fn encodings_view(v: Seq<(String, Vec<(String, u64)>)>) -> Seq<(Seq<char>, Seq<(Seq<char>, u64)>)> {
    v.map_values(|p: (String, Vec<(String, u64)>)| (p.0@, mapping_view(p.1@)))
}

/// The columns after encoding by each (column, mapping) pair in turn.
pub open spec fn encoded(
    cols: Seq<SeriesView>,
    encs: Seq<(Seq<char>, Seq<(Seq<char>, u64)>)>,
    global: u64,
) -> Seq<SeriesView>
    decreases encs.len(),
{
    if encs.len() == 0 {
        cols
    } else {
        let (name, mapping) = encs.last();
        encoded(cols, encs.drop_last(), global).map_values(
            |c: SeriesView| if c.name == name { encoded_series(c, mapping, global) } else { c },
        )
    }
}

/// Whether each encoded column is a `String` column of `x`, and names no
/// column twice.
pub open spec fn encodings_ok(x: FrameView, encs: Seq<(Seq<char>, Seq<(Seq<char>, u64)>)>) -> bool {
    &&& forall|k: int| 0 <= k < encs.len() ==> x.has(#[trigger] encs[k].0) && x.col(encs[k].0).dtype == DType::Utf8
    &&& forall|a: int, b: int| 0 <= a < b < encs.len() ==> #[trigger] encs[a].0 != #[trigger] encs[b].0
}

/// The encoding of `s`, by the same rule as [`lookup`].
fn find_encoding(mapping: &Vec<(String, u64)>, s: &String) -> (r: Option<u64>)
    ensures
        r == lookup(mapping_view(mapping@), s@),
{
    let ghost mv = mapping_view(mapping@);
    let mut k: usize = 0;
    assert(mv.skip(0) =~= mv);
    while k < mapping.len()
        invariant
            mv == mapping_view(mapping@),
            k <= mapping.len(),
            lookup(mv.skip(k as int), s@) == lookup(mv, s@),
        decreases mapping.len() - k,
    {
        proof {
            assert(mv.skip(k as int).drop_first() =~= mv.skip(k + 1));
            assert(mv.skip(k as int)[0] == mv[k as int]);
        }
        if str_eq(mapping[k].0.as_str(), s.as_str()) {
            return Some(mapping[k].1);
        }
        k = k + 1;
    }
    proof {
        assert(mv.skip(k as int).len() == 0);
    }
    None
}

/// The column encoded by `mapping`, unseen categories taking `global`.
fn encode_series(c: &Series, mapping: &Vec<(String, u64)>, global: u64) -> (r: Series)
    requires
        c@.dtype == DType::Utf8,
        c@.cells_fit(),
    ensures
        r@ == encoded_series(c@, mapping_view(mapping@), global),
        r@.cells_fit(),
{
    let ghost mv = mapping_view(mapping@);
    let mut cells: Vec<Option<Value>> = Vec::new();
    for i in 0..c.values.len()
        invariant
            c@.dtype == DType::Utf8,
            c@.cells_fit(),
            mv == mapping_view(mapping@),
            cells.len() == i,
            forall|k: int| 0 <= k < i ==> opt_view(#[trigger] cells@[k]) == encoded_cell(c@.cells[k], mv, global),
            forall|k: int| 0 <= k < i ==> crate::frame::cell_fits(DType::Float64, opt_view(#[trigger] cells@[k])),
    {
        proof {
            assert(crate::frame::cell_fits(DType::Utf8, c@.cells[i as int]));
            assert(c@.cells[i as int] == opt_view(c.values@[i as int]));
        }
        let v = match &c.values[i] {
            Some(Value::Str(s)) => {
                let bits = match find_encoding(mapping, s) {
                    Some(b) => b,
                    None => global,
                };
                Some(Value::from_f64_bits(bits))
            },
            _ => None,
        };
        cells.push(v);
    }
    let r = Series { name: c.name.clone(), dtype: DType::Float64, values: cells };
    assert(r@.cells =~= encoded_series(c@, mv, global).cells);
    r
}

/// Replace each encoded `String` column of `x`, in place, by its `Float64`
/// encoding: a category's encoding from its mapping, `global` for a category
/// the mapping lacks, null for null.
///
/// Fails with `InvalidInput` when an encoded column is missing or not a
/// `String` column, or is named twice.
pub fn apply_target_encoding(x: Frame, encodings: &Vec<(String, Vec<(String, u64)>)>, global: u64) -> (r: Result<
    Frame,
    Error,
>)
    ensures
        r is Ok <==> encodings_ok(x@, encodings_view(encodings@)),
        r matches Err(e) ==> e is InvalidInput,
        r matches Ok(f) ==> f@ == (FrameView {
            height: x@.height,
            columns: encoded(x@.columns, encodings_view(encodings@), global),
        }),
{
    let ghost ev = encodings_view(encodings@);
    for k in 0..encodings.len()
        invariant
            ev == encodings_view(encodings@),
            forall|j: int| 0 <= j < k ==> x@.has(#[trigger] ev[j].0) && x@.col(ev[j].0).dtype == DType::Utf8,
            forall|a: int, b: int| 0 <= a < b < k ==> #[trigger] ev[a].0 != #[trigger] ev[b].0,
    {
        let found = x.column(encodings[k].0.as_str());
        assert(ev[k as int].0 == encodings@[k as int].0@);
        let ok = match found {
            Some(c) => c.dtype == DType::Utf8,
            None => false,
        };
        if !ok {
            let mut msg = owned("TargetEncoder.transform: column '");
            push_str(&mut msg, encodings[k].0.as_str());
            push_str(&mut msg, "' not found or not a String column.");
            return Err(Error::InvalidInput(msg));
        }
        for j in 0..k
            invariant
                ev == encodings_view(encodings@),
                k < encodings.len(),
                forall|a: int| 0 <= a < j ==> ev[a].0 != ev[k as int].0,
        {
            assert(ev[j as int].0 == encodings@[j as int].0@);
            assert(ev[k as int].0 == encodings@[k as int].0@);
            if str_eq(encodings[j].0.as_str(), encodings[k].0.as_str()) {
                let mut msg = owned("TargetEncoder.transform: column '");
                push_str(&mut msg, encodings[k].0.as_str());
                push_str(&mut msg, "' is encoded twice.");
                return Err(Error::InvalidInput(msg));
            }
        }
    }
    let ghost xv = x@;
    let mut out = x.copy_columns();
    proof {
        assert(ev.take(0) =~= Seq::<(Seq<char>, Seq<(Seq<char>, u64)>)>::empty());
        assert forall|m: int| 0 <= m < out.len() implies (#[trigger] out@[m])@.cells_fit() && out@[m]@.cells.len() == xv.height by {
            assert(series_views(out@)[m] == out@[m]@);
            assert(xv.columns[m].cells_fit());
        }
        assert(crate::frame::names_of(series_views(out@)) =~= xv.names());
    }
    for k in 0..encodings.len()
        invariant
            ev == encodings_view(encodings@),
            xv == x@,
            xv.wf(),
            encodings_ok(xv, ev),
            series_views(out@) == encoded(xv.columns, ev.take(k as int), global),
            crate::frame::names_of(series_views(out@)) == xv.names(),
            forall|m: int| 0 <= m < out.len() ==> (#[trigger] out@[m])@.cells_fit() && out@[m]@.cells.len() == xv.height,
            forall|m: int| 0 <= m < out.len() ==> (forall|a: int| 0 <= a < k ==> ev[a].0 != (#[trigger] out@[m])@.name)
                ==> out@[m]@ == xv.columns[m],
    {
        let ghost before = series_views(out@);
        proof {
            assert(crate::frame::names_of(before).len() == before.len());
            assert(before.len() == out.len());
            assert(out.len() == xv.columns.len());
            assert(ev.take(k + 1).drop_last() =~= ev.take(k as int));
            assert(ev.take(k + 1).last() == ev[k as int]);
            assert(xv.has(ev[k as int].0));
        }
        let mut pos: Option<usize> = None;
        for j in 0..out.len()
            invariant
                pos matches Some(p) ==> p < out.len() && out@[p as int]@.name == encodings@[k as int].0@,
                pos is None ==> forall|m: int| 0 <= m < j ==> out@[m]@.name != encodings@[k as int].0@,
                k < encodings.len(),
        {
            if pos.is_none() && str_eq(out[j].name.as_str(), encodings[k].0.as_str()) {
                pos = Some(j);
            }
        }
        let ghost name = ev[k as int].0;
        proof {
            assert(name == encodings@[k as int].0@);
        }
        match pos {
            Some(p) => {
                proof {
                    assert(before[p as int] == out@[p as int]@);
                    assert(xv.columns[p as int].name == before[p as int].name) by {
                        assert(crate::frame::names_of(before)[p as int] == xv.names()[p as int]);
                    }
                    crate::frame::lemma_position_unique(xv.columns, name, p as int);
                    assert forall|a: int| 0 <= a < k implies ev[a].0 != out@[p as int]@.name by {
                        assert(ev[a].0 != ev[k as int].0);
                    }
                    assert(out@[p as int]@ == xv.columns[p as int]);
                }
                let col = encode_series(&out[p], &encodings[k].1, global);
                out.set(p, col);
                proof {
                    let after = encoded(xv.columns, ev.take(k + 1), global);
                    assert forall|m: int| 0 <= m < before.len() implies #[trigger] series_views(out@)[m] == after[m] by {
                        if m != p {
                            assert(before[m] == out@[m]@);
                            assert(before[m].name != name) by {
                                assert(crate::frame::names_of(before)[m] == xv.names()[m]);
                                assert(xv.columns[m].name != xv.columns[p as int].name);
                            }
                        }
                    }
                    assert(series_views(out@) =~= after);
                    assert(crate::frame::names_of(series_views(out@)) =~= crate::frame::names_of(before));
                    assert forall|m: int| 0 <= m < out.len() && (forall|a: int| 0 <= a < k + 1 ==> ev[a].0 != (#[trigger] out@[m])@.name)
                        implies out@[m]@ == xv.columns[m] by {
                        assert(ev[k as int].0 != out@[m]@.name);
                        if m == p {
                            assert(out@[m]@.name == name);
                        } else {
                            assert(before[m] == out@[m]@);
                        }
                    }
                }
            },
            None => {
                proof {
                    let m = choose|m: int| 0 <= m < xv.columns.len() && (#[trigger] xv.columns[m]).name == name;
                    assert(crate::frame::names_of(before)[m] == xv.names()[m]);
                    assert(before[m] == out@[m]@);
                    assert(false);
                }
            },
        }
    }
    proof {
        assert(ev.take(encodings.len() as int) =~= ev);
        let target = series_views(out@);
        assert forall|a: int, b: int| 0 <= a < target.len() && 0 <= b < target.len() && a != b
            implies #[trigger] target[a].name != #[trigger] target[b].name by {
            assert(crate::frame::names_of(target)[a] == xv.names()[a]);
            assert(crate::frame::names_of(target)[b] == xv.names()[b]);
            assert(xv.columns[a].name != xv.columns[b].name);
        }
        assert forall|a: int| 0 <= a < target.len() implies (#[trigger] target[a]).cells.len() == xv.height by {
            assert(out@[a]@.cells.len() == xv.height);
        }
        assert forall|a: int| 0 <= a < target.len() implies (#[trigger] target[a]).cells_fit() by {
            assert(out@[a]@.cells_fit());
        }
    }
    match Frame::new(x.height(), out) {
        Ok(f) => Ok(f),
        Err(_) => Err(Error::Computation(owned("TargetEncoder: could not rebuild the frame."))),
    }
}


/// The category of a `String` cell beside a usable (finite) target.
pub open spec fn usable_category(cat: Option<CellView>, y: Option<CellView>) -> Option<Seq<char>> {
    match cat {
        Some(CellView::Str(s)) => if finite_cell(y) { Some(s) } else { None },
        _ => None,
    }
}

/// The categories of the first `n` rows that stand beside a usable target,
/// each once, in the order first seen.
pub open spec fn seen_categories(cats: Seq<Option<CellView>>, ys: Seq<Option<CellView>>, n: nat) -> Seq<Seq<char>>
    decreases n,
{
    if n == 0 {
        Seq::empty()
    } else {
        let prev = seen_categories(cats, ys, (n - 1) as nat);
        match usable_category(cats[n - 1], ys[n - 1]) {
            Some(s) => if prev.contains(s) { prev } else { prev.push(s) },
            None => prev,
        }
    }
}

/// The usable targets of the first `n` rows whose category is `c`, in row order.
pub open spec fn category_targets(cats: Seq<Option<CellView>>, ys: Seq<Option<CellView>>, n: nat, c: Seq<char>) -> Seq<u64>
    decreases n,
{
    if n == 0 {
        Seq::empty()
    } else {
        let prev = category_targets(cats, ys, (n - 1) as nat, c);
        if usable_category(cats[n - 1], ys[n - 1]) == Some(c) {
            prev.push(float_of(ys[n - 1]))
        } else {
            prev
        }
    }
}

/// The groups of one column: each seen category with its usable targets.
pub open spec fn column_groups(cats: Seq<Option<CellView>>, ys: Seq<Option<CellView>>) -> Seq<(Seq<char>, Seq<u64>)> {
    seen_categories(cats, ys, cats.len()).map_values(
        |s: Seq<char>| (s, category_targets(cats, ys, cats.len(), s)),
    )
}

/// The encodable columns: each `String` column with a seen category, in
/// order, with its groups.
pub open spec fn encodable_groups(cols: Seq<SeriesView>, ys: Seq<Option<CellView>>) -> Seq<(Seq<char>, Seq<(Seq<char>, Seq<u64>)>)>
    decreases cols.len(),
{
    if cols.len() == 0 {
        Seq::empty()
    } else {
        let prev = encodable_groups(cols.drop_last(), ys);
        let c = cols.last();
        if c.dtype == DType::Utf8 && seen_categories(c.cells, ys, c.cells.len()).len() > 0 {
            prev.push((c.name, column_groups(c.cells, ys)))
        } else {
            prev
        }
    }
}

/// The view of the groups of one column.
pub open spec fn group_view(g: Seq<(String, Vec<u64>)>) -> Seq<(Seq<char>, Seq<u64>)> {
    g.map_values(|p: (String, Vec<u64>)| (p.0@, p.1@))
}

/// The view of the groups of every encodable column.
pub open spec fn groups_view(v: Seq<(String, Vec<(String, Vec<u64>)>)>) -> Seq<(Seq<char>, Seq<(Seq<char>, Seq<u64>)>)> {
    v.map_values(|p: (String, Vec<(String, Vec<u64>)>)| (p.0@, group_view(p.1@)))
}

/// The target column of `y` (meaningful when it has one).
pub open spec fn target_cells(y: FrameView) -> Seq<Option<CellView>> {
    y.columns[0].cells
}

/// A category is seen only once.
proof fn lemma_seen_distinct(cats: Seq<Option<CellView>>, ys: Seq<Option<CellView>>, n: nat)
    ensures
        seen_categories(cats, ys, n).no_duplicates(),
    decreases n,
{
    if n > 0 {
        lemma_seen_distinct(cats, ys, (n - 1) as nat);
    }
}

/// A category never seen has no targets.
proof fn lemma_unseen_empty(cats: Seq<Option<CellView>>, ys: Seq<Option<CellView>>, n: nat, c: Seq<char>)
    requires
        !seen_categories(cats, ys, n).contains(c),
    ensures
        category_targets(cats, ys, n, c).len() == 0,
    decreases n,
{
    if n > 0 {
        let prev = seen_categories(cats, ys, (n - 1) as nat);
        if prev.contains(c) {
            let k = choose|k: int| 0 <= k < prev.len() && prev[k] == c;
            assert(seen_categories(cats, ys, n).contains(c)) by {
                match usable_category(cats[n - 1], ys[n - 1]) {
                    Some(s) => {
                        if !prev.contains(s) {
                            assert(prev.push(s)[k] == c);
                        }
                    },
                    None => {},
                }
            }
        }
        lemma_unseen_empty(cats, ys, (n - 1) as nat, c);
        if usable_category(cats[n - 1], ys[n - 1]) == Some(c) {
            assert(seen_categories(cats, ys, n).contains(c)) by {
                if !prev.contains(c) {
                    assert(prev.push(c)[prev.len() as int] == c);
                }
            }
        }
    }
}

/// Each category seen in the first `n` rows has a target among them.
proof fn lemma_seen_has_targets(cats: Seq<Option<CellView>>, ys: Seq<Option<CellView>>, n: nat, k: int)
    requires
        0 <= k < seen_categories(cats, ys, n).len(),
    ensures
        category_targets(cats, ys, n, seen_categories(cats, ys, n)[k]).len() > 0,
    decreases n,
{
    let prev = seen_categories(cats, ys, (n - 1) as nat);
    let c = seen_categories(cats, ys, n)[k];
    if k < prev.len() {
        assert(prev[k] == c);
        lemma_seen_has_targets(cats, ys, (n - 1) as nat, k);
    }
}

/// Every category of a column's groups has at least one usable target, so a
/// smoothed mean over it never divides by a zero count.
pub proof fn law_groups_nonempty(cats: Seq<Option<CellView>>, ys: Seq<Option<CellView>>, k: int)
    requires
        0 <= k < column_groups(cats, ys).len(),
    ensures
        column_groups(cats, ys)[k].1.len() > 0,
{
    lemma_seen_has_targets(cats, ys, cats.len(), k);
}

/// The position of `s` among `names`, if it is there.
fn find_name(names: &Vec<String>, s: &String) -> (r: Option<usize>)
    ensures
        r matches Some(j) ==> j < names.len() && names@[j as int]@ == s@,
        r is None ==> forall|k: int| 0 <= k < names.len() ==> (#[trigger] names@[k])@ != s@,
{
    for j in 0..names.len()
        invariant
            forall|k: int| 0 <= k < j ==> (#[trigger] names@[k])@ != s@,
    {
        if str_eq(names[j].as_str(), s.as_str()) {
            return Some(j);
        }
    }
    None
}

/// The groups of the column `c` against the targets `ys`.
fn group_column(c: &Series, ys: &Series) -> (r: Vec<(String, Vec<u64>)>)
    requires
        ys.values.len() == c.values.len(),
    ensures
        group_view(r@) == column_groups(c@.cells, ys@.cells),
{
    let ghost cats = c@.cells;
    let ghost yc = ys@.cells;
    let mut names: Vec<String> = Vec::new();
    let mut vals: Vec<Vec<u64>> = Vec::new();
    for i in 0..c.values.len()
        invariant
            cats == c@.cells,
            yc == ys@.cells,
            cats.len() == c.values.len(),
            yc.len() == c.values.len(),
            names.len() == vals.len(),
            names.len() == seen_categories(cats, yc, i as nat).len(),
            forall|k: int| 0 <= k < names.len() ==> (#[trigger] names@[k])@ == seen_categories(cats, yc, i as nat)[k],
            forall|k: int| 0 <= k < vals.len() ==> (#[trigger] vals@[k])@ == category_targets(cats, yc, i as nat, seen_categories(cats, yc, i as nat)[k]),
    {
        let ghost prev = seen_categories(cats, yc, i as nat);
        proof {
            lemma_seen_distinct(cats, yc, i as nat);
            assert(cats[i as int] == opt_view(c.values@[i as int]));
            assert(yc[i as int] == opt_view(ys.values@[i as int]));
        }
        let bits: Option<u64> = match &ys.values[i] {
            Some(Value::Float(v)) => if (*v / 0x10_0000_0000_0000u64) % 0x800 != 0x7ff { Some(*v) } else { None },
            _ => None,
        };
        match &c.values[i] {
            Some(Value::Str(s)) => {
                match bits {
                    Some(v) => {
                        assert(usable_category(cats[i as int], yc[i as int]) == Some(s@));
                        match find_name(&names, s) {
                            Some(j) => {
                                assert(prev[j as int] == s@);
                                assert(prev.contains(s@));
                                let mut inner = vals.remove(j);
                                inner.push(v);
                                vals.insert(j, inner);
                                proof {
                                    assert forall|k: int| 0 <= k < vals.len() implies (#[trigger] vals@[k])@ == category_targets(cats, yc, (i + 1) as nat, seen_categories(cats, yc, (i + 1) as nat)[k]) by {
                                        if k != j {
                                            assert(prev[k] != prev[j as int]);
                                        }
                                    }
                                }
                            },
                            None => {
                                assert forall|k: int| 0 <= k < prev.len() implies prev[k] != s@ by {
                                    assert(names@[k]@ == prev[k]);
                                }
                                assert(!prev.contains(s@));
                                proof {
                                    lemma_unseen_empty(cats, yc, i as nat, s@);
                                }
                                names.push(s.clone());
                                let mut inner: Vec<u64> = Vec::new();
                                inner.push(v);
                                vals.push(inner);
                                proof {
                                    assert forall|k: int| 0 <= k < vals.len() implies (#[trigger] vals@[k])@ == category_targets(cats, yc, (i + 1) as nat, seen_categories(cats, yc, (i + 1) as nat)[k]) by {
                                        if k < prev.len() {
                                            assert(prev[k] != s@);
                                        }
                                    }
                                }
                            },
                        }
                    },
                    None => {
                        assert(usable_category(cats[i as int], yc[i as int]) is None);
                    },
                }
            },
            _ => {
                assert(usable_category(cats[i as int], yc[i as int]) is None);
            },
        }
    }
    let mut out: Vec<(String, Vec<u64>)> = Vec::new();
    let ghost seen = seen_categories(cats, yc, cats.len());
    while vals.len() > 0
        invariant
            names.len() == vals.len(),
            vals.len() + out.len() == seen.len(),
            forall|k: int| 0 <= k < out.len() ==> (#[trigger] out@[k]).0@ == seen[k] && out@[k].1@ == category_targets(cats, yc, cats.len(), seen[k]),
            forall|k: int| 0 <= k < names.len() ==> (#[trigger] names@[k])@ == seen[out.len() + k],
            forall|k: int| 0 <= k < vals.len() ==> (#[trigger] vals@[k])@ == category_targets(cats, yc, cats.len(), seen[out.len() + k]),
        decreases vals.len(),
    {
        let n = names.remove(0);
        let v = vals.remove(0);
        out.push((n, v));
    }
    assert(group_view(out@) =~= column_groups(cats, yc));
    out
}

/// The usable targets and the groups of every encodable column of `x`,
/// against the single `Float64` target column of `y`.
///
/// A row's target is usable when it is a finite float; a row counts for a
/// `String` column when its category is not null and its target is usable.
/// A column is encodable when it is a `String` column with such a row.
/// Fails with `InvalidInput`, in this order: when `x` has no row or no
/// column; when `y` has other than one column; when their heights differ;
/// when the target column is not `Float64`; when no target is usable; when no
/// column is encodable.
pub fn target_groups(x: &Frame, y: &Frame) -> (r: Result<(Vec<u64>, Vec<(String, Vec<(String, Vec<u64>)>)>), Error>)
    ensures
        ({
            let fails = x@.height == 0 || x@.columns.len() == 0 || y@.columns.len() != 1 || y@.height != x@.height
                || y@.columns[0].dtype != DType::Float64 || finite_bits(target_cells(y@)).len() == 0
                || encodable_groups(x@.columns, target_cells(y@)).len() == 0;
            &&& r is Err <==> fails
            &&& r matches Err(e) ==> e is InvalidInput
            &&& r matches Ok((t, g)) ==> t@ == finite_bits(target_cells(y@))
                && groups_view(g@) == encodable_groups(x@.columns, target_cells(y@))
        }),
{
    if x.height() == 0 || x.width() == 0 {
        return Err(Error::InvalidInput(owned("TargetEncoder.fit received an empty DataFrame (0 rows or 0 columns). Provide data with at least 1 row and 1 column.")));
    }
    if y.width() != 1 {
        return Err(Error::InvalidInput(owned("TargetEncoder.fit: target must have exactly 1 column. Select a single target column.")));
    }
    if y.height() != x.height() {
        return Err(Error::InvalidInput(owned("TargetEncoder.fit: feature rows and target rows don't match.")));
    }
    let yc = &y.columns()[0];
    if yc.dtype != DType::Float64 {
        let mut msg = owned("TargetEncoder.fit: target column '");
        push_str(&mut msg, yc.name.as_str());
        push_str(&mut msg, "' has dtype ");
        push_str(&mut msg, crate::util::dtype_text(yc.dtype));
        push_str(&mut msg, "; expected Float64.");
        return Err(Error::InvalidInput(msg));
    }
    let ghost ycells = target_cells(y@);
    assert(yc@ == y@.columns[0]);
    let mut targets: Vec<u64> = Vec::new();
    for i in 0..yc.values.len()
        invariant
            ycells == yc@.cells,
            ycells.len() == yc.values.len(),
            targets@ == finite_bits(ycells.take(i as int)),
    {
        proof {
            assert(ycells.take(i + 1).drop_last() =~= ycells.take(i as int));
            assert(ycells.take(i + 1).last() == ycells[i as int]);
            assert(ycells[i as int] == opt_view(yc.values@[i as int]));
        }
        match &yc.values[i] {
            Some(Value::Float(v)) => {
                if (*v / 0x10_0000_0000_0000u64) % 0x800 != 0x7ff {
                    targets.push(*v);
                }
            },
            _ => {},
        }
    }
    proof {
        assert(ycells.take(yc.values.len() as int) =~= ycells);
    }
    if targets.len() == 0 {
        return Err(Error::InvalidInput(owned("TargetEncoder.fit: target column contains no non-null, non-NaN values. Provide a target with at least one usable value.")));
    }
    let cols = x.columns();
    let ghost xc = x@.columns;
    let mut groups: Vec<(String, Vec<(String, Vec<u64>)>)> = Vec::new();
    for k in 0..cols.len()
        invariant
            xc == x@.columns,
            x@.wf(),
            series_views(cols@) == xc,
            cols.len() == xc.len(),
            ycells == yc@.cells,
            ycells.len() == x@.height,
            groups_view(groups@) == encodable_groups(xc.take(k as int), ycells),
    {
        proof {
            assert(xc.take(k + 1).drop_last() =~= xc.take(k as int));
            assert(xc.take(k + 1).last() == xc[k as int]);
            assert(xc[k as int] == cols@[k as int]@);
            assert(xc[k as int].cells.len() == x@.height);
        }
        let ghost c = xc[k as int];
        let ghost seen = seen_categories(c.cells, ycells, c.cells.len());
        if cols[k].dtype == DType::Utf8 {
            let g = group_column(&cols[k], yc);
            assert(group_view(g@).len() == seen.len());
            if g.len() > 0 {
                let name = cols[k].name.clone();
                groups.push((name, g));
                proof {
                    assert(groups_view(groups@) =~= encodable_groups(xc.take(k as int), ycells).push((c.name, column_groups(c.cells, ycells))));
                }
            } else {
                assert(encodable_groups(xc.take(k + 1), ycells) == encodable_groups(xc.take(k as int), ycells));
            }
        } else {
            assert(encodable_groups(xc.take(k + 1), ycells) == encodable_groups(xc.take(k as int), ycells));
        }
    }
    proof {
        assert(xc.take(cols.len() as int) =~= xc);
    }
    if groups.len() == 0 {
        return Err(Error::InvalidInput(owned("TargetEncoder.fit: no string columns found. TargetEncoder operates on String columns only.")));
    }
    Ok((targets, groups))
}

/// The encodable columns are exactly the `String` columns with a seen
/// category, each once with its groups, in column order.
pub proof fn law_encodable_groups_filter(s: Seq<SeriesView>, ys: Seq<Option<CellView>>)
    ensures
        encodable_groups(s, ys) == s.filter_map(
            |c: SeriesView|
                if c.dtype == DType::Utf8 && seen_categories(c.cells, ys, c.cells.len()).len() > 0 {
                    Some((c.name, column_groups(c.cells, ys)))
                } else {
                    None
                },
        ),
    decreases s.len(),
{
    if s.len() > 0 {
        law_encodable_groups_filter(s.drop_last(), ys);
        let rest = encodable_groups(s.drop_last(), ys);
        assert forall|v: (Seq<char>, Seq<(Seq<char>, Seq<u64>)>)| #[trigger] rest.push(v) == rest + seq![v] by {
            assert(rest.push(v) =~= rest + seq![v]);
        }
    }
}

/// The targets of a category are the usable targets of exactly the rows
/// holding that category, each once, in row order.
pub proof fn law_category_targets_rows(cats: Seq<Option<CellView>>, ys: Seq<Option<CellView>>, n: nat, c: Seq<char>)
    ensures
        category_targets(cats, ys, n, c) == Seq::new(n, |i: int| i).filter_map(
            |i: int| if usable_category(cats[i], ys[i]) == Some(c) { Some(float_of(ys[i])) } else { None },
        ),
    decreases n,
{
    if n > 0 {
        law_category_targets_rows(cats, ys, (n - 1) as nat, c);
        let rows = Seq::new(n, |i: int| i);
        assert(rows.drop_last() =~= Seq::new((n - 1) as nat, |i: int| i));
        assert(rows.last() == n - 1);
        let prev = category_targets(cats, ys, (n - 1) as nat, c);
        assert(prev.push(float_of(ys[n - 1])) =~= prev + seq![float_of(ys[n - 1])]);
    }
}

/// The seen categories are exactly the categories of the rows beside a
/// usable target, each once.
pub proof fn law_seen_categories_exact(cats: Seq<Option<CellView>>, ys: Seq<Option<CellView>>, n: nat, s: Seq<char>)
    ensures
        seen_categories(cats, ys, n).contains(s) <==> exists|i: int| 0 <= i < n && #[trigger] usable_category(cats[i], ys[i])
            == Some(s),
        seen_categories(cats, ys, n).no_duplicates(),
    decreases n,
{
    if n > 0 {
        law_seen_categories_exact(cats, ys, (n - 1) as nat, s);
        let prev = seen_categories(cats, ys, (n - 1) as nat);
        let cur = seen_categories(cats, ys, n);
        match usable_category(cats[n - 1], ys[n - 1]) {
            Some(t) => {
                if !prev.contains(t) {
                    assert(cur == prev.push(t));
                    assert forall|a: int, b: int| 0 <= a < cur.len() && 0 <= b < cur.len() && a != b implies cur[a] != cur[b] by {
                        if a < prev.len() && b < prev.len() {
                        } else if a < prev.len() {
                            assert(cur[b] == t);
                            assert(prev.contains(cur[a]));
                        } else {
                            assert(cur[a] == t);
                            assert(prev.contains(cur[b]));
                        }
                    }
                    if cur.contains(s) && !prev.contains(s) {
                        let k = choose|k: int| 0 <= k < cur.len() && cur[k] == s;
                        assert(k == prev.len());
                    }
                    if prev.contains(s) {
                        let k = choose|k: int| 0 <= k < prev.len() && prev[k] == s;
                        assert(cur[k] == s);
                    }
                    if t == s {
                        assert(cur[prev.len() as int] == s);
                    }
                }
            },
            None => {},
        }
    }
}

/// A category is encoded by the first entry of the mapping for it; one with
/// no entry is not found.
pub proof fn law_lookup_first_entry(mapping: Seq<(Seq<char>, u64)>, s: Seq<char>)
    ensures
        lookup(mapping, s) is None <==> forall|k: int| 0 <= k < mapping.len() ==> (#[trigger] mapping[k]).0 != s,
        lookup(mapping, s) matches Some(v) ==> exists|k: int| 0 <= k < mapping.len() && #[trigger] mapping[k] == (s, v)
            && forall|j: int| 0 <= j < k ==> (#[trigger] mapping[j]).0 != s,
    decreases mapping.len(),
{
    if mapping.len() > 0 {
        let rest = mapping.drop_first();
        law_lookup_first_entry(rest, s);
        assert forall|k: int| 0 <= k < rest.len() implies #[trigger] rest[k] == mapping[k + 1] by {}
        if mapping[0].0 != s {
            if lookup(mapping, s) is None {
                assert forall|k: int| 0 <= k < mapping.len() implies (#[trigger] mapping[k]).0 != s by {
                    if k > 0 {
                        assert(mapping[k] == rest[k - 1]);
                    }
                }
            } else {
                let v = lookup(mapping, s)->0;
                let k = choose|k: int| 0 <= k < rest.len() && #[trigger] rest[k] == (s, v) && forall|j: int| 0 <= j < k ==> (#[trigger] rest[j]).0 != s;
                assert(mapping[k + 1] == (s, v));
                assert forall|j: int| 0 <= j < k + 1 implies (#[trigger] mapping[j]).0 != s by {
                    if j > 0 {
                        assert(mapping[j] == rest[j - 1]);
                    }
                }
            }
            if forall|k: int| 0 <= k < mapping.len() ==> (#[trigger] mapping[k]).0 != s {
                assert forall|k: int| 0 <= k < rest.len() implies (#[trigger] rest[k]).0 != s by {
                    assert(rest[k] == mapping[k + 1]);
                }
            }
        } else {
            assert(mapping[0] == (s, mapping[0].1));
        }
    }
}

/// An encoded cell is its category's encoding, the global mean for a
/// category without one, and null for a null.
pub proof fn law_encoded_cell_cases(mapping: Seq<(Seq<char>, u64)>, global: u64, s: Seq<char>)
    ensures
        lookup(mapping, s) matches Some(v) ==> encoded_cell(Some(CellView::Str(s)), mapping, global) == Some(CellView::Float(
            canonical_float_bits(v),
        )),
        lookup(mapping, s) is None ==> encoded_cell(Some(CellView::Str(s)), mapping, global) == Some(CellView::Float(
            canonical_float_bits(global),
        )),
        encoded_cell(None, mapping, global) is None,
{
}

} // verus!

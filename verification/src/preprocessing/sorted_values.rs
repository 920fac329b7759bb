//! The sorted finite values of `Float64` columns.
//!
//! Quantile-based transformers (winsorizing, outlier clipping, quantile
//! mapping) learn from the finite values of each column, in increasing
//! order; the percentiles themselves are floating-point arithmetic, done
//! outside this crate's verified core. This module resolves the columns
//! (the configured ones, or every `Float64` column), checks them, and hands
//! back each column's finite values sorted. Floats are handled as their
//! IEEE-754 bit patterns, sorted in the total order (on finite values, the
//! numeric order, with `-0.0` below `+0.0`).

use vstd::prelude::*;
use crate::frame::{CellView, DType, Frame, FrameView, Series, Value, opt_view, strings_view};
use crate::preprocessing::log_transformer::is_finite_bits;
use crate::preprocessing::max_abs_scaler::finite_cell;
use crate::text::{copy_strings, owned, push_str};
use crate::total_order::{sort_total, sorted_total};
use crate::traits::Error;
use crate::util::{f64_names, require_f64_columns};

verus! {

/// The finite floats of `cells`, in order.
pub open spec fn finite_bits(cells: Seq<Option<CellView>>) -> Seq<u64>
    decreases cells.len(),
{
    if cells.len() == 0 {
        Seq::empty()
    } else {
        let rest = finite_bits(cells.drop_last());
        match cells.last() {
            Some(CellView::Float(v)) => if is_finite_bits(v) { rest.push(v) } else { rest },
            _ => rest,
        }
    }
}

/// How a column fares: `0` when it is a `Float64` column with a finite
/// value, `1` when it is missing or not `Float64`, `2` when it has no finite
/// value.
pub open spec fn column_state(x: FrameView, name: Seq<char>) -> int {
    if !x.has(name) || x.col(name).dtype != DType::Float64 {
        1
    } else if !(exists|k: int| 0 <= k < x.col(name).cells.len() && #[trigger] finite_cell(x.col(name).cells[k])) {
        2
    } else {
        0
    }
}

/// The state of the first column of `cols` that does not fare well, or `0`.
pub open spec fn first_failure(x: FrameView, cols: Seq<Seq<char>>) -> int
    decreases cols.len(),
{
    if cols.len() == 0 {
        0
    } else {
        let p = first_failure(x, cols.drop_last());
        if p != 0 { p } else { column_state(x, cols.last()) }
    }
}

/// The columns to use: the configured ones, or every `Float64` column.
pub open spec fn chosen(x: FrameView, cfg: Option<Seq<Seq<char>>>) -> Seq<Seq<char>> {
    match cfg {
        Some(cols) => cols,
        None => f64_names(x.columns),
    }
}

/// The finite values of the column, sorted in increasing order.
fn sorted_finite(c: &Series) -> (r: Vec<u64>)
    ensures
        sorted_total(r@),
        r@.to_multiset() == finite_bits(c@.cells).to_multiset(),
        r.len() == finite_bits(c@.cells).len(),
{
    let ghost cells = c@.cells;
    let mut vals: Vec<u64> = Vec::new();
    for i in 0..c.values.len()
        invariant
            cells == c@.cells,
            cells.len() == c.values.len(),
            vals@ == finite_bits(cells.take(i as int)),
    {
        proof {
            assert(cells.take(i + 1).drop_last() =~= cells.take(i as int));
            assert(cells.take(i + 1).last() == cells[i as int]);
            assert(cells[i as int] == opt_view(c.values@[i as int]));
        }
        match &c.values[i] {
            Some(Value::Float(v)) => {
                if (*v / 0x10_0000_0000_0000u64) % 0x800 != 0x7ff {
                    vals.push(*v);
                }
            },
            _ => {},
        }
    }
    proof {
        assert(cells.take(c.values.len() as int) =~= cells);
    }
    sort_total(&vals)
}

/// A float cell holding a finite value puts it among the finite values.
proof fn lemma_finite_bits_nonempty(cells: Seq<Option<CellView>>)
    ensures
        finite_bits(cells).len() > 0 <==> exists|k: int| 0 <= k < cells.len() && #[trigger] finite_cell(cells[k]),
    decreases cells.len(),
{
    if cells.len() > 0 {
        let pre = cells.drop_last();
        lemma_finite_bits_nonempty(pre);
        if exists|k: int| 0 <= k < pre.len() && #[trigger] finite_cell(pre[k]) {
            let k = choose|k: int| 0 <= k < pre.len() && #[trigger] finite_cell(pre[k]);
            assert(cells[k] == pre[k]);
        }
        if exists|k: int| 0 <= k < cells.len() && #[trigger] finite_cell(cells[k]) {
            let k = choose|k: int| 0 <= k < cells.len() && #[trigger] finite_cell(cells[k]);
            if k < pre.len() {
                assert(pre[k] == cells[k]);
            } else {
                assert(cells[k] == cells.last());
            }
        }
        if finite_cell(cells.last()) {
            assert(finite_cell(cells[cells.len() - 1]));
        } else {
            assert(finite_bits(cells) == finite_bits(pre));
        }
    }
}

/// The finite values of each chosen column, sorted in increasing order.
///
/// The columns are the configured ones (`Some`), or every `Float64` column
/// of `x` (`None`). Fails with `InvalidInput` when there is no column to
/// use (an empty list, or no `Float64` column to discover) and, at the first
/// column in order that does not fare well, with `InvalidInput` when it is
/// missing or not `Float64`, or with `Computation` when it holds no finite
/// value. `who` names the caller in the messages.
pub fn sorted_finite_columns(x: &Frame, configured: &Option<Vec<String>>, who: &str) -> (r: Result<
    Vec<(String, Vec<u64>)>,
    Error,
>)
    ensures
        ({
            let cfg = match configured {
                Some(v) => Some(strings_view(v@)),
                None => None,
            };
            let cols = chosen(x@, cfg);
            if cols.len() == 0 {
                r matches Err(Error::InvalidInput(_))
            } else if first_failure(x@, cols) == 1 {
                r matches Err(Error::InvalidInput(_))
            } else if first_failure(x@, cols) == 2 {
                r matches Err(Error::Computation(_))
            } else {
                r matches Ok(v) && v.len() == cols.len() && forall|k: int| 0 <= k < cols.len() ==> {
                    &&& (#[trigger] v@[k]).0@ == cols[k]
                    &&& sorted_total(v@[k].1@)
                    &&& v@[k].1@.to_multiset() == finite_bits(x@.col(cols[k]).cells).to_multiset()
                    &&& v@[k].1@.len() > 0
                }
            }
        }),
{
    let names: Vec<String> = match configured {
        Some(cols) => {
            if cols.len() == 0 {
                let mut msg = owned(who);
                push_str(&mut msg, ".fit: no columns given. Provide at least one Float64 column or drop the empty column list.");
                return Err(Error::InvalidInput(msg));
            }
            copy_strings(cols)
        },
        None => match require_f64_columns(x, who) {
            Ok(v) => v,
            Err(e) => {
                return Err(e);
            },
        },
    };
    let ghost cols = strings_view(names@);
    let ghost xv = x@;
    let ghost cfg = match configured {
        Some(v) => Some(strings_view(v@)),
        None => None,
    };
    proof {
        assert(cols == chosen(xv, cfg));
    }
    let mut out: Vec<(String, Vec<u64>)> = Vec::new();
    for i in 0..names.len()
        invariant
            cols == strings_view(names@),
            cols == chosen(xv, cfg),
            cfg == (match configured {
                Some(v) => Some(strings_view(v@)),
                None => None,
            }),
            xv == x@,
            cols.len() > 0,
            first_failure(xv, cols.take(i as int)) == 0,
            out.len() == i,
            forall|k: int| 0 <= k < i ==> {
                &&& (#[trigger] out@[k]).0@ == cols[k]
                &&& sorted_total(out@[k].1@)
                &&& out@[k].1@.to_multiset() == finite_bits(xv.col(cols[k]).cells).to_multiset()
                &&& out@[k].1@.len() > 0
            },
    {
        proof {
            assert(cols.take(i + 1).drop_last() =~= cols.take(i as int));
            assert(cols.take(i + 1).last() == cols[i as int]);
            assert(cols[i as int] == names@[i as int]@);
        }
        let c = match x.column(names[i].as_str()) {
            Some(c) => c,
            None => {
                proof {
                    assert(column_state(xv, cols[i as int]) == 1);
                    lemma_first_failure_prefix(xv, cols, i as int);
                }
                let mut msg = owned(who);
                push_str(&mut msg, ".fit: column '");
                push_str(&mut msg, names[i].as_str());
                push_str(&mut msg, "' not found.");
                return Err(Error::InvalidInput(msg));
            },
        };
        if c.dtype != DType::Float64 {
            proof {
                assert(column_state(xv, cols[i as int]) == 1);
                lemma_first_failure_prefix(xv, cols, i as int);
            }
            let mut msg = owned(who);
            push_str(&mut msg, ".fit: column '");
            push_str(&mut msg, names[i].as_str());
            push_str(&mut msg, "' has dtype ");
            push_str(&mut msg, crate::util::dtype_text(c.dtype));
            push_str(&mut msg, "; expected Float64.");
            return Err(Error::InvalidInput(msg));
        }
        let vals = sorted_finite(c);
        proof {
            lemma_finite_bits_nonempty(c@.cells);
        }
        if vals.len() == 0 {
            proof {
                assert(column_state(xv, cols[i as int]) == 2);
                lemma_first_failure_prefix(xv, cols, i as int);
            }
            let mut msg = owned(who);
            push_str(&mut msg, ": column '");
            push_str(&mut msg, names[i].as_str());
            push_str(&mut msg, "' has no non-null, finite values. Impute first or drop the column.");
            return Err(Error::Computation(msg));
        }
        proof {
            assert(column_state(xv, cols[i as int]) == 0);
            assert(first_failure(xv, cols.take(i + 1)) == 0);
        }
        let name = names[i].clone();
        out.push((name, vals));
        proof {
            assert(out@[i as int].0@ == cols[i as int]);
        }
    }
    proof {
        assert(cols.take(names.len() as int) =~= cols);
    }
    Ok(out)
}

/// When every column before `i` fares well, the first failure of the whole
/// list is the state of column `i` if it fails.
proof fn lemma_first_failure_prefix(x: FrameView, cols: Seq<Seq<char>>, i: int)
    requires
        0 <= i < cols.len(),
        first_failure(x, cols.take(i)) == 0,
        column_state(x, cols[i]) != 0,
    ensures
        first_failure(x, cols) == column_state(x, cols[i]),
    decreases cols.len(),
{
    if i == cols.len() - 1 {
        assert(cols.drop_last() =~= cols.take(i));
    } else {
        let pre = cols.drop_last();
        assert(pre.take(i) =~= cols.take(i));
        assert(pre[i] == cols[i]);
        lemma_first_failure_prefix(x, pre, i);
    }
}

/// The values a quantile is taken over are exactly the finite float cells,
/// each once, in order.
pub proof fn law_finite_bits_filter(s: Seq<Option<CellView>>)
    ensures
        finite_bits(s) == s.filter_map(|c: Option<CellView>| match c { Some(CellView::Float(v)) => if is_finite_bits(v) { Some(v) } else { None }, _ => None }),
    decreases s.len(),
{
    if s.len() > 0 {
        law_finite_bits_filter(s.drop_last());
        let rest = finite_bits(s.drop_last());
        assert forall|v: u64| #[trigger] rest.push(v) == rest + seq![v] by {
            assert(rest.push(v) =~= rest + seq![v]);
        }
    }
}

} // verus!

//! Shared helpers for transformers operating on `Float64` columns.

use vstd::prelude::*;
use crate::frame::{DType, Frame, FrameView, SeriesView, strings_view, lemma_position_unique};
use crate::text::{owned, push_str};
use crate::traits::Error;

verus! {

/// The names of the `Float64` columns of `cols`, in order.
pub open spec fn f64_names(cols: Seq<SeriesView>) -> Seq<Seq<char>>
    decreases cols.len(),
{
    if cols.len() == 0 {
        Seq::empty()
    } else if cols.last().dtype == DType::Float64 {
        f64_names(cols.drop_last()).push(cols.last().name)
    } else {
        f64_names(cols.drop_last())
    }
}

/// Whether `cols` has a `Float64` column named `name`.
pub open spec fn has_f64_named(cols: Seq<SeriesView>, name: Seq<char>) -> bool {
    exists|i: int| 0 <= i < cols.len() && (#[trigger] cols[i]).name == name && cols[i].dtype == DType::Float64
}

/// Every name that `f64_names` lists is the name of a `Float64` column.
pub proof fn lemma_f64_names_source(cols: Seq<SeriesView>)
    ensures
        forall|k: int| 0 <= k < f64_names(cols).len() ==> has_f64_named(cols, #[trigger] f64_names(cols)[k]),
    decreases cols.len(),
{
    if cols.len() > 0 {
        let pre = cols.drop_last();
        lemma_f64_names_source(pre);
        let rest = f64_names(pre);
        assert forall|k: int| 0 <= k < f64_names(cols).len() implies has_f64_named(cols, #[trigger] f64_names(cols)[k]) by {
            if k < rest.len() {
                assert(f64_names(cols)[k] == rest[k]);
                assert(has_f64_named(pre, rest[k]));
                let i = choose|i: int| 0 <= i < pre.len() && (#[trigger] pre[i]).name == rest[k] && pre[i].dtype == DType::Float64;
                assert(cols[i] == pre[i]);
            } else {
                let j = cols.len() - 1;
                assert(cols[j] == cols.last());
            }
        }
    }
}

/// In a well-formed frame, every discovered `Float64` name finds a `Float64` column.
pub proof fn lemma_f64_names_found(x: FrameView)
    requires
        x.wf(),
    ensures
        forall|k: int| 0 <= k < f64_names(x.columns).len() ==> x.has(#[trigger] f64_names(x.columns)[k]) && x.col(
            f64_names(x.columns)[k],
        ).dtype == DType::Float64,
{
    lemma_f64_names_source(x.columns);
    assert forall|k: int| 0 <= k < f64_names(x.columns).len() implies x.has(#[trigger] f64_names(x.columns)[k]) && x.col(
        f64_names(x.columns)[k],
    ).dtype == DType::Float64 by {
        let name = f64_names(x.columns)[k];
        assert(has_f64_named(x.columns, name));
        let i = choose|i: int| 0 <= i < x.columns.len() && (#[trigger] x.columns[i]).name == name && x.columns[i].dtype == DType::Float64;
        lemma_position_unique(x.columns, name, i);
    }
}

/// The text of a dtype, as it appears in messages.
pub open spec fn dtype_name(d: DType) -> Seq<char> {
    match d {
        DType::Boolean => "bool"@,
        DType::Int8 => "i8"@,
        DType::Int16 => "i16"@,
        DType::Int32 => "i32"@,
        DType::Int64 => "i64"@,
        DType::UInt8 => "u8"@,
        DType::UInt16 => "u16"@,
        DType::UInt32 => "u32"@,
        DType::UInt64 => "u64"@,
        DType::Float32 => "f32"@,
        DType::Float64 => "f64"@,
        DType::Utf8 => "str"@,
        DType::Date => "date"@,
        DType::Datetime(_) => "datetime"@,
        DType::Other => "other"@,
    }
}

/// The text of a dtype, as it appears in messages.
pub fn dtype_text(d: DType) -> (r: &'static str)
    ensures
        r@ == dtype_name(d),
{
    match d {
        DType::Boolean => "bool",
        DType::Int8 => "i8",
        DType::Int16 => "i16",
        DType::Int32 => "i32",
        DType::Int64 => "i64",
        DType::UInt8 => "u8",
        DType::UInt16 => "u16",
        DType::UInt32 => "u32",
        DType::UInt64 => "u64",
        DType::Float32 => "f32",
        DType::Float64 => "f64",
        DType::Utf8 => "str",
        DType::Date => "date",
        DType::Datetime(_) => "datetime",
        DType::Other => "other",
    }
}

/// Return the names of all `Float64` columns in `df`, in frame order.
///
/// Non-`Float64` columns are silently skipped.
pub fn numeric_f64_columns(df: &Frame) -> (r: Vec<String>)
    ensures
        strings_view(r@) == f64_names(df@.columns),
{
    let cols = df.columns();
    let ghost views = df@.columns;
    let mut out: Vec<String> = Vec::new();
    for i in 0..cols.len()
        invariant
            views == df@.columns,
            cols.len() == views.len(),
            forall|k: int| 0 <= k < cols.len() ==> (#[trigger] cols@[k])@ == views[k],
            strings_view(out@) == f64_names(views.take(i as int)),
    {
        proof {
            assert(views.take(i + 1).drop_last() =~= views.take(i as int));
            assert(views.take(i + 1).last() == views[i as int]);
        }
        if cols[i].dtype == DType::Float64 {
            out.push(cols[i].name.clone());
            proof {
                assert(strings_view(out@) =~= f64_names(views.take(i as int)).push(views[i as int].name));
            }
        }
    }
    proof {
        assert(views.take(cols.len() as int) =~= views);
    }
    out
}

/// Return the names of all `Float64` columns, or an `InvalidInput` error that
/// lists every column and its dtype when none are `Float64`.
///
/// `who` names the transformer in the error message.
pub fn require_f64_columns(df: &Frame, who: &str) -> (r: Result<Vec<String>, Error>)
    ensures
        r is Err <==> f64_names(df@.columns).len() == 0,
        r matches Err(e) ==> e is InvalidInput,
        r matches Ok(v) ==> strings_view(v@) == f64_names(df@.columns),
{
    let cols = numeric_f64_columns(df);
    if cols.len() == 0 {
        let all = df.columns();
        let mut msg = owned(who);
        push_str(&mut msg, ": no Float64 columns found. This transformer only operates on f64 columns. Available columns: [");
        for i in 0..all.len() {
            if i > 0 {
                push_str(&mut msg, ", ");
            }
            push_str(&mut msg, "'");
            push_str(&mut msg, all[i].name.as_str());
            push_str(&mut msg, "' (");
            push_str(&mut msg, dtype_text(all[i].dtype));
            push_str(&mut msg, ")");
        }
        push_str(&mut msg, "]. Cast non-f64 columns before fitting.");
        return Err(Error::InvalidInput(msg));
    }
    Ok(cols)
}

/// Check that every name of `cols` is a `Float64` column of `x`; `who`
/// names the caller in the error message.
pub fn check_f64_columns(x: &Frame, cols: &Vec<String>, who: &str) -> (r: Result<(), Error>)
    ensures
        r is Ok <==> forall|k: int| 0 <= k < cols@.len() ==> x@.has(#[trigger] strings_view(cols@)[k]) && x@.col(
            strings_view(cols@)[k],
        ).dtype == DType::Float64,
        r matches Err(e) ==> e is InvalidInput,
{
    let ghost cv = strings_view(cols@);
    for i in 0..cols.len()
        invariant
            cv == strings_view(cols@),
            forall|k: int| 0 <= k < i ==> x@.has(#[trigger] cv[k]) && x@.col(cv[k]).dtype == DType::Float64,
    {
        let found = x.column(cols[i].as_str());
        assert(cv[i as int] == cols@[i as int]@);
        match found {
            None => {
                let mut msg = owned(who);
                push_str(&mut msg, ": column '");
                push_str(&mut msg, cols[i].as_str());
                push_str(&mut msg, "' not found.");
                return Err(Error::InvalidInput(msg));
            },
            Some(c) => {
                if c.dtype != DType::Float64 {
                    assert(x@.col(cv[i as int]).dtype != DType::Float64);
                    let mut msg = owned(who);
                    push_str(&mut msg, ": column '");
                    push_str(&mut msg, cols[i].as_str());
                    push_str(&mut msg, "' has dtype ");
                    push_str(&mut msg, dtype_text(c.dtype));
                    push_str(&mut msg, "; expected Float64.");
                    return Err(Error::InvalidInput(msg));
                }
            },
        }
    }
    Ok(())
}

/// The `Float64` names are the names of exactly the `Float64` columns,
/// each once, in column order.
pub proof fn law_f64_names_filter(s: Seq<SeriesView>)
    ensures
        f64_names(s) == s.filter_map(|c: SeriesView| if c.dtype == DType::Float64 { Some(c.name) } else { None }),
    decreases s.len(),
{
    if s.len() > 0 {
        law_f64_names_filter(s.drop_last());
        let rest = f64_names(s.drop_last());
        assert forall|v: Seq<char>| #[trigger] rest.push(v) == rest + seq![v] by {
            assert(rest.push(v) =~= rest + seq![v]);
        }
    }
}

} // verus!

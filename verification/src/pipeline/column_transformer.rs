//! Column-wise composition of transformers.
//!
//! A [`ColumnTransformer`] gives each transformer its own columns, fits and
//! runs it on just those, and stacks the outputs side by side in the order
//! of the transformers. With [`Remainder::Passthrough`] the columns that no
//! transformer names follow unchanged, in input order.

use vstd::prelude::*;
use crate::frame::{Frame, FrameView, Series, SeriesView, series_views, select_spec, all_present, distinct_seq, strings_view};
use crate::text::{
    owned, concat, contains_text, lemma_text_append, lemma_text_prepend, quote_in, quoted, str_eq,
};
use crate::traits::{Error, Fit, Transform};
use crate::pipeline::{DataFrameTransformer, detail, frame_result};

verus! {

/// What happens to the columns that no transformer names.
#[derive(Clone, Copy, Debug, PartialEq, Eq, Structural)]
pub enum Remainder {
    /// Leave them out.
    Drop,
    /// Append them unchanged.
    Passthrough,
}

/// Whether `name` is one of the column lists.
pub open spec fn specified(lists: Seq<Seq<Seq<char>>>, name: Seq<char>) -> bool {
    exists|k: int| 0 <= k < lists.len() && (#[trigger] lists[k]).contains(name)
}

/// The names of the columns of `cols` that no list names, in order.
pub open spec fn remainder_names(cols: Seq<SeriesView>, lists: Seq<Seq<Seq<char>>>) -> Seq<Seq<char>>
    decreases cols.len(),
{
    if cols.len() == 0 {
        Seq::empty()
    } else if specified(lists, cols.last().name) {
        remainder_names(cols.drop_last(), lists)
    } else {
        remainder_names(cols.drop_last(), lists).push(cols.last().name)
    }
}

/// Whether every column list is free of repeats and present in `f`.
pub open spec fn lists_present(f: FrameView, lists: Seq<Seq<Seq<char>>>) -> bool {
    forall|k: int| 0 <= k < lists.len() ==> distinct_seq(#[trigger] lists[k]) && all_present(f, lists[k])
}

/// Whether two different column lists name the same column.
pub open spec fn overlapping(lists: Seq<Seq<Seq<char>>>) -> bool {
    exists|a: int, b: int, j: int|
        0 <= a < b < lists.len() && 0 <= j < lists[a].len() && (#[trigger] lists[b]).contains(#[trigger] lists[a][j])
}

/// Whether the list `names` can be selected from `f`: no repeats, all present.
pub open spec fn selectable(f: FrameView, names: Seq<Seq<char>>) -> bool {
    distinct_seq(names) && all_present(f, names)
}

/// Whether `msg` quotes a column named by two transformers, and both
/// transformers' names.
pub open spec fn names_overlap(lists: Seq<Seq<Seq<char>>>, tn: Seq<Seq<char>>, msg: Seq<char>) -> bool {
    exists|a: int, b: int, j: int|
        0 <= a < b < lists.len() && 0 <= j < lists[a].len() && (#[trigger] lists[b]).contains(#[trigger] lists[a][j])
            && contains_text(msg, quoted(lists[a][j])) && contains_text(msg, quoted(tn[a])) && contains_text(msg, quoted(tn[b]))
}

/// The error of transformer `name` in `phase`, caused by `e`: a
/// `Computation` error with the detail
/// `ColumnTransformer: transformer '{name}' failed during {phase}: {e}`.
pub open spec fn transformer_error(r: Error, e: Error, name: Seq<char>, phase: Seq<char>) -> bool {
    r is Computation && detail(r) == "ColumnTransformer: transformer "@ + quoted(name) + " failed during "@ + phase + ": "@
        + e.text()
}

/// Whether fitting the transformers `before` (named `tn`, with column lists
/// `lists`) on `x` may leave them as `after`, with the outcome `r`: the
/// first `m` transformers were each fitted, with success, on the selection of
/// their own columns from `x`, in order; when `m` is short of all of them,
/// transformer `m` has a list that cannot be selected (`InvalidInput`) or a
/// failing fit (`Computation`, naming it); later ones are left alone.
pub open spec fn ct_fit_run(
    before: Seq<Box<dyn DataFrameTransformer>>,
    after: Seq<Box<dyn DataFrameTransformer>>,
    lists: Seq<Seq<Seq<char>>>,
    tn: Seq<Seq<char>>,
    x: FrameView,
    m: int,
    r: Result<(), Error>,
) -> bool {
    let n = before.len();
    &&& after.len() == n
    &&& 0 <= m <= n
    &&& forall|k: int| #![trigger after[k]] #![trigger before[k]] #![trigger lists[k]] 0 <= k < m ==> {
        &&& selectable(x, lists[k])
        &&& before[k].fit_gives(select_spec(x, lists[k]), Ok(()))
        &&& after[k].fit_leaves(select_spec(x, lists[k]), Ok(()))
    }
    &&& forall|k: int| #![trigger after[k]] m < k < n ==> after[k] == before[k]
    &&& m == n ==> r is Ok
    &&& m < n ==> {
        ||| !selectable(x, lists[m]) && (r matches Err(Error::InvalidInput(_))) && after[m] == before[m]
        ||| selectable(x, lists[m]) && exists|e0: Error| #![trigger before[m].fit_gives(select_spec(x, lists[m]), Err(e0))] {
            &&& before[m].fit_gives(select_spec(x, lists[m]), Err(e0))
            &&& after[m].fit_leaves(select_spec(x, lists[m]), Err(e0))
            &&& r matches Err(e) && transformer_error(e, e0, tn[m], "fit"@)
        }
    }
}

/// The columns of the outputs `outs`, one after the other.
pub open spec fn stacked(outs: Seq<FrameView>) -> Seq<SeriesView>
    decreases outs.len(),
{
    if outs.len() == 0 {
        Seq::empty()
    } else {
        stacked(outs.drop_last()) + outs.last().columns
    }
}

/// The outcome of stacking the outputs `outs` and, with `Passthrough`, the
/// unnamed columns of `x`.
pub open spec fn stack_result(outs: Seq<FrameView>, rest: Remainder, x: FrameView, lists: Seq<Seq<Seq<char>>>, r: Result<FrameView, Error>) -> bool {
    let rem = remainder_names(x.columns, lists);
    let pass = rest is Passthrough && rem.len() > 0;
    if pass && !selectable(x, rem) {
        r matches Err(Error::InvalidInput(_))
    } else if outs.len() == 0 && !pass {
        r matches Err(Error::InvalidInput(_))
    } else {
        let cols = stacked(outs) + (if pass { select_spec(x, rem).columns } else { Seq::empty() });
        let v = FrameView { height: if outs.len() > 0 { outs[0].height } else { x.height }, columns: cols };
        &&& r is Ok <==> v.wf()
        &&& r matches Ok(f) ==> f == v
        &&& r matches Err(e) ==> e is Computation
    }
}

/// Whether transforming `x` through the transformers `st` may give `r`:
/// `outs[k]` is what transformer `k` gives for the selection of its own
/// columns, in order; the result stacks them (see [`stack_result`]), or is
/// the error of the first list that cannot be selected (`InvalidInput`) or
/// the first failing transformer (`Computation`, naming it).
pub open spec fn ct_transform_run(
    st: Seq<Box<dyn DataFrameTransformer>>,
    lists: Seq<Seq<Seq<char>>>,
    tn: Seq<Seq<char>>,
    rest: Remainder,
    x: FrameView,
    outs: Seq<FrameView>,
    r: Result<FrameView, Error>,
) -> bool {
    let n = st.len();
    let m = outs.len();
    &&& m <= n
    &&& forall|k: int| #![trigger st[k]] #![trigger lists[k]] 0 <= k < m ==> selectable(x, lists[k]) && st[k].transform_gives(
        select_spec(x, lists[k]),
        Ok(outs[k]),
    )
    &&& m < n ==> {
        ||| !selectable(x, lists[m as int]) && (r matches Err(Error::InvalidInput(_)))
        ||| selectable(x, lists[m as int]) && exists|e0: Error| #![trigger st[m as int].transform_gives(select_spec(x, lists[m as int]), Err(e0))] {
            &&& st[m as int].transform_gives(select_spec(x, lists[m as int]), Err(e0))
            &&& r matches Err(e) && transformer_error(e, e0, tn[m as int], "transform"@)
        }
    }
    &&& m == n ==> stack_result(outs, rest, x, lists, r)
}

/// Whether `v` holds `name`.
fn holds(v: &Vec<String>, name: &String) -> (r: bool)
    ensures
        r == strings_view(v@).contains(name@),
{
    for m in 0..v.len()
        invariant
            forall|c: int| 0 <= c < m ==> strings_view(v@)[c] != name@,
    {
        assert(strings_view(v@)[m as int] == v@[m as int]@);
        if str_eq(v[m].as_str(), name.as_str()) {
            return true;
        }
    }
    false
}

/// Apply transformers to selected columns and stack the outputs.
pub struct ColumnTransformer {
    transformers: Vec<(String, Box<dyn DataFrameTransformer>, Vec<String>)>,
    remainder: Remainder,
    fitted: bool,
}

impl ColumnTransformer {
    /// The column list of each transformer.
    pub closed spec fn lists(&self) -> Seq<Seq<Seq<char>>> {
        self.transformers@.map_values(|t: (String, Box<dyn DataFrameTransformer>, Vec<String>)| strings_view(t.2@))
    }

    /// What happens to unnamed columns.
    pub closed spec fn rest(&self) -> Remainder {
        self.remainder
    }

    /// The transformer names, in order.
    pub closed spec fn tnames(&self) -> Seq<Seq<char>> {
        self.transformers@.map_values(|t: (String, Box<dyn DataFrameTransformer>, Vec<String>)| t.0@)
    }

    /// The transformers, in order.
    pub closed spec fn stages(&self) -> Seq<Box<dyn DataFrameTransformer>> {
        self.transformers@.map_values(|t: (String, Box<dyn DataFrameTransformer>, Vec<String>)| t.1)
    }

    /// Whether a fit has succeeded.
    pub closed spec fn is_fitted(&self) -> bool {
        self.fitted
    }

    /// A column transformer of `(name, transformer, columns)` triples.
    pub fn new(transformers: Vec<(String, Box<dyn DataFrameTransformer>, Vec<String>)>, remainder: Remainder) -> (r: Self)
        ensures
            r.lists() == transformers@.map_values(|t: (String, Box<dyn DataFrameTransformer>, Vec<String>)| strings_view(t.2@)),
            r.tnames() == transformers@.map_values(|t: (String, Box<dyn DataFrameTransformer>, Vec<String>)| t.0@),
            r.stages() == transformers@.map_values(|t: (String, Box<dyn DataFrameTransformer>, Vec<String>)| t.1),
            r.rest() == remainder,
            !r.is_fitted(),
    {
        Self { transformers, remainder, fitted: false }
    }

    /// Whether some transformer names the column `name`.
    fn is_specified(&self, name: &str) -> (r: bool)
        ensures
            r == specified(self.lists(), name@),
    {
        let ghost ls = self.lists();
        for k in 0..self.transformers.len()
            invariant
                ls == self.lists(),
                forall|a: int| 0 <= a < k ==> !(#[trigger] ls[a]).contains(name@),
        {
            let cols = &self.transformers[k].2;
            for j in 0..cols.len()
                invariant
                    ls == self.lists(),
                    k < self.transformers.len(),
                    *cols == self.transformers@[k as int].2,
                    forall|b: int| 0 <= b < j ==> ls[k as int][b] != name@,
            {
                if str_eq(cols[j].as_str(), name) {
                    assert(ls[k as int][j as int] == name@);
                    return true;
                }
            }
            proof {
                if ls[k as int].contains(name@) {
                    let b = choose|b: int| 0 <= b < ls[k as int].len() && ls[k as int][b] == name@;
                }
            }
        }
        false
    }

    /// A column named by two transformers, with the later transformer: the
    /// first such pair in transformer order.
    fn find_overlap(&self) -> (r: Option<(usize, usize, usize)>)
        ensures
            r is None <==> !overlapping(self.lists()),
            r matches Some(t) ==> t.0 < t.2 < self.lists().len() && t.1 < self.lists()[t.0 as int].len()
                && self.lists()[t.2 as int].contains(self.lists()[t.0 as int][t.1 as int]),
    {
        let ghost ls = self.lists();
        let n = self.transformers.len();
        for a in 0..n
            invariant
                n == ls.len(),
                ls == self.lists(),
                forall|a2: int, b2: int, j2: int| 0 <= a2 < a && a2 < b2 < ls.len() && 0 <= j2 < ls[a2].len() ==> !(
                #[trigger] ls[b2]).contains(#[trigger] ls[a2][j2]),
        {
            let cols = &self.transformers[a].2;
            assert(ls[a as int] == strings_view(cols@));
            for j in 0..cols.len()
                invariant
                    n == ls.len(),
                    ls == self.lists(),
                    a < n,
                    ls[a as int] == strings_view(cols@),
                    forall|b2: int, j2: int| a < b2 < ls.len() && 0 <= j2 < j ==> !(#[trigger] ls[b2]).contains(
                        #[trigger] ls[a as int][j2],
                    ),
            {
                assert(ls[a as int][j as int] == cols@[j as int]@);
                for b in a + 1..n
                    invariant
                        n == ls.len(),
                        ls == self.lists(),
                        a < n,
                        j < cols.len(),
                        ls[a as int] == strings_view(cols@),
                        ls[a as int][j as int] == cols@[j as int]@,
                        forall|b2: int| a < b2 < b ==> !(#[trigger] ls[b2]).contains(ls[a as int][j as int]),
                {
                    assert(ls[b as int] == strings_view(self.transformers@[b as int].2@));
                    if holds(&self.transformers[b].2, &cols[j]) {
                        return Some((a, j, b));
                    }
                }
            }
        }
        None
    }

    /// The names of the columns of `x` that no transformer names.
    fn remainder_of(&self, x: &Frame) -> (r: Vec<String>)
        ensures
            strings_view(r@) == remainder_names(x@.columns, self.lists()),
    {
        let cols = x.columns();
        let ghost views = x@.columns;
        let mut out: Vec<String> = Vec::new();
        for i in 0..cols.len()
            invariant
                views == x@.columns,
                cols.len() == views.len(),
                forall|k: int| 0 <= k < cols.len() ==> (#[trigger] cols@[k])@ == views[k],
                strings_view(out@) == remainder_names(views.take(i as int), self.lists()),
        {
            proof {
                assert(views.take(i + 1).drop_last() =~= views.take(i as int));
                assert(views.take(i + 1).last() == views[i as int]);
            }
            if !self.is_specified(cols[i].name.as_str()) {
                let ghost before = strings_view(out@);
                out.push(cols[i].name.clone());
                assert(strings_view(out@) =~= before.push(views[i as int].name));
            }
        }
        proof {
            assert(views.take(cols.len() as int) =~= views);
        }
        out
    }
}

/// The frame of the columns `names` of `x`, or the `InvalidInput` error that
/// names the transformer `who`.
fn select_for(x: &Frame, names: &Vec<String>, who: &str) -> (r: Result<Frame, Error>)
    ensures
        r is Ok <==> selectable(x@, strings_view(names@)),
        r matches Ok(f) ==> f@ == select_spec(x@, strings_view(names@)),
        r matches Err(e) ==> e is InvalidInput,
{
    match x.select(names) {
        Ok(f) => Ok(f),
        Err(_) => Err(Error::InvalidInput(quote_in(
            "ColumnTransformer: transformer ",
            who,
            " requested columns but one or more don't exist in the input.",
        ))),
    }
}

impl Fit<Frame> for ColumnTransformer {
    type Output = ();

    open spec fn fits_to(&self, x: Frame, after: Self, r: Result<(), Error>) -> bool {
        &&& after.lists() == self.lists()
        &&& after.tnames() == self.tnames()
        &&& after.rest() == self.rest()
        &&& after.is_fitted() == r is Ok
        &&& x@.columns.len() == 0 ==> (r matches Err(Error::InvalidInput(_)) && after.stages() == self.stages())
        &&& x@.columns.len() > 0 && overlapping(self.lists()) ==> (r matches Err(Error::InvalidInput(m)) && names_overlap(
            self.lists(),
            self.tnames(),
            m@,
        ) && after.stages() == self.stages())
        &&& x@.columns.len() > 0 && !overlapping(self.lists()) ==> exists|m: int| #[trigger] ct_fit_run(
            self.stages(),
            after.stages(),
            self.lists(),
            self.tnames(),
            x@,
            m,
            r,
        )
    }

    /// Fit each transformer on the selection of its own columns, in order.
    ///
    /// Fails with `InvalidInput` on a frame without columns, when two
    /// transformers name the same column (the message quotes the column and
    /// both transformers), or when a column list repeats a name or names a
    /// missing column; with `Computation`, naming the transformer, when a
    /// transformer's fit fails. Only a successful fit leaves it fitted.
    fn fit(&mut self, x: Frame) -> (r: Result<(), Error>) {
        self.fitted = false;
        if x.width() == 0 {
            return Err(Error::InvalidInput(owned("ColumnTransformer.fit received a DataFrame with 0 columns.")));
        }
        match self.find_overlap() {
            Some((a, j, b)) => {
                let ghost ls = self.lists();
                let ghost tn = self.tnames();
                let m1 = quote_in("ColumnTransformer.fit: column ", self.transformers[a].2[j].as_str(), " is claimed by transformer ");
                let m2 = quote_in("", self.transformers[a].0.as_str(), " and by transformer ");
                let m3 = quote_in("", self.transformers[b].0.as_str(), ". Give each column to one transformer.");
                let m12 = concat(m1.as_str(), m2.as_str());
                let msg = concat(m12.as_str(), m3.as_str());
                proof {
                    assert(ls[a as int] == strings_view(self.transformers@[a as int].2@));
                    assert(ls[a as int][j as int] == self.transformers@[a as int].2@[j as int]@);
                    assert(tn[a as int] == self.transformers@[a as int].0@);
                    assert(tn[b as int] == self.transformers@[b as int].0@);
                    let q = quoted(ls[a as int][j as int]);
                    lemma_text_append(m1@, q, m2@);
                    lemma_text_append(m1@ + m2@, q, m3@);
                    lemma_text_prepend(m1@, m2@, quoted(tn[a as int]));
                    lemma_text_append(m1@ + m2@, quoted(tn[a as int]), m3@);
                    lemma_text_prepend(m1@ + m2@, m3@, quoted(tn[b as int]));
                    assert(names_overlap(ls, tn, msg@));
                }
                return Err(Error::InvalidInput(msg));
            },
            None => {},
        }
        let ghost ls = self.lists();
        let ghost tn = self.tnames();
        let ghost before = self.stages();
        let ghost xv = x@;
        let n = self.transformers.len();
        for k in 0..n
            invariant
                n == ls.len(),
                ls == old(self).lists(),
                tn == old(self).tnames(),
                before == old(self).stages(),
                self.lists() == ls,
                self.tnames() == tn,
                self.rest() == old(self).rest(),
                self.transformers.len() == ls.len(),
                self.stages().len() == n,
                before.len() == n,
                tn.len() == n,
                !self.fitted,
                xv == x@,
                x@.columns.len() > 0,
                !overlapping(ls),
                forall|a: int| #![trigger self.stages()[a]] #![trigger before[a]] #![trigger ls[a]] 0 <= a < k ==> {
                    &&& selectable(xv, ls[a])
                    &&& before[a].fit_gives(select_spec(xv, ls[a]), Ok(()))
                    &&& self.stages()[a].fit_leaves(select_spec(xv, ls[a]), Ok(()))
                },
                forall|a: int| #![trigger self.stages()[a]] k <= a < n ==> self.stages()[a] == before[a],
        {
            proof {
                assert(ls[k as int] == strings_view(self.transformers@[k as int].2@));
                assert(tn[k as int] == self.transformers@[k as int].0@);
            }
            let sub = select_for(&x, &self.transformers[k].2, self.transformers[k].0.as_str());
            let sub = match sub {
                Ok(s) => s,
                Err(e) => {
                    proof {
                        assert(self.stages()[k as int] == before[k as int]);
                        assert(ct_fit_run(before, self.stages(), ls, tn, xv, k as int, Err(e)));
                    }
                    return Err(e);
                },
            };
            let ghost sv = sub@;
            let ghost steps_before = self.transformers@;
            let ghost stages_before = self.stages();
            let t = &mut self.transformers[k];
            let fitted = t.1.fit_frame(sub);
            proof {
                assert(sv == select_spec(xv, ls[k as int]));
                assert(stages_before[k as int] == steps_before[k as int].1);
                assert(self.transformers@ == steps_before.update(k as int, self.transformers@[k as int]));
                assert(self.transformers@[k as int].2 == steps_before[k as int].2);
                assert(self.transformers@[k as int].0 == steps_before[k as int].0);
                assert(self.lists() =~= ls);
                assert(self.tnames() =~= tn);
                assert forall|a: int| 0 <= a < n && a != k implies #[trigger] self.stages()[a] == stages_before[a] by {
                    assert(self.stages()[a] == self.transformers@[a].1);
                    assert(stages_before[a] == steps_before[a].1);
                }
                assert(self.stages()[k as int] == self.transformers@[k as int].1);
                assert(before[k as int] == stages_before[k as int]);
                assert forall|a: int| #![trigger self.stages()[a]] #![trigger before[a]] #![trigger ls[a]] 0 <= a < k implies {
                    &&& selectable(xv, ls[a])
                    &&& before[a].fit_gives(select_spec(xv, ls[a]), Ok(()))
                    &&& self.stages()[a].fit_leaves(select_spec(xv, ls[a]), Ok(()))
                } by {
                    assert(self.stages()[a] == stages_before[a]);
                }
                assert forall|a: int| #![trigger self.stages()[a]] k < a < n implies self.stages()[a] == before[a] by {
                    assert(self.stages()[a] == stages_before[a]);
                }
            }
            match fitted {
                Ok(u) => {
                    assert(u == ());
                    assert(fitted == Ok::<(), Error>(()));
                },
                Err(e) => {
                    let head = quote_in("ColumnTransformer: transformer ", self.transformers[k].0.as_str(), " failed during fit: ");
                    let err = Error::Computation(concat(head.as_str(), e.message().as_str()));
                    proof {
                        reveal_strlit("fit");
                        reveal_strlit(" failed during ");
                        reveal_strlit(" failed during fit: ");
                        reveal_strlit(": ");
                        assert(" failed during fit: "@ =~= " failed during "@ + "fit"@ + ": "@);
                        assert(detail(err) =~= "ColumnTransformer: transformer "@ + quoted(tn[k as int]) + " failed during "@ + "fit"@
                            + ": "@ + e.text());
                        assert(transformer_error(err, e, tn[k as int], "fit"@));
                        assert(ct_fit_run(before, self.stages(), ls, tn, xv, k as int, Err(err)));
                    }
                    return Err(err);
                },
            }
        }
        self.fitted = true;
        proof {
            assert(ct_fit_run(old(self).stages(), self.stages(), old(self).lists(), old(self).tnames(), x@, n as int, Ok(())));
        }
        Ok(())
    }
}

impl Transform<Frame> for ColumnTransformer {
    type Output = Frame;

    /// Run each transformer on the selection of its own columns and stack the
    /// outputs in order, then the unnamed columns when they pass through.
    ///
    /// Fails with `NotFitted` before a fit; with `InvalidInput` when a column
    /// list repeats a name or names a missing column, or when there is
    /// nothing to output; with `Computation` when a transformer fails (naming
    /// it) or the outputs cannot be stacked (a repeated name or a different
    /// height).
    fn transform(&self, x: Frame) -> (r: Result<Frame, Error>)
        ensures
            !self.is_fitted() ==> r matches Err(Error::NotFitted(_)),
            self.is_fitted() ==> exists|outs: Seq<FrameView>| #[trigger] ct_transform_run(
                self.stages(),
                self.lists(),
                self.tnames(),
                self.rest(),
                x@,
                outs,
                frame_result(r),
            ),
    {
        if !self.fitted {
            return Err(Error::NotFitted(owned("ColumnTransformer has not been fitted. Call .fit(dataframe) before .transform().")));
        }
        let ghost ls = self.lists();
        let ghost tn = self.tnames();
        let ghost st = self.stages();
        let ghost xv = x@;
        let ghost mut outs: Seq<FrameView> = Seq::empty();
        let mut all: Vec<Series> = Vec::new();
        let mut height: Option<usize> = None;
        for k in 0..self.transformers.len()
            invariant
                self.fitted,
                ls == self.lists(),
                tn == self.tnames(),
                st == self.stages(),
                xv == x@,
                self.transformers.len() == ls.len(),
                tn.len() == ls.len(),
                st.len() == ls.len(),
                outs.len() == k,
                series_views(all@) == stacked(outs),
                k == 0 ==> height is None,
                k > 0 ==> height == Some(outs[0].height as usize) && outs[0].height <= usize::MAX,
                forall|a: int| #![trigger st[a]] #![trigger ls[a]] 0 <= a < k ==> selectable(xv, ls[a]) && st[a].transform_gives(
                    select_spec(xv, ls[a]),
                    Ok(outs[a]),
                ),
        {
            proof {
                assert(ls[k as int] == strings_view(self.transformers@[k as int].2@));
                assert(tn[k as int] == self.transformers@[k as int].0@);
                assert(st[k as int] == self.transformers@[k as int].1);
            }
            let sub = match select_for(&x, &self.transformers[k].2, self.transformers[k].0.as_str()) {
                Ok(s) => s,
                Err(e) => {
                    proof {
                        assert(ct_transform_run(st, ls, tn, self.rest(), xv, outs, Err(e)));
                    }
                    return Err(e);
                },
            };
            let out = match self.transformers[k].1.transform_frame(sub) {
                Ok(f) => f,
                Err(e) => {
                    let head = quote_in("ColumnTransformer: transformer ", self.transformers[k].0.as_str(), " failed during transform: ");
                    let err = Error::Computation(concat(head.as_str(), e.message().as_str()));
                    proof {
                        reveal_strlit("transform");
                        reveal_strlit(" failed during ");
                        reveal_strlit(" failed during transform: ");
                        reveal_strlit(": ");
                        assert(" failed during transform: "@ =~= " failed during "@ + "transform"@ + ": "@);
                        assert(detail(err) =~= "ColumnTransformer: transformer "@ + quoted(tn[k as int]) + " failed during "@
                            + "transform"@ + ": "@ + e.text());
                        assert(transformer_error(err, e, tn[k as int], "transform"@));
                        assert(ct_transform_run(st, ls, tn, self.rest(), xv, outs, Err(err)));
                    }
                    return Err(err);
                },
            };
            let ghost prev = outs;
            proof {
                outs = outs.push(out@);
                assert(outs.drop_last() =~= prev);
            }
            if height.is_none() {
                height = Some(out.height());
            }
            let mut cs = out.copy_columns();
            let ghost before_all = series_views(all@);
            all.append(&mut cs);
            proof {
                assert(series_views(all@) =~= before_all + out@.columns);
            }
        }
        let ghost rem = remainder_names(xv.columns, ls);
        let ghost pass = self.rest() is Passthrough && rem.len() > 0;
        if matches!(self.remainder, Remainder::Passthrough) {
            let rest = self.remainder_of(&x);
            if rest.len() > 0 {
                let part = match x.select(&rest) {
                    Ok(f) => f,
                    Err(_) => {
                        let err = Error::InvalidInput(owned("ColumnTransformer: failed to select remainder columns."));
                        proof {
                            assert(strings_view(rest@) == rem);
                            assert(ct_transform_run(st, ls, tn, self.rest(), xv, outs, Err(err)));
                        }
                        return Err(err);
                    },
                };
                if height.is_none() {
                    height = Some(part.height());
                }
                let mut cs = part.copy_columns();
                let ghost before_all = series_views(all@);
                all.append(&mut cs);
                proof {
                    assert(series_views(all@) =~= before_all + select_spec(xv, rem).columns);
                }
            }
        }
        let h = match height {
            Some(h) => h,
            None => {
                let err = Error::InvalidInput(owned("ColumnTransformer produced no output columns. Check that at least one transformer has matching input columns or use Remainder::Passthrough to keep unspecified columns."));
                proof {
                    assert(ct_transform_run(st, ls, tn, self.rest(), xv, outs, Err(err)));
                }
                return Err(err);
            },
        };
        let ghost all_v = series_views(all@);
        let r = match Frame::new(h, all) {
            Ok(f) => Ok(f),
            Err(_) => Err(Error::Computation(owned("ColumnTransformer: failed to stack transformed columns."))),
        };
        proof {
            assert(ct_transform_run(st, ls, tn, self.rest(), xv, outs, frame_result(r)));
        }
        r
    }
}

/// The remainder is exactly the columns that no list names, each once, in
/// column order.
pub proof fn law_remainder_names_filter(s: Seq<SeriesView>, lists: Seq<Seq<Seq<char>>>)
    ensures
        remainder_names(s, lists) == s.filter_map(|c: SeriesView| if specified(lists, c.name) { None } else { Some(c.name) }),
    decreases s.len(),
{
    if s.len() > 0 {
        law_remainder_names_filter(s.drop_last(), lists);
        let rest = remainder_names(s.drop_last(), lists);
        assert forall|v: Seq<char>| #[trigger] rest.push(v) == rest + seq![v] by {
            assert(rest.push(v) =~= rest + seq![v]);
        }
    }
}

/// Stacking two runs of outputs puts the columns of the first before those
/// of the second, and one output contributes just its own columns.
pub proof fn law_stacked_split(s: Seq<FrameView>, t: Seq<FrameView>, x: FrameView)
    ensures
        stacked(s + t) == stacked(s) + stacked(t),
        stacked(seq![x]) == x.columns,
    decreases t.len(),
{
    let one = seq![x];
    assert(one.drop_last() =~= Seq::<FrameView>::empty());
    assert(one.last() == x);
    assert(stacked(Seq::<FrameView>::empty()) =~= Seq::<SeriesView>::empty());
    assert(Seq::<SeriesView>::empty() + x.columns =~= x.columns);
    if t.len() == 0 {
        assert(s + t =~= s);
        assert(stacked(s) + Seq::<SeriesView>::empty() =~= stacked(s));
    } else {
        law_stacked_split(s, t.drop_last(), x);
        assert((s + t).drop_last() =~= s + t.drop_last());
        assert((s + t).last() == t.last());
        assert(stacked(s) + stacked(t.drop_last()) + t.last().columns =~= stacked(s) + (stacked(t.drop_last()) + t.last().columns));
    }
}

} // verus!

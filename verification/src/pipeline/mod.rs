//! Sequential and column-wise composition of transformers.
//!
//! A [`Pipeline`] fits each step on the output of the previous one and
//! transforms through all steps in order. Errors from a step keep their kind
//! and name the step, its position and the phase that failed.

use vstd::prelude::*;
use crate::frame::{Frame, FrameView};
use crate::text::{concat, owned, usize_text, push_str};
use crate::traits::{Error, Fit, Transform};

pub mod column_transformer;

pub use column_transformer::ColumnTransformer;

verus! {

/// The view of a transform's outcome.
pub open spec fn frame_result(r: Result<Frame, Error>) -> Result<FrameView, Error> {
    match r {
        Ok(f) => Ok(f@),
        Err(e) => Err(e),
    }
}

/// A transformer that fits on and transforms whole frames; every type with
/// `Fit<Frame, Output = ()>` and `Transform<Frame, Output = Frame>` is one.
pub trait DataFrameTransformer {
    /// Whether fitting this transformer on a frame viewed as `x` may end with
    /// the outcome `r`.
    spec fn fit_gives(&self, x: FrameView, r: Result<(), Error>) -> bool;

    /// Whether this transformer is what fitting on a frame viewed as `x` may
    /// leave, with the outcome `r`.
    spec fn fit_leaves(&self, x: FrameView, r: Result<(), Error>) -> bool;

    /// Whether transforming a frame viewed as `x` may give `r`.
    spec fn transform_gives(&self, x: FrameView, r: Result<FrameView, Error>) -> bool;

    /// Fit on `x`.
    fn fit_frame(&mut self, x: Frame) -> (r: Result<(), Error>)
        ensures
            old(self).fit_gives(x@, r),
            final(self).fit_leaves(x@, r),
    ;

    /// Transform `x`.
    fn transform_frame(&self, x: Frame) -> (r: Result<Frame, Error>)
        ensures
            self.transform_gives(x@, frame_result(r)),
    ;
}

impl<T> DataFrameTransformer for T where T: Fit<Frame, Output = ()> + Transform<Frame, Output = Frame> {
    /// The fit of `T`, from this state, on some frame with that view.
    open spec fn fit_gives(&self, x: FrameView, r: Result<(), Error>) -> bool {
        exists|f: Frame, after: T| f@ == x && #[trigger] self.fits_to(f, after, r)
    }

    /// The fit of `T`, from some state, on some frame with that view, ending
    /// in this state.
    open spec fn fit_leaves(&self, x: FrameView, r: Result<(), Error>) -> bool {
        exists|f: Frame, before: T| f@ == x && #[trigger] before.fits_to(f, *self, r)
    }

    /// The transform of `T` on some frame with that view.
    open spec fn transform_gives(&self, x: FrameView, r: Result<FrameView, Error>) -> bool {
        exists|f: Frame, out: Result<Frame, Error>| f@ == x && frame_result(out) == r && #[trigger] call_ensures(
            T::transform,
            (self, f),
            out,
        )
    }

    fn fit_frame(&mut self, x: Frame) -> (r: Result<(), Error>) {
        let ghost xf = x;
        let ghost before = *self;
        let r = self.fit(x);
        assert(before.fits_to(xf, *self, r));
        r
    }

    fn transform_frame(&self, x: Frame) -> (r: Result<Frame, Error>) {
        let ghost xf = x;
        let r = self.transform(x);
        assert(call_ensures(T::transform, (self, xf), r));
        r
    }
}

/// Whether two errors are of the same kind.
pub open spec fn same_kind(a: Error, b: Error) -> bool {
    &&& (a is InvalidInput <==> b is InvalidInput)
    &&& (a is NotFitted <==> b is NotFitted)
    &&& (a is Computation <==> b is Computation)
}

/// The detail of an error.
pub open spec fn detail(e: Error) -> Seq<char> {
    match e {
        Error::InvalidInput(m) => m@,
        Error::NotFitted(m) => m@,
        Error::Computation(m) => m@,
    }
}

/// The error of step `i` named `name` in `phase`: the same kind, with the
/// detail `Pipeline: step {i} ('{name}') failed during {phase}: {e}`.
pub fn wrap_step_error(e: Error, i: usize, name: &str, phase: &str) -> (r: Error)
    ensures
        same_kind(r, e),
        detail(r) == "Pipeline: step "@ + crate::text::nat_decimal(i as nat) + " ('"@ + name@ + "') failed during "@
            + phase@ + ": "@ + e.text(),
{
    let mut msg = concat("Pipeline: step ", usize_text(i).as_str());
    push_str(&mut msg, " ('");
    push_str(&mut msg, name);
    push_str(&mut msg, "') failed during ");
    push_str(&mut msg, phase);
    push_str(&mut msg, ": ");
    push_str(&mut msg, e.message().as_str());
    match e {
        Error::NotFitted(_) => Error::NotFitted(msg),
        Error::InvalidInput(_) => Error::InvalidInput(msg),
        Error::Computation(_) => Error::Computation(msg),
    }
}

/// Whether `r` is the error of step `i` named `name` in `phase`, caused by
/// `e`: the same kind, with the detail
/// `Pipeline: step {i} ('{name}') failed during {phase}: {e}`.
pub open spec fn step_error(r: Error, e: Error, i: int, name: Seq<char>, phase: Seq<char>) -> bool {
    &&& same_kind(r, e)
    &&& detail(r) == "Pipeline: step "@ + crate::text::nat_decimal(i as nat) + " ('"@ + name + "') failed during "@ + phase
        + ": "@ + e.text()
}

/// Whether fitting the stages `before` (named `names`) on `x` may leave them
/// as `after`, with the outcome `r`: `ins[k]` is the frame that stage `k` is
/// fitted on, `ins[0]` is `x`, and each later one is what the previous stage,
/// once fitted, transforms its own input into; the first failing call ends
/// the fit with its error, and the stages after it are left alone.
pub open spec fn fit_run(
    before: Seq<Box<dyn DataFrameTransformer>>,
    after: Seq<Box<dyn DataFrameTransformer>>,
    names: Seq<Seq<char>>,
    x: FrameView,
    ins: Seq<FrameView>,
    r: Result<(), Error>,
) -> bool {
    let n = before.len();
    let m = ins.len();
    &&& after.len() == n
    &&& n == 0 ==> r is Ok
    &&& n > 0 ==> {
        &&& 1 <= m <= n
        &&& ins[0] == x
        &&& forall|k: int| #![trigger after[k]] #![trigger before[k]] 0 <= k < m - 1 ==> {
            &&& before[k].fit_gives(ins[k], Ok(()))
            &&& after[k].fit_leaves(ins[k], Ok(()))
            &&& after[k].transform_gives(ins[k], Ok(ins[k + 1]))
        }
        &&& forall|k: int| #![trigger after[k]] m <= k < n ==> after[k] == before[k]
        &&& match r {
            Ok(_) => m == n && before[n - 1].fit_gives(ins[n - 1], Ok(())) && after[n - 1].fit_leaves(ins[n - 1], Ok(())),
            Err(e) => exists|e0: Error| #![trigger same_kind(e, e0)] {
                ||| before[m - 1].fit_gives(ins[m - 1], Err(e0)) && after[m - 1].fit_leaves(ins[m - 1], Err(e0))
                    && step_error(e, e0, m - 1, names[m - 1], "fit"@)
                ||| m < n && before[m - 1].fit_gives(ins[m - 1], Ok(())) && after[m - 1].fit_leaves(ins[m - 1], Ok(()))
                    && after[m - 1].transform_gives(ins[m - 1], Err(e0))
                    && step_error(e, e0, m - 1, names[m - 1], "intermediate transform"@)
            },
        }
    }
}

/// Whether transforming `x` through the stages `st` (named `names`) may give
/// `r`: `ins[k]` is the frame that stage `k` transforms, `ins[0]` is `x`, and
/// each later one is the previous stage's output; the result is the last
/// output, or the first failing stage's error.
pub open spec fn transform_run(
    st: Seq<Box<dyn DataFrameTransformer>>,
    names: Seq<Seq<char>>,
    x: FrameView,
    ins: Seq<FrameView>,
    r: Result<FrameView, Error>,
) -> bool {
    let n = st.len();
    let m = ins.len();
    &&& 1 <= m <= n + 1
    &&& ins[0] == x
    &&& forall|k: int| #![trigger st[k]] 0 <= k < m - 1 ==> st[k].transform_gives(ins[k], Ok(ins[k + 1]))
    &&& match r {
        Ok(f) => m == n + 1 && f == ins[n as int],
        Err(e) => m <= n && exists|e0: Error|
            st[m - 1].transform_gives(ins[m - 1], Err(e0)) && #[trigger] step_error(e, e0, m - 1, names[m - 1], "transform"@),
    }
}

/// A named list of transformers applied in order.
pub struct Pipeline {
    steps: Vec<(String, Box<dyn DataFrameTransformer>)>,
    fitted: bool,
}

impl Pipeline {
    /// Whether every step has been fitted.
    pub closed spec fn is_fitted(&self) -> bool {
        self.fitted
    }

    /// The step names, in order.
    pub closed spec fn names(&self) -> Seq<Seq<char>> {
        self.steps@.map_values(|p: (String, Box<dyn DataFrameTransformer>)| p.0@)
    }

    /// The transformers of the steps, in order.
    pub closed spec fn stages(&self) -> Seq<Box<dyn DataFrameTransformer>> {
        self.steps@.map_values(|p: (String, Box<dyn DataFrameTransformer>)| p.1)
    }

    /// A pipeline of `steps`; fails with `InvalidInput` when there are none.
    pub fn new(steps: Vec<(String, Box<dyn DataFrameTransformer>)>) -> (r: Result<Self, Error>)
        ensures
            r is Err <==> steps.len() == 0,
            r matches Err(e) ==> e is InvalidInput,
            r matches Ok(p) ==> !p.is_fitted() && p.names() == steps@.map_values(
                |p: (String, Box<dyn DataFrameTransformer>)| p.0@,
            ) && p.stages() == steps@.map_values(|p: (String, Box<dyn DataFrameTransformer>)| p.1),
    {
        if steps.len() == 0 {
            return Err(Error::InvalidInput(owned("Pipeline::new: at least one step is required. Provide a non-empty Vec of (name, transformer) pairs.")));
        }
        Ok(Self { steps, fitted: false })
    }

    /// The steps, in order.
    pub fn steps(&self) -> (r: &[(String, Box<dyn DataFrameTransformer>)])
        ensures
            r@.map_values(|p: (String, Box<dyn DataFrameTransformer>)| p.0@) == self.names(),
    {
        self.steps.as_slice()
    }
}

impl Fit<Frame> for Pipeline {
    type Output = ();

    open spec fn fits_to(&self, x: Frame, after: Self, r: Result<(), Error>) -> bool {
        &&& after.names() == self.names()
        &&& after.is_fitted() == r is Ok
        &&& x@.height == 0 ==> (r matches Err(Error::InvalidInput(_)) && after.stages() == self.stages())
        &&& x@.height > 0 ==> exists|ins: Seq<FrameView>| #[trigger] fit_run(self.stages(), after.stages(), self.names(), x@, ins, r)
    }

    /// Fit each step on the output of the previous one (the last step is
    /// fitted but not run).
    ///
    /// Fails with `InvalidInput` on a frame without rows, and otherwise with
    /// the first failing step's error, of the same kind and naming the step;
    /// the pipeline is then unfitted.
    fn fit(&mut self, x: Frame) -> (r: Result<(), Error>) {
        self.fitted = false;
        if x.height() == 0 {
            return Err(Error::InvalidInput(owned("Pipeline.fit received a DataFrame with 0 rows.")));
        }
        let ghost before = self.stages();
        let ghost names = self.names();
        let ghost xv = x@;
        let ghost xf = x;
        let ghost mut ins: Seq<FrameView> = seq![x@];
        let mut cur = x;
        let n = self.steps.len();
        for i in 0..n
            invariant
                n == self.steps.len(),
                !self.fitted,
                xv.height > 0,
                xf@ == xv,
                x == xf,
                names == old(self).names(),
                before == old(self).stages(),
                self.names() == names,
                self.stages().len() == n,
                before.len() == n,
                names.len() == n,
                ins.len() == i + 1,
                ins[0] == xv,
                ins[i as int] == cur@,
                i < n || n == 0,
                forall|k: int| #![trigger self.stages()[k]] #![trigger before[k]] 0 <= k < i ==> {
                    &&& before[k].fit_gives(ins[k], Ok(()))
                    &&& self.stages()[k].fit_leaves(ins[k], Ok(()))
                    &&& self.stages()[k].transform_gives(ins[k], Ok(ins[k + 1]))
                },
                forall|k: int| #![trigger self.stages()[k]] i <= k < n ==> self.stages()[k] == before[k],
        {
            let ghost steps_before = self.steps@;
            let ghost stages_before = self.stages();
            let ghost cv = cur@;
            let step = &mut self.steps[i];
            let fitted = step.1.fit_frame(cur.copy());
            proof {
                assert(stages_before[i as int] == steps_before[i as int].1);
                assert(self.steps@ == steps_before.update(i as int, self.steps@[i as int]));
                assert(self.steps@[i as int].0 == steps_before[i as int].0);
                assert(self.names() =~= names);
                assert forall|k: int| 0 <= k < n && k != i implies #[trigger] self.stages()[k] == stages_before[k] by {
                    assert(self.stages()[k] == self.steps@[k].1);
                    assert(stages_before[k] == steps_before[k].1);
                }
                assert(self.stages()[i as int] == self.steps@[i as int].1);
                assert forall|k: int| #![trigger self.stages()[k]] #![trigger before[k]] 0 <= k < i implies {
                    &&& before[k].fit_gives(ins[k], Ok(()))
                    &&& self.stages()[k].fit_leaves(ins[k], Ok(()))
                    &&& self.stages()[k].transform_gives(ins[k], Ok(ins[k + 1]))
                } by {
                    assert(self.stages()[k] == stages_before[k]);
                }
                assert forall|k: int| #![trigger self.stages()[k]] i < k < n implies self.stages()[k] == before[k] by {
                    assert(self.stages()[k] == stages_before[k]);
                }
                assert(names[i as int] == self.steps@[i as int].0@);
            }
            match fitted {
                Ok(u) => {
                    assert(u == ());
                    assert(fitted == Ok::<(), Error>(()));
                },
                Err(e) => {
                    let r = wrap_step_error(e, i, self.steps[i].0.as_str(), "fit");
                    proof {
                        reveal_strlit("fit");
                        assert(step_error(r, e, i as int, names[i as int], "fit"@));
                        let after = self.stages();
                        let m = ins.len() as int;
                        assert forall|k: int| #![trigger after[k]] #![trigger before[k]] 0 <= k < m - 1 implies {
                            &&& before[k].fit_gives(ins[k], Ok(()))
                            &&& after[k].fit_leaves(ins[k], Ok(()))
                            &&& after[k].transform_gives(ins[k], Ok(ins[k + 1]))
                        } by {
                            assert(after[k] == stages_before[k]);
                        }
                        assert(fit_run(old(self).stages(), self.stages(), old(self).names(), x@, ins, Err(r)));
                    }
                    return Err(r);
                },
            }
            if i + 1 < n {
                let res = self.steps[i].1.transform_frame(cur);
                proof {
                    assert(self.steps@[i as int].1.transform_gives(cv, frame_result(res)));
                }
                match res {
                    Ok(f) => {
                        proof {
                            let old_ins = ins;
                            ins = ins.push(f@);
                            assert(before[i as int].fit_gives(ins[i as int], Ok(())));
                            assert forall|k: int| #![trigger self.stages()[k]] #![trigger before[k]] 0 <= k < i implies {
                                &&& before[k].fit_gives(ins[k], Ok(()))
                                &&& self.stages()[k].fit_leaves(ins[k], Ok(()))
                                &&& self.stages()[k].transform_gives(ins[k], Ok(ins[k + 1]))
                            } by {
                                assert(self.stages()[k] == stages_before[k]);
                                assert(ins[k] == old_ins[k]);
                                assert(ins[k + 1] == old_ins[k + 1]);
                            }
                        }
                        cur = f;
                    },
                    Err(e) => {
                        let r = wrap_step_error(e, i, self.steps[i].0.as_str(), "intermediate transform");
                        proof {
                            assert(step_error(r, e, i as int, names[i as int], "intermediate transform"@));
                            let after = self.stages();
                            let m = ins.len() as int;
                            assert forall|k: int| #![trigger after[k]] #![trigger before[k]] 0 <= k < m - 1 implies {
                                &&& before[k].fit_gives(ins[k], Ok(()))
                                &&& after[k].fit_leaves(ins[k], Ok(()))
                                &&& after[k].transform_gives(ins[k], Ok(ins[k + 1]))
                            } by {
                                assert(after[k] == stages_before[k]);
                            }
                            assert(fit_run(before, self.stages(), names, xv, ins, Err(r)));
                        }
                        return Err(r);
                    },
                }
            } else {
                self.fitted = true;
                proof {
                    assert(fit_run(old(self).stages(), self.stages(), old(self).names(), x@, ins, Ok(())));
                }
                return Ok(());
            }
        }
        self.fitted = true;
        proof {
            assert(fit_run(old(self).stages(), self.stages(), old(self).names(), x@, ins, Ok(())));
        }
        Ok(())
    }
}

impl Transform<Frame> for Pipeline {
    type Output = Frame;

    /// Transform through every step in order.
    ///
    /// Fails with `NotFitted` before a fit, and otherwise with the first
    /// failing step's error, of the same kind and naming the step.
    fn transform(&self, x: Frame) -> (r: Result<Frame, Error>)
        ensures
            !self.is_fitted() ==> r matches Err(Error::NotFitted(_)),
            self.is_fitted() ==> exists|ins: Seq<FrameView>| #[trigger] transform_run(
                self.stages(),
                self.names(),
                x@,
                ins,
                frame_result(r),
            ),
    {
        if !self.fitted {
            return Err(Error::NotFitted(owned("Pipeline has not been fitted. Call .fit(dataframe) before .transform().")));
        }
        let ghost st = self.stages();
        let ghost names = self.names();
        let ghost xv = x@;
        let ghost mut ins: Seq<FrameView> = seq![x@];
        let mut cur = x;
        for i in 0..self.steps.len()
            invariant
                self.fitted,
                xv == x@,
                st == self.stages(),
                names == self.names(),
                st.len() == self.steps.len(),
                names.len() == self.steps.len(),
                ins.len() == i + 1,
                ins[0] == xv,
                ins[i as int] == cur@,
                forall|k: int| #![trigger st[k]] 0 <= k < i ==> st[k].transform_gives(ins[k], Ok(ins[k + 1])),
        {
            proof {
                assert(st[i as int] == self.steps@[i as int].1);
                assert(names[i as int] == self.steps@[i as int].0@);
            }
            let ghost cv = cur@;
            let res = self.steps[i].1.transform_frame(cur);
            proof {
                assert(st[i as int].transform_gives(cv, frame_result(res)));
            }
            match res {
                Ok(f) => {
                    proof {
                        let old_ins = ins;
                        ins = ins.push(f@);
                        assert forall|k: int| #![trigger st[k]] 0 <= k < i + 1 implies st[k].transform_gives(ins[k], Ok(ins[k + 1])) by {
                            if k < i {
                                assert(ins[k] == old_ins[k] && ins[k + 1] == old_ins[k + 1]);
                            }
                        }
                    }
                    cur = f;
                },
                Err(e) => {
                    let r = wrap_step_error(e, i, self.steps[i].0.as_str(), "transform");
                    proof {
                        let m = ins.len() as int;
                        assert(step_error(r, e, m - 1, names[m - 1], "transform"@));
                        assert(frame_result(res) == Err::<FrameView, Error>(e));
                        assert(st[m - 1].transform_gives(ins[m - 1], Err(e)));
                        assert(exists|e0: Error| st[m - 1].transform_gives(ins[m - 1], Err(e0)) && #[trigger] step_error(r, e0, m - 1, names[m - 1], "transform"@));
                        assert(transform_run(st, names, xv, ins, Err(r)));
                    }
                    return Err(r);
                },
            }
        }
        proof {
            assert(transform_run(st, names, xv, ins, Ok(cur@)));
        }
        Ok(cur)
    }
}

} // verus!

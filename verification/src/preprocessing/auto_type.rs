//! Automatic column-type detection and encoding.
//!
//! [`AutoTypeDetector`] classifies each column: a string column with fewer
//! distinct values than `cat_threshold` is categorical and is one-hot
//! encoded; a string column with more is high-cardinality and is hashed into
//! `hash_buckets` buckets; every other column is numeric and passes through.
//! The encoders are fitted during `fit`, so a transform never refits them.

use vstd::prelude::*;
use crate::frame::{DType, Frame, FrameView, Series, SeriesView, series_views, select_spec, distinct_names, all_of_height, all_fit, strings_view, lemma_position_of, lemma_position_unique};
use crate::numbers::exact_limit;
use crate::preprocessing::encoder::{
    OneHotEncoder, column_unique_strings, string_values, has_strings, string_columns, all_utf8,
    entries_match, entries_present, onehot_columns,
};
use crate::preprocessing::feature_hasher::{FeatureHasher, all_strings, hashed_frame};
use crate::text::{owned, concat, join3, str_eq};
use crate::traits::{Error, Fit, Transform};

verus! {

broadcast use vstd::set::group_set_axioms;

/// Detected kind of a column.
#[derive(Clone, Copy, Debug, PartialEq, Eq, Structural)]
pub enum ColumnType {
    /// Passed through unchanged.
    Numeric,
    /// One-hot encoded.
    Categorical,
    /// Hashed into buckets.
    HighCardinality,
}

/// An encoder fitted on one column.
pub enum FittedEncoder {
    /// One-hot encoding of a categorical column.
    OneHot(OneHotEncoder),
    /// Hashing of a high-cardinality column.
    Hashed(FeatureHasher),
}

/// The kind of column `c` under `threshold`.
pub open spec fn detect(c: SeriesView, threshold: nat) -> ColumnType {
    if c.dtype == DType::Utf8 {
        if string_values(c).len() < threshold { ColumnType::Categorical } else { ColumnType::HighCardinality }
    } else {
        ColumnType::Numeric
    }
}

/// Whether fitting the encoder of `c` succeeds.
pub open spec fn column_accepted(c: SeriesView, height: nat, threshold: nat, buckets: nat) -> bool {
    match detect(c, threshold) {
        ColumnType::Categorical => height > 0 && has_strings(c),
        ColumnType::HighCardinality => buckets > 0,
        ColumnType::Numeric => true,
    }
}

/// Whether every column of `f` is accepted.
pub open spec fn fit_accepts(f: FrameView, threshold: nat, buckets: nat) -> bool {
    forall|i: int| 0 <= i < f.columns.len() ==> column_accepted(#[trigger] f.columns[i], f.height, threshold, buckets)
}

/// The (name, kind) of every column of `cols`.
pub open spec fn detected_types(cols: Seq<SeriesView>, threshold: nat) -> Seq<(Seq<char>, ColumnType)> {
    cols.map_values(|c: SeriesView| (c.name, detect(c, threshold)))
}

/// The columns of `cols` that get an encoder, in order.
pub open spec fn encoded_columns(cols: Seq<SeriesView>, threshold: nat) -> Seq<SeriesView>
    decreases cols.len(),
{
    if cols.len() == 0 {
        Seq::empty()
    } else if detect(cols.last(), threshold) is Numeric {
        encoded_columns(cols.drop_last(), threshold)
    } else {
        encoded_columns(cols.drop_last(), threshold).push(cols.last())
    }
}

/// Whether `e` is a fitted encoder.
pub open spec fn encoder_fitted(e: FittedEncoder) -> bool {
    match e {
        FittedEncoder::OneHot(enc) => enc.is_fitted(),
        FittedEncoder::Hashed(h) => h.is_fitted(),
    }
}

/// Whether `e` is the encoder that a fit learns from column `c` of a frame of
/// `height` rows.
pub open spec fn encoder_for(e: FittedEncoder, c: SeriesView, height: nat, threshold: nat, buckets: nat) -> bool {
    match e {
        FittedEncoder::OneHot(enc) => {
            &&& detect(c, threshold) is Categorical
            &&& enc.is_fitted()
            &&& !enc.drops_first()
            &&& entries_match(enc.entries(), seq![c])
        },
        FittedEncoder::Hashed(h) => {
            &&& detect(c, threshold) is HighCardinality
            &&& h.is_fitted()
            &&& h.selected() == seq![c.name]
            &&& h.buckets() == buckets
        },
    }
}

/// The first encoder registered under `name`.
pub open spec fn find_encoder(encs: Seq<(Seq<char>, FittedEncoder)>, name: Seq<char>) -> Option<FittedEncoder>
    decreases encs.len(),
{
    if encs.len() == 0 {
        None
    } else if encs[0].0 == name {
        Some(encs[0].1)
    } else {
        find_encoder(encs.drop_first(), name)
    }
}

/// The columns that encoder `e` outputs for the frame `sub`, if it succeeds.
pub open spec fn encoder_output(e: FittedEncoder, sub: FrameView) -> Option<Seq<SeriesView>> {
    match e {
        FittedEncoder::OneHot(enc) => if entries_present(sub, enc.entries()) && distinct_names(
            onehot_columns(sub, enc.entries(), enc.drops_first()),
        ) {
            Some(onehot_columns(sub, enc.entries(), enc.drops_first()))
        } else {
            None
        },
        FittedEncoder::Hashed(h) => if all_strings(sub, h.selected()) && h.selected().len() < exact_limit() {
            Some(hashed_frame(sub, h.selected(), h.buckets()).columns)
        } else {
            None
        },
    }
}

/// The encoded columns and the passed-through numeric columns of `x`, type
/// by type; `None` when an encoded column is missing or its encoder fails.
pub open spec fn assemble(
    x: FrameView,
    types: Seq<(Seq<char>, ColumnType)>,
    encs: Seq<(Seq<char>, FittedEncoder)>,
) -> Option<(Seq<SeriesView>, Seq<SeriesView>)>
    decreases types.len(),
{
    if types.len() == 0 {
        Some((Seq::empty(), Seq::empty()))
    } else {
        match assemble(x, types.drop_last(), encs) {
            None => None,
            Some(parts) => {
                let name = types.last().0;
                if types.last().1 is Numeric {
                    if x.has(name) { Some((parts.0, parts.1.push(x.col(name)))) } else { Some(parts) }
                } else {
                    match find_encoder(encs, name) {
                        None => None,
                        Some(e) => if !x.has(name) {
                            None
                        } else {
                            match encoder_output(e, select_spec(x, seq![name])) {
                                None => None,
                                Some(cs) => Some((parts.0 + cs, parts.1)),
                            }
                        },
                    }
                }
            },
        }
    }
}

/// Once a prefix fails, every longer prefix fails.
proof fn lemma_assemble_none(
    x: FrameView,
    types: Seq<(Seq<char>, ColumnType)>,
    encs: Seq<(Seq<char>, FittedEncoder)>,
    n: int,
)
    requires
        0 <= n <= types.len(),
        assemble(x, types.take(n), encs) is None,
    ensures
        assemble(x, types, encs) is None,
    decreases types.len() - n,
{
    if n < types.len() {
        assert(types.take(n + 1).drop_last() =~= types.take(n));
        lemma_assemble_none(x, types, encs, n + 1);
    } else {
        assert(types.take(n) =~= types);
    }
}

/// Detect column types and encode categorical columns automatically.
pub struct AutoTypeDetector {
    fitted: bool,
    cat_threshold: usize,
    hash_buckets: usize,
    column_types: Option<Vec<(String, ColumnType)>>,
    encoders: Option<Vec<(String, FittedEncoder)>>,
}

/// The views of (name, kind) pairs.
pub open spec fn types_view(v: Seq<(String, ColumnType)>) -> Seq<(Seq<char>, ColumnType)> {
    v.map_values(|p: (String, ColumnType)| (p.0@, p.1))
}

/// The views of (name, encoder) pairs.
pub open spec fn encoders_view(v: Seq<(String, FittedEncoder)>) -> Seq<(Seq<char>, FittedEncoder)> {
    v.map_values(|p: (String, FittedEncoder)| (p.0@, p.1))
}

impl AutoTypeDetector {
    #[verifier::type_invariant]
    spec fn inv(&self) -> bool {
        self.fitted ==> {
            &&& self.column_types is Some
            &&& self.encoders matches Some(e) && forall|k: int| 0 <= k < e.len() ==> encoder_fitted(#[trigger] e@[k].1)
        }
    }

    /// Whether a fit has succeeded.
    pub closed spec fn is_fitted(&self) -> bool {
        self.fitted
    }

    /// The distinct-value count below which a string column is categorical.
    pub closed spec fn threshold(&self) -> nat {
        self.cat_threshold as nat
    }

    /// The number of buckets of a hashed column.
    pub closed spec fn buckets(&self) -> nat {
        self.hash_buckets as nat
    }

    /// The detected (name, kind) pairs of the last fit.
    pub closed spec fn types(&self) -> Seq<(Seq<char>, ColumnType)> {
        match self.column_types {
            Some(v) => types_view(v@),
            None => Seq::empty(),
        }
    }

    /// Whether a fit has recorded column kinds.
    pub closed spec fn has_types(&self) -> bool {
        self.column_types is Some
    }

    /// The fitted (name, encoder) pairs of the last fit.
    pub closed spec fn encs(&self) -> Seq<(Seq<char>, FittedEncoder)> {
        match self.encoders {
            Some(v) => encoders_view(v@),
            None => Seq::empty(),
        }
    }

    /// A detector with threshold 20 and 100 buckets.
    pub fn new() -> (r: Self)
        ensures
            !r.is_fitted(),
            !r.has_types(),
            r.threshold() == 20,
            r.buckets() == 100,
    {
        Self { fitted: false, cat_threshold: 20, hash_buckets: 100, column_types: None, encoders: None }
    }

    /// Set the distinct-value count below which a string column is categorical.
    pub fn cat_threshold(self, value: usize) -> (r: Self)
        ensures
            r.is_fitted() == self.is_fitted(),
            r.threshold() == value,
            r.buckets() == self.buckets(),
            r.types() == self.types(),
            r.encs() == self.encs(),
    {
        proof {
            use_type_invariant(&self);
        }
        Self {
            fitted: self.fitted,
            cat_threshold: value,
            hash_buckets: self.hash_buckets,
            column_types: self.column_types,
            encoders: self.encoders,
        }
    }

    /// Set the number of buckets of a hashed column.
    pub fn hash_buckets(self, value: usize) -> (r: Self)
        ensures
            r.is_fitted() == self.is_fitted(),
            r.threshold() == self.threshold(),
            r.buckets() == value,
            r.types() == self.types(),
            r.encs() == self.encs(),
    {
        proof {
            use_type_invariant(&self);
        }
        Self {
            fitted: self.fitted,
            cat_threshold: self.cat_threshold,
            hash_buckets: value,
            column_types: self.column_types,
            encoders: self.encoders,
        }
    }

    /// The (name, kind) pairs detected by the last fit, if any.
    pub fn column_types(&self) -> (r: Option<&[(String, ColumnType)]>)
        ensures
            r is Some <==> self.has_types(),
            r matches Some(v) ==> types_view(v@) == self.types(),
    {
        match &self.column_types {
            Some(v) => Some(v.as_slice()),
            None => None,
        }
    }
}

impl Default for AutoTypeDetector {
    fn default() -> (r: Self)
        ensures
            !r.is_fitted(),
            r.threshold() == 20,
            r.buckets() == 100,
    {
        Self::new()
    }
}

/// The frame of the single column `c` of `x`.
fn single(x: &Frame, c: &Series) -> (r: Frame)
    requires
        x@.columns.contains(c@),
    ensures
        r@ == select_spec(x@, seq![c@.name]),
        x@.has(c@.name),
        x@.col(c@.name) == c@,
{
    let mut names: Vec<String> = Vec::new();
    names.push(c.name.clone());
    let _ = x.height();
    proof {
        let i = choose|i: int| 0 <= i < x@.columns.len() && x@.columns[i] == c@;
        lemma_position_unique(x@.columns, c@.name, i);
        assert(strings_view(names@) =~= seq![c@.name]);
        assert(x@.has(strings_view(names@)[0]));
    }
    match x.select(&names) {
        Ok(f) => f,
        Err(_) => Frame::empty(),
    }
}

/// A single-column frame holds its column under its name.
proof fn lemma_single(x: FrameView, name: Seq<char>)
    requires
        x.has(name),
    ensures
        select_spec(x, seq![name]).has(name),
        select_spec(x, seq![name]).col(name) == x.col(name),
        select_spec(x, seq![name]).columns == seq![x.col(name)],
{
    let s = select_spec(x, seq![name]);
    lemma_position_of(x.columns, name);
    assert(s.columns =~= seq![x.col(name)]);
    assert(s.columns[0].name == name);
    lemma_position_of(s.columns, name);
}

/// The string columns of a single column.
proof fn lemma_string_columns_single(c: SeriesView)
    requires
        c.dtype == DType::Utf8,
    ensures
        string_columns(seq![c]).len() > 0 <==> has_strings(c),
{
    reveal_with_fuel(string_columns, 2);
    assert(seq![c].drop_last() =~= Seq::<SeriesView>::empty());
    assert(seq![c].last() == c);
    assert(string_columns(Seq::<SeriesView>::empty()) == Seq::<SeriesView>::empty());
}

/// The encoder found under a name is one of the registered encoders.
proof fn lemma_find_encoder_member(encs: Seq<(Seq<char>, FittedEncoder)>, name: Seq<char>)
    ensures
        find_encoder(encs, name) matches Some(e) ==> exists|k: int| 0 <= k < encs.len() && (#[trigger] encs[k]).1 == e,
    decreases encs.len(),
{
    if encs.len() > 0 && encs[0].0 != name {
        lemma_find_encoder_member(encs.drop_first(), name);
        if let Some(e) = find_encoder(encs, name) {
            let k = choose|k: int| 0 <= k < encs.drop_first().len() && (#[trigger] encs.drop_first()[k]).1 == e;
            assert(encs[k + 1].1 == e);
        }
    } else if encs.len() > 0 {
        assert(encs[0].1 == find_encoder(encs, name)->0);
    }
}

impl Fit<Frame> for AutoTypeDetector {
    type Output = ();

    open spec fn fits_to(&self, x: Frame, after: Self, r: Result<(), Error>) -> bool {
        &&& r is Ok <==> fit_accepts(x@, self.threshold(), self.buckets())
        &&& r matches Err(e) ==> e is Computation
        &&& r is Err ==> after == *self
        &&& r is Ok ==> after.is_fitted() && after.has_types()
            && after.threshold() == self.threshold()
            && after.buckets() == self.buckets()
            && after.types() == detected_types(x@.columns, self.threshold())
            && after.encs().len() == encoded_columns(x@.columns, self.threshold()).len()
            && forall|k: int| 0 <= k < after.encs().len() ==> {
                let c = encoded_columns(x@.columns, self.threshold())[k];
                &&& (#[trigger] after.encs()[k]).0 == c.name
                &&& encoder_for(after.encs()[k].1, c, x@.height, self.threshold(), self.buckets())
            }
    }

    /// Detect the kind of each column and fit its encoder.
    ///
    /// Fails with `Computation` when an encoder cannot be fitted: a
    /// categorical column of an empty frame or without any string, or hashing
    /// with zero buckets. A failed fit changes nothing.
    fn fit(&mut self, x: Frame) -> (r: Result<(), Error>) {
        proof {
            use_type_invariant(&*self);
        }
        let cols = x.columns();
        let ghost views = x@.columns;
        let ghost thr = self.cat_threshold as nat;
        let ghost nb = self.hash_buckets as nat;
        let mut types: Vec<(String, ColumnType)> = Vec::new();
        let mut encoders: Vec<(String, FittedEncoder)> = Vec::new();
        for i in 0..cols.len()
            invariant
                views == x@.columns,
                x@.wf(),
                cols.len() == views.len(),
                forall|k: int| 0 <= k < cols.len() ==> (#[trigger] cols@[k])@ == views[k],
                thr == self.cat_threshold,
                nb == self.hash_buckets,
                *self == *old(self),
                forall|k: int| 0 <= k < i ==> column_accepted(#[trigger] views[k], x@.height, thr, nb),
                types_view(types@) == detected_types(views.take(i as int), thr),
                encoders_view(encoders@).len() == encoded_columns(views.take(i as int), thr).len(),
                forall|k: int| 0 <= k < encoders@.len() ==> {
                    let c = encoded_columns(views.take(i as int), thr)[k];
                    &&& (#[trigger] encoders@[k]).0@ == c.name
                    &&& encoder_for(encoders@[k].1, c, x@.height, thr, nb)
                },
        {
            let col = &cols[i];
            let ghost c = views[i as int];
            proof {
                assert(col@ == c);
                assert(views.take(i + 1).drop_last() =~= views.take(i as int));
                assert(views.take(i + 1).last() == c);
                assert(views.contains(c));
            }
            let detected = if col.dtype == DType::Utf8 {
                let uniq = match column_unique_strings(col) {
                    Ok(u) => u,
                    Err(e) => {
                        return Err(Error::Computation(join3("could not read string column '", col.name.as_str(), "'")));
                    },
                };
                proof {
                    uniq.lemma_sorted();
                    let s = uniq.view_seq();
                    crate::order::lemma_sorted_distinct(s);
                    assert(s.no_duplicates());
                    s.unique_seq_to_set();
                    assert(s.to_set() =~= string_values(c));
                }
                if uniq.len() < self.cat_threshold {
                    ColumnType::Categorical
                } else {
                    ColumnType::HighCardinality
                }
            } else {
                ColumnType::Numeric
            };
            assert(detected == detect(c, thr));
            let ghost before = encoders_view(encoders@);
            match detected {
                ColumnType::Categorical => {
                    let sub = single(&x, col);
                    proof {
                        lemma_single(x@, c.name);
                        lemma_string_columns_single(c);
                        assert(sub@.columns =~= seq![c]);
                        assert(all_utf8(sub@.columns));
                    }
                    let mut enc = OneHotEncoder::new();
                    match enc.fit(sub) {
                        Ok(_) => {},
                        Err(e) => {
                            let head = join3("AutoType.fit: one-hot failed on '", col.name.as_str(), "': ");
                            return Err(Error::Computation(concat(head.as_str(), e.message().as_str())));
                        },
                    }
                    encoders.push((col.name.clone(), FittedEncoder::OneHot(enc)));
                },
                ColumnType::HighCardinality => {
                    let sub = single(&x, col);
                    proof {
                        lemma_single(x@, c.name);
                    }
                    let mut names: [&str; 1] = [col.name.as_str()];
                    let mut fh = FeatureHasher::new(&names, self.hash_buckets);
                    proof {
                        assert(fh.selected() =~= seq![c.name]);
                        assert(all_strings(sub@, seq![c.name]));
                    }
                    match fh.fit(sub) {
                        Ok(_) => {},
                        Err(e) => {
                            let head = join3("AutoType.fit: hashing failed on '", col.name.as_str(), "': ");
                            return Err(Error::Computation(concat(head.as_str(), e.message().as_str())));
                        },
                    }
                    encoders.push((col.name.clone(), FittedEncoder::Hashed(fh)));
                },
                ColumnType::Numeric => {},
            }
            let ghost tv = types_view(types@);
            types.push((col.name.clone(), detected));
            proof {
                assert(types_view(types@) =~= tv.push((c.name, detected)));
                assert(detected_types(views.take(i + 1), thr) =~= detected_types(views.take(i as int), thr).push((c.name, detect(c, thr))));
                let now = encoded_columns(views.take(i + 1), thr);
                let prev = encoded_columns(views.take(i as int), thr);
                if detected is Numeric {
                    assert(now == prev);
                } else {
                    assert(now == prev.push(c));
                    assert(encoders_view(encoders@) =~= before.push((c.name, encoders@.last().1)));
                    assert(encoders@[encoders@.len() - 1].0@ == c.name);
                }
            }
        }
        proof {
            assert(views.take(cols.len() as int) =~= views);
            assert forall|k: int| 0 <= k < encoders@.len() implies encoder_fitted(#[trigger] encoders@[k].1) by {
                let c = encoded_columns(views, thr)[k];
                assert(encoder_for(encoders@[k].1, c, x@.height, thr, nb));
            }
        }
        self.encoders = Some(encoders);
        self.column_types = Some(types);
        self.fitted = true;
        Ok(())
    }
}

/// The first encoder registered under `name`, looked up by string equality.
fn lookup_encoder<'a>(encs: &'a Vec<(String, FittedEncoder)>, name: &str) -> (r: Option<&'a FittedEncoder>)
    ensures
        match r {
            Some(e) => find_encoder(encoders_view(encs@), name@) == Some(*e),
            None => find_encoder(encoders_view(encs@), name@) is None,
        },
{
    let ghost ev = encoders_view(encs@);
    assert(ev.skip(0) =~= ev);
    for k in 0..encs.len()
        invariant
            ev == encoders_view(encs@),
            find_encoder(ev, name@) == find_encoder(ev.skip(k as int), name@),
    {
        proof {
            assert(ev.skip(k as int)[0] == ev[k as int]);
            assert(ev.skip(k as int).drop_first() =~= ev.skip(k + 1));
        }
        if str_eq(encs[k].0.as_str(), name) {
            return Some(&encs[k].1);
        }
    }
    assert(ev.skip(encs.len() as int) =~= Seq::<(Seq<char>, FittedEncoder)>::empty());
    None
}

/// The output of encoder `e` on the single-column frame `sub`.
fn run_encoder(e: &FittedEncoder, sub: Frame) -> (r: Option<Vec<Series>>)
    requires
        encoder_fitted(*e),
        sub@.wf(),
    ensures
        match r {
            Some(v) => encoder_output(*e, sub@) == Some(series_views(v@)) && all_of_height(series_views(v@), sub@.height)
                && all_fit(series_views(v@)),
            None => encoder_output(*e, sub@) is None,
        },
{
    let ghost sv = sub@;
    let out = match e {
        FittedEncoder::OneHot(enc) => enc.transform(sub),
        FittedEncoder::Hashed(h) => h.transform(sub),
    };
    match out {
        Ok(f) => {
            let v = f.copy_columns();
            Some(v)
        },
        Err(_) => None,
    }
}

impl Transform<Frame> for AutoTypeDetector {
    type Output = Frame;

    /// The encoded columns, type by type, then the numeric columns of `x`.
    ///
    /// Fails with `NotFitted` before a fit, and with `Computation` when an
    /// encoded column is missing or its encoder fails, when there is no
    /// output column, or when two output columns share a name. A numeric
    /// column missing from `x` is left out.
    fn transform(&self, x: Frame) -> (r: Result<Frame, Error>)
        ensures
            !self.is_fitted() ==> r matches Err(Error::NotFitted(_)),
            self.is_fitted() ==> (r matches Err(e) ==> e is Computation),
            self.is_fitted() ==> match assemble(x@, self.types(), self.encs()) {
                None => r is Err,
                Some(parts) => {
                    let cols = parts.0 + parts.1;
                    if cols.len() > 0 && distinct_names(cols) {
                        r matches Ok(f) && f@ == (FrameView { height: x@.height, columns: cols })
                    } else {
                        r is Err
                    }
                },
            },
    {
        proof {
            use_type_invariant(self);
        }
        if !self.fitted {
            return Err(Error::NotFitted(owned("AutoTypeDetector")));
        }
        let types = match &self.column_types {
            Some(t) => t,
            None => {
                return Err(Error::NotFitted(owned("AutoTypeDetector has not been fitted.")));
            },
        };
        let encoders = match &self.encoders {
            Some(e) => e,
            None => {
                return Err(Error::NotFitted(owned("AutoTypeDetector has not been fitted.")));
            },
        };
        let height = x.height();
        let ghost tv = types_view(types@);
        let ghost ev = encoders_view(encoders@);
        let mut encoded: Vec<Series> = Vec::new();
        let mut numeric: Vec<Series> = Vec::new();
        for i in 0..types.len()
            invariant
                tv == types_view(types@),
                ev == encoders_view(encoders@),
                tv == self.types(),
                ev == self.encs(),
                self.fitted,
                forall|k: int| 0 <= k < encoders@.len() ==> encoder_fitted(#[trigger] encoders@[k].1),
                x@.wf(),
                height == x@.height,
                assemble(x@, tv.take(i as int), ev) == Some((series_views(encoded@), series_views(numeric@))),
                all_of_height(series_views(encoded@), height as nat),
                all_fit(series_views(encoded@)),
                all_of_height(series_views(numeric@), height as nat),
                all_fit(series_views(numeric@)),
        {
            let name = types[i].0.as_str();
            let ghost pre_enc = series_views(encoded@);
            let ghost pre_num = series_views(numeric@);
            proof {
                assert(tv.take(i + 1).drop_last() =~= tv.take(i as int));
                assert(tv.take(i + 1).last() == tv[i as int]);
                assert(tv[i as int].0 == name@);
                lemma_position_of(x@.columns, name@);
            }
            match types[i].1 {
                ColumnType::Numeric => {
                    match x.column(name) {
                        Some(c) => {
                            numeric.push(c.copy());
                            proof {
                                assert(series_views(numeric@) =~= pre_num.push(x@.col(name@)));
                                let p = crate::frame::position_of(x@.columns, name@)->0;
                                assert(x@.columns[p].cells_fit());
                                assert(assemble(x@, tv.take(i + 1), ev) == Some((series_views(encoded@), series_views(numeric@))));
                            }
                        },
                        None => {
                            assert(assemble(x@, tv.take(i + 1), ev) == Some((series_views(encoded@), series_views(numeric@))));
                        },
                    }
                },
                _ => {
                    let enc = match lookup_encoder(encoders, name) {
                        Some(e) => e,
                        None => {
                            proof {
                                lemma_assemble_none(x@, tv, ev, i as int + 1);
                            }
                            return Err(Error::Computation(join3("AutoTypeDetector: no fitted encoder for column '", name, "'")));
                        },
                    };
                    proof {
                        lemma_find_encoder_member(ev, name@);
                        let k = choose|k: int| 0 <= k < ev.len() && (#[trigger] ev[k]).1 == *enc;
                        assert(encoders@[k].1 == ev[k].1);
                    }
                    let mut names: Vec<String> = Vec::new();
                    names.push(types[i].0.clone());
                    assert(strings_view(names@) =~= seq![name@]);
                    let sub = match x.select(&names) {
                        Ok(s) => s,
                        Err(_) => {
                            proof {
                                lemma_assemble_none(x@, tv, ev, i as int + 1);
                            }
                            return Err(Error::Computation(join3("AutoTypeDetector.transform: column '", name, "' not found.")));
                        },
                    };
                    let _ = sub.height();
                    let cs = match run_encoder(enc, sub) {
                        Some(v) => v,
                        None => {
                            proof {
                                lemma_assemble_none(x@, tv, ev, i as int + 1);
                            }
                            let head = join3("AutoTypeDetector.transform: '", name, "' failed.");
                            return Err(Error::Computation(head));
                        },
                    };
                    let mut cs = cs;
                    let ghost added = series_views(cs@);
                    encoded.append(&mut cs);
                    proof {
                        assert(series_views(encoded@) =~= pre_enc + added);
                        assert(sub@ == select_spec(x@, seq![name@]));
                        assert(x@.has(strings_view(names@)[0]));
                        assert(x@.has(name@));
                        assert(assemble(x@, tv.take(i + 1), ev) == Some((series_views(encoded@), series_views(numeric@))));
                    }
                },
            }
        }
        proof {
            assert(tv.take(types.len() as int) =~= tv);
        }
        let ghost all = series_views(encoded@) + series_views(numeric@);
        let mut numeric = numeric;
        encoded.append(&mut numeric);
        assert(series_views(encoded@) =~= all);
        if encoded.len() == 0 {
            return Err(Error::Computation(owned("AutoTypeDetector produced no output columns.")));
        }
        match Frame::new(height, encoded) {
            Ok(f) => Ok(f),
            Err(_) => Err(Error::Computation(owned("AutoTypeDetector: output columns could not be stacked."))),
        }
    }
}

/// A numeric column present in the frame passes through unchanged and is
/// the only thing its type contributes.
pub proof fn law_numeric_passes_through(x: FrameView, name: Seq<char>, encs: Seq<(Seq<char>, FittedEncoder)>)
    requires
        x.has(name),
    ensures
        assemble(x, seq![(name, ColumnType::Numeric)], encs) == Some((Seq::<SeriesView>::empty(), seq![x.col(name)])),
{
    let t = seq![(name, ColumnType::Numeric)];
    assert(t.drop_last() =~= Seq::<(Seq<char>, ColumnType)>::empty());
    assert(t.last() == (name, ColumnType::Numeric));
    assert(assemble(x, t.drop_last(), encs) == Some((Seq::<SeriesView>::empty(), Seq::<SeriesView>::empty())));
    assert(Seq::<SeriesView>::empty().push(x.col(name)) =~= seq![x.col(name)]);
}

/// The output is built type by type: for two lists of detected types that
/// each succeed, their concatenation gives the encoded columns of the first
/// then of the second, and the passed-through columns of the first then of
/// the second. Nothing one type gives is lost by a later one.
pub proof fn law_assemble_concat(
    x: FrameView,
    t1: Seq<(Seq<char>, ColumnType)>,
    t2: Seq<(Seq<char>, ColumnType)>,
    encs: Seq<(Seq<char>, FittedEncoder)>,
)
    requires
        assemble(x, t1, encs) is Some,
        assemble(x, t2, encs) is Some,
    ensures
        assemble(x, t1 + t2, encs) == Some((
            (assemble(x, t1, encs)->0).0 + (assemble(x, t2, encs)->0).0,
            (assemble(x, t1, encs)->0).1 + (assemble(x, t2, encs)->0).1,
        )),
    decreases t2.len(),
{
    let a = assemble(x, t1, encs)->0;
    if t2.len() == 0 {
        assert(t1 + t2 =~= t1);
        assert(a.0 + Seq::<SeriesView>::empty() =~= a.0);
        assert(a.1 + Seq::<SeriesView>::empty() =~= a.1);
    } else {
        let pre = t2.drop_last();
        assert(assemble(x, pre, encs) is Some);
        law_assemble_concat(x, t1, pre, encs);
        let b0 = assemble(x, pre, encs)->0;
        let b = assemble(x, t2, encs)->0;
        assert((t1 + t2).drop_last() =~= t1 + pre);
        assert((t1 + t2).last() == t2.last());
        let name = t2.last().0;
        if t2.last().1 is Numeric {
            if x.has(name) {
                assert(a.1 + b0.1.push(x.col(name)) =~= (a.1 + b0.1).push(x.col(name)));
            }
        } else {
            let e = find_encoder(encs, name)->0;
            let cs = encoder_output(e, select_spec(x, seq![name]))->0;
            assert(a.0 + (b0.0 + cs) =~= (a.0 + b0.0) + cs);
        }
    }
}

/// The encoded columns are exactly the columns not detected as numeric,
/// each once, in column order.
pub proof fn law_encoded_columns_filter(s: Seq<SeriesView>, threshold: nat)
    ensures
        encoded_columns(s, threshold) == s.filter_map(|c: SeriesView| if detect(c, threshold) is Numeric { None } else { Some(c) }),
    decreases s.len(),
{
    if s.len() > 0 {
        law_encoded_columns_filter(s.drop_last(), threshold);
        let rest = encoded_columns(s.drop_last(), threshold);
        assert forall|v: SeriesView| #[trigger] rest.push(v) == rest + seq![v] by {
            assert(rest.push(v) =~= rest + seq![v]);
        }
    }
}

/// A string column is categorical exactly when it has fewer distinct values
/// than the threshold: at the threshold it is already high-cardinality.
/// Every other column is numeric.
pub proof fn law_detect_threshold(c: SeriesView, threshold: nat)
    ensures
        c.dtype != DType::Utf8 ==> detect(c, threshold) is Numeric,
        c.dtype == DType::Utf8 && string_values(c).len() < threshold ==> detect(c, threshold) is Categorical,
        c.dtype == DType::Utf8 && string_values(c).len() >= threshold ==> detect(c, threshold) is HighCardinality,
{
}

} // verus!

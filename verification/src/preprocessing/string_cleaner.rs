//! Configurable cleaning for string columns.
//!
//! [`StringCleaner`] applies a fixed sequence of operations to selected
//! `Utf8` columns: trim leading and trailing white space, collapse runs of
//! white space, normalize case, then apply regular-expression replacements in
//! declaration order. Other columns and null cells are kept as they are.

use vstd::prelude::*;
use regex::Regex;
use crate::frame::{
    CellView, DType, Frame, FrameView, Series, SeriesView, Value, copy_cell, opt_view,
    with_column_spec, strings_view, lemma_position_of,
};
use crate::text::{owned, concat, join3, chars_of, push_char, push_chars, dedup_strings, owned_all, dedup_first, joined};
use crate::traits::{Error, Fit, Transform};

verus! {

/// Whether `c` has the Unicode `White_Space` property: tab to carriage
/// return, space, next line, no-break space, ogham space mark, the spaces from
/// en quad to hair space, line and paragraph separator, narrow no-break space,
/// medium mathematical space and ideographic space.
pub open spec fn white_space(c: char) -> bool {
    let u = c as u32;
    ||| 0x9 <= u <= 0xD
    ||| u == 0x20
    ||| u == 0x85
    ||| u == 0xA0
    ||| u == 0x1680
    ||| 0x2000 <= u <= 0x200A
    ||| u == 0x2028
    ||| u == 0x2029
    ||| u == 0x202F
    ||| u == 0x205F
    ||| u == 0x3000
}

/// The characters that `char::to_uppercase` yields for `c`.
pub uninterp spec fn char_upper(c: char) -> Seq<char>;

/// The characters that `char::to_lowercase` yields for `c`.
pub uninterp spec fn char_lower(c: char) -> Seq<char>;

/// What `str::to_lowercase` returns for `s`.
pub uninterp spec fn lowercase(s: Seq<char>) -> Seq<char>;

/// What `str::to_uppercase` returns for `s`.
pub uninterp spec fn uppercase(s: Seq<char>) -> Seq<char>;

/// Whether `regex::Regex::new` accepts `pattern`.
pub uninterp spec fn regex_compiles(pattern: Seq<char>) -> bool;

/// What `replace_all(text, replacement)` returns on the regex that
/// `regex::Regex::new` compiles from `pattern`.
pub uninterp spec fn regex_replaced(pattern: Seq<char>, text: Seq<char>, replacement: Seq<char>) -> Seq<char>;

/// Whether `c` is white space, as `char::is_whitespace` decides it.
fn is_white_space(c: char) -> (r: bool)
    ensures
        r == white_space(c),
{
    let u = c as u32;
    (0x9 <= u && u <= 0xD) || u == 0x20 || u == 0x85 || u == 0xA0 || u == 0x1680 || (0x2000 <= u && u <= 0x200A)
        || u == 0x2028 || u == 0x2029 || u == 0x202F || u == 0x205F || u == 0x3000
}

/// `char::to_uppercase`, collected: the result is `char_upper(c)`.
#[verifier::external_body]
fn upper_chars(c: char) -> (r: Vec<char>)
    ensures
        r@ == char_upper(c),
{
    c.to_uppercase().collect()
}

/// `char::to_lowercase`, collected: the result is `char_lower(c)`.
#[verifier::external_body]
fn lower_chars(c: char) -> (r: Vec<char>)
    ensures
        r@ == char_lower(c),
{
    c.to_lowercase().collect()
}

/// `str::to_lowercase`: the result is `lowercase(s)`.
#[verifier::external_body]
fn to_lowercase(s: &str) -> (r: String)
    ensures
        r@ == lowercase(s@),
{
    s.to_lowercase()
}

/// `str::to_uppercase`: the result is `uppercase(s)`.
#[verifier::external_body]
fn to_uppercase(s: &str) -> (r: String)
    ensures
        r@ == uppercase(s@),
{
    s.to_uppercase()
}

/// `regex::Regex::new`: `Ok` exactly when `pattern` compiles. The error is
/// handed back as its display text, whose wording is left unstated.
#[verifier::external_body]
fn check_regex(pattern: &str) -> (r: Result<(), String>)
    ensures
        r is Ok <==> regex_compiles(pattern@),
{
    match Regex::new(pattern) {
        Ok(_) => Ok(()),
        Err(e) => Err(e.to_string()),
    }
}

/// `regex::Regex::replace_all` on every text, with the regex compiled once
/// from `pattern` by `regex::Regex::new`. Each result is
/// `regex_replaced(pattern, text, replacement)`.
#[verifier::external_body]
fn regex_replace_all(pattern: &str, texts: &Vec<String>, replacement: &str) -> (r: Vec<String>)
    requires
        regex_compiles(pattern@),
    ensures
        r.len() == texts.len(),
        forall|k: int| 0 <= k < r.len() ==> (#[trigger] r@[k])@ == regex_replaced(pattern@, texts@[k]@, replacement@),
{
    match Regex::new(pattern) {
        Ok(re) => {
            let mut out = Vec::with_capacity(texts.len());
            for t in texts {
                out.push(re.replace_all(t, replacement).into_owned());
            }
            out
        },
        Err(_) => texts.clone(),
    }
}

/// The pattern that matches a run of white space.
pub open spec fn white_space_run() -> Seq<char> {
    "\\s+"@
}

/// `s` without its leading white space.
pub open spec fn trim_start(s: Seq<char>) -> Seq<char>
    decreases s.len(),
{
    if s.len() > 0 && white_space(s[0]) {
        trim_start(s.drop_first())
    } else {
        s
    }
}

/// `s` without its trailing white space.
pub open spec fn trim_end(s: Seq<char>) -> Seq<char>
    decreases s.len(),
{
    if s.len() > 0 && white_space(s.last()) {
        trim_end(s.drop_last())
    } else {
        s
    }
}

/// `s` without its leading and trailing white space (`str::trim`).
pub open spec fn trimmed(s: Seq<char>) -> Seq<char> {
    trim_end(trim_start(s))
}

/// The maximal runs of non-white-space characters of `s`, in order
/// (`str::split_whitespace`).
pub open spec fn words(s: Seq<char>) -> Seq<Seq<char>>
    decreases s.len(),
{
    if s.len() == 0 {
        Seq::empty()
    } else {
        let w = words(s.drop_last());
        let c = s.last();
        if white_space(c) {
            w
        } else if s.len() > 1 && !white_space(s[s.len() - 2]) {
            w.update(w.len() - 1, w.last().push(c))
        } else {
            w.push(seq![c])
        }
    }
}

/// Every character of `cs` lowercased, one after the other.
pub open spec fn lower_all(cs: Seq<char>) -> Seq<char>
    decreases cs.len(),
{
    if cs.len() == 0 {
        Seq::empty()
    } else {
        lower_all(cs.drop_last()) + char_lower(cs.last())
    }
}

/// `w` with its first character uppercased and the rest lowercased.
pub open spec fn capitalized(w: Seq<char>) -> Seq<char> {
    if w.len() == 0 {
        Seq::empty()
    } else {
        char_upper(w[0]) + lower_all(w.drop_first())
    }
}

/// The capitalized words of `s` joined with `sep`.
pub open spec fn title_case(s: Seq<char>, sep: Seq<char>) -> Seq<char> {
    joined(words(s).map_values(|w: Seq<char>| capitalized(w)), sep)
}

/// Case normalization applied to each non-null string.
#[derive(Clone, Copy, Debug, PartialEq, Eq, Structural)]
pub enum CaseStyle {
    /// Preserve the original casing.
    Original,
    /// Convert all characters to lowercase using Unicode case conversion.
    Lower,
    /// Convert all characters to uppercase using Unicode case conversion.
    Upper,
    /// Capitalize each whitespace-separated word and join words with one space.
    Title,
    /// Capitalize each whitespace-separated word and join the words directly
    /// (`"hello world"` becomes `"HelloWorld"`).
    Camel,
}

impl Default for CaseStyle {
    fn default() -> (r: Self)
        ensures
            r == CaseStyle::Original,
    {
        CaseStyle::Original
    }
}

/// `s` in the case `style` asks for.
pub open spec fn case_applied(style: CaseStyle, s: Seq<char>) -> Seq<char> {
    match style {
        CaseStyle::Original => s,
        CaseStyle::Lower => lowercase(s),
        CaseStyle::Upper => uppercase(s),
        CaseStyle::Title => title_case(s, " "@),
        CaseStyle::Camel => title_case(s, ""@),
    }
}

/// `s` after the replacements `rules` (pattern, replacement), in order.
pub open spec fn replaced_in_order(rules: Seq<(Seq<char>, Seq<char>)>, s: Seq<char>) -> Seq<char>
    decreases rules.len(),
{
    if rules.len() == 0 {
        s
    } else {
        regex_replaced(rules.last().0, replaced_in_order(rules.drop_last(), s), rules.last().1)
    }
}

/// The configured cleaning operations.
pub ghost struct CleaningSteps {
    /// Trim leading and trailing white space.
    pub trim: bool,
    /// Collapse each run of white space to one space.
    pub collapse: bool,
    /// Case normalization.
    pub style: CaseStyle,
    /// Regex replacements (pattern, replacement), in declaration order.
    pub rules: Seq<(Seq<char>, Seq<char>)>,
}

impl CleaningSteps {
    /// A string after all the steps, in their fixed order.
    pub open spec fn apply(self, s: Seq<char>) -> Seq<char> {
        let t = if self.trim { trimmed(s) } else { s };
        let c = if self.collapse { regex_replaced(white_space_run(), t, " "@) } else { t };
        replaced_in_order(self.rules, case_applied(self.style, c))
    }

    /// Every regex the steps use compiles.
    pub open spec fn patterns_compile(self) -> bool {
        &&& (self.collapse ==> regex_compiles(white_space_run()))
        &&& forall|j: int| 0 <= j < self.rules.len() ==> regex_compiles(#[trigger] self.rules[j].0)
    }
}

/// A cleaned cell: strings go through the steps, anything else is kept.
pub open spec fn cleaned_cell(x: Option<CellView>, steps: CleaningSteps) -> Option<CellView> {
    match x {
        Some(CellView::Str(s)) => Some(CellView::Str(steps.apply(s))),
        _ => x,
    }
}

/// A column with every string cleaned.
pub open spec fn cleaned_series(c: SeriesView, steps: CleaningSteps) -> SeriesView {
    SeriesView {
        name: c.name,
        dtype: c.dtype,
        cells: c.cells.map_values(|x: Option<CellView>| cleaned_cell(x, steps)),
    }
}

/// The frame after cleaning `cols` one by one, each looked up in the frame
/// built so far; `None` when a column is missing or does not hold strings.
pub open spec fn clean_all(f: FrameView, cols: Seq<Seq<char>>, steps: CleaningSteps) -> Option<FrameView>
    decreases cols.len(),
{
    if cols.len() == 0 {
        Some(f)
    } else {
        match clean_all(f, cols.drop_last(), steps) {
            None => None,
            Some(g) => if g.has(cols.last()) && g.col(cols.last()).dtype == DType::Utf8 {
                Some(with_column_spec(g, cleaned_series(g.col(cols.last()), steps)))
            } else {
                None
            },
        }
    }
}

/// Once a prefix fails, every longer prefix fails.
proof fn lemma_clean_none(f: FrameView, cols: Seq<Seq<char>>, steps: CleaningSteps, n: int)
    requires
        0 <= n <= cols.len(),
        clean_all(f, cols.take(n), steps) is None,
    ensures
        clean_all(f, cols, steps) is None,
    decreases cols.len() - n,
{
    if n < cols.len() {
        assert(cols.take(n + 1).drop_last() =~= cols.take(n));
        lemma_clean_none(f, cols, steps, n + 1);
    } else {
        assert(cols.take(n) =~= cols);
    }
}

/// `s` without leading and trailing white space.
pub fn trim_ws(s: &str) -> (r: String)
    ensures
        r@ == trimmed(s@),
{
    let cs = chars_of(s);
    let n = cs.len();
    let mut a: usize = 0;
    assert(s@.skip(0) =~= s@);
    while a < n && is_white_space(cs[a])
        invariant
            a <= n,
            n == cs.len(),
            cs@ == s@,
            trim_start(s@) == trim_start(s@.skip(a as int)),
        decreases n - a,
    {
        assert(s@.skip(a as int).drop_first() =~= s@.skip(a + 1));
        a = a + 1;
    }
    let ghost front = s@.skip(a as int);
    assert(trim_start(s@) == front) by {
        if a < n {
            assert(front[0] == s@[a as int]);
        } else {
            assert(front.len() == 0);
        }
    }
    let mut b: usize = n;
    while b > a && is_white_space(cs[b - 1])
        invariant
            a <= b <= n,
            n == cs.len(),
            cs@ == s@,
            front == s@.skip(a as int),
            trim_end(front) == trim_end(s@.subrange(a as int, b as int)),
        decreases b,
    {
        assert(s@.subrange(a as int, b as int).drop_last() =~= s@.subrange(a as int, b - 1));
        b = b - 1;
    }
    proof {
        if a == 0 && b == n {
        }
        assert(s@.subrange(a as int, n as int) =~= front);
    }
    let mut out = String::new();
    for k in a..b
        invariant
            a <= b <= n,
            n == cs.len(),
            cs@ == s@,
            out@ == s@.subrange(a as int, k as int),
    {
        push_char(&mut out, cs[k]);
        assert(s@.subrange(a as int, k + 1) =~= s@.subrange(a as int, k as int).push(s@[k as int]));
    }
    proof {
        let mid = s@.subrange(a as int, b as int);
        if b > a {
            assert(mid.last() == s@[b - 1]);
        }
        assert(trim_end(mid) == mid);
    }
    out
}

/// The words of `s` (maximal runs of non-white-space characters).
fn split_words(s: &str) -> (r: Vec<Vec<char>>)
    ensures
        r@.map_values(|w: Vec<char>| w@) == words(s@),
{
    let cs = chars_of(s);
    let mut done: Vec<Vec<char>> = Vec::new();
    let mut cur: Vec<char> = Vec::new();
    for i in 0..cs.len()
        invariant
            cs@ == s@,
            words(s@.take(i as int)) == (if cur.len() > 0 {
                done@.map_values(|w: Vec<char>| w@).push(cur@)
            } else {
                done@.map_values(|w: Vec<char>| w@)
            }),
            cur.len() > 0 <==> (i > 0 && !white_space(s@[i - 1])),
    {
        let c = cs[i];
        let ghost pre = s@.take(i as int);
        let ghost d = done@.map_values(|w: Vec<char>| w@);
        proof {
            assert(s@.take(i + 1).drop_last() =~= pre);
            assert(s@.take(i + 1).last() == c);
            if i > 0 {
                assert(s@.take(i + 1)[i - 1] == s@[i - 1]);
            }
        }
        if is_white_space(c) {
            if cur.len() > 0 {
                let w = cur;
                done.push(w);
                cur = Vec::new();
                assert(done@.map_values(|w: Vec<char>| w@) =~= d.push(w@));
            }
        } else {
            let ghost old_cur = cur@;
            cur.push(c);
            proof {
                if old_cur.len() > 0 {
                    assert(d.push(old_cur).update(d.len() as int, old_cur.push(c)) =~= d.push(cur@));
                } else {
                    assert(cur@ =~= seq![c]);
                }
            }
        }
    }
    proof {
        assert(s@.take(cs.len() as int) =~= s@);
    }
    if cur.len() > 0 {
        let ghost d = done@.map_values(|w: Vec<char>| w@);
        let w = cur;
        done.push(w);
        assert(done@.map_values(|w: Vec<char>| w@) =~= d.push(w@));
    }
    done
}

/// `w` with its first character uppercased and the rest lowercased.
fn capitalize(w: &Vec<char>) -> (r: Vec<char>)
    ensures
        r@ == capitalized(w@),
{
    if w.len() == 0 {
        return Vec::new();
    }
    let mut out = upper_chars(w[0]);
    for i in 1..w.len()
        invariant
            w.len() > 0,
            out@ == char_upper(w@[0]) + lower_all(w@.subrange(1, i as int)),
    {
        let mut low = lower_chars(w[i]);
        proof {
            let t = w@.subrange(1, i + 1);
            assert(t.drop_last() =~= w@.subrange(1, i as int));
            assert(t.last() == w@[i as int]);
        }
        let ghost before = out@;
        out.append(&mut low);
        assert(out@ =~= char_upper(w@[0]) + lower_all(w@.subrange(1, i + 1)));
    }
    assert(w@.subrange(1, w.len() as int) =~= w@.drop_first());
    out
}

/// The capitalized words of `s` joined with `sep`.
fn title(s: &str, sep: &str) -> (r: String)
    ensures
        r@ == title_case(s@, sep@),
{
    let ws = split_words(s);
    let ghost parts = words(s@).map_values(|w: Seq<char>| capitalized(w));
    let mut out = String::new();
    for j in 0..ws.len()
        invariant
            ws@.map_values(|w: Vec<char>| w@) == words(s@),
            parts == words(s@).map_values(|w: Seq<char>| capitalized(w)),
            out@ == joined(parts.take(j as int), sep@),
    {
        let cap = capitalize(&ws[j]);
        proof {
            let t = parts.take(j + 1);
            assert(t.drop_last() =~= parts.take(j as int));
            assert(ws@.map_values(|w: Vec<char>| w@)[j as int] == ws@[j as int]@);
            assert(t.last() == cap@);
            if j == 0 {
                assert(t.len() == 1);
            }
        }
        let ghost before = out@;
        if j > 0 {
            crate::text::push_str(&mut out, sep);
        }
        push_chars(&mut out, &cap);
        proof {
            if j == 0 {
                assert(out@ =~= cap@);
            } else {
                assert(out@ =~= before + sep@ + cap@);
            }
        }
    }
    proof {
        assert(parts.take(ws.len() as int) =~= parts);
    }
    out
}

/// Every text trimmed.
fn trim_each(texts: &Vec<String>) -> (r: Vec<String>)
    ensures
        r.len() == texts.len(),
        forall|k: int| 0 <= k < r.len() ==> (#[trigger] r@[k])@ == trimmed(texts@[k]@),
{
    let mut out: Vec<String> = Vec::new();
    for k in 0..texts.len()
        invariant
            out.len() == k,
            forall|i: int| 0 <= i < k ==> (#[trigger] out@[i])@ == trimmed(texts@[i]@),
    {
        out.push(trim_ws(texts[k].as_str()));
    }
    out
}

/// Every text in the case `style` asks for.
fn case_each(style: CaseStyle, texts: &Vec<String>) -> (r: Vec<String>)
    ensures
        r.len() == texts.len(),
        forall|k: int| 0 <= k < r.len() ==> (#[trigger] r@[k])@ == case_applied(style, texts@[k]@),
{
    let mut out: Vec<String> = Vec::new();
    for k in 0..texts.len()
        invariant
            out.len() == k,
            forall|i: int| 0 <= i < k ==> (#[trigger] out@[i])@ == case_applied(style, texts@[i]@),
    {
        let t = texts[k].as_str();
        let c = match style {
            CaseStyle::Original => owned(t),
            CaseStyle::Lower => to_lowercase(t),
            CaseStyle::Upper => to_uppercase(t),
            CaseStyle::Title => title(t, " "),
            CaseStyle::Camel => title(t, ""),
        };
        out.push(c);
    }
    out
}

/// A regular-expression replacement applied by [`StringCleaner`].
#[derive(Clone, Debug)]
pub struct StringReplacement {
    /// Rust `regex` pattern to match.
    pub pattern: String,
    /// Replacement text; capture references such as `$1` are supported.
    pub replacement: String,
}

/// The (pattern, replacement) pairs of a list of replacements.
pub open spec fn rules_view(v: Seq<StringReplacement>) -> Seq<(Seq<char>, Seq<char>)> {
    v.map_values(|r: StringReplacement| (r.pattern@, r.replacement@))
}

/// The text held by a cell, or the empty text for anything but a string.
pub open spec fn text_of(x: Option<CellView>) -> Seq<char> {
    match x {
        Some(CellView::Str(s)) => s,
        _ => Seq::empty(),
    }
}

/// Normalize values in selected `Utf8` columns.
///
/// Operations run in this order: trim, collapse internal white space, case
/// normalization, then configured regex replacements in declaration order.
/// Regexes are validated during [`fit`](Fit::fit).
pub struct StringCleaner {
    fitted: bool,
    columns: Vec<String>,
    trim: bool,
    collapse_internal_ws: bool,
    case_style: CaseStyle,
    replacements: Vec<StringReplacement>,
}

impl StringCleaner {
    #[verifier::type_invariant]
    spec fn inv(&self) -> bool {
        self.fitted ==> self.steps().patterns_compile()
    }

    /// Whether a fit has succeeded since the last configuration change.
    pub closed spec fn is_fitted(&self) -> bool {
        self.fitted
    }

    /// The selected columns.
    pub closed spec fn selected(&self) -> Seq<Seq<char>> {
        strings_view(self.columns@)
    }

    /// The configured operations.
    pub closed spec fn steps(&self) -> CleaningSteps {
        CleaningSteps {
            trim: self.trim,
            collapse: self.collapse_internal_ws,
            style: self.case_style,
            rules: rules_view(self.replacements@),
        }
    }

    /// A cleaner that changes nothing, with no columns selected.
    pub fn new() -> (r: Self)
        ensures
            !r.is_fitted(),
            r.selected().len() == 0,
            r.steps() == (CleaningSteps { trim: false, collapse: false, style: CaseStyle::Original, rules: Seq::empty() }),
    {
        let r = Self {
            fitted: false,
            columns: Vec::new(),
            trim: false,
            collapse_internal_ws: false,
            case_style: CaseStyle::Original,
            replacements: Vec::new(),
        };
        assert(r.steps().rules =~= Seq::<(Seq<char>, Seq<char>)>::empty());
        r
    }

    /// Select the `Utf8` columns to clean; a repeated name is kept once.
    /// Invalidates any previous fit.
    pub fn columns(self, cols: &[&str]) -> (r: Self)
        ensures
            !r.is_fitted(),
            r.steps() == self.steps(),
            r.selected() == dedup_first(cols@.map_values(|s: &str| s@)),
    {
        let all = owned_all(cols);
        let out = dedup_strings(&all);
        Self {
            fitted: false,
            columns: out,
            trim: self.trim,
            collapse_internal_ws: self.collapse_internal_ws,
            case_style: self.case_style,
            replacements: self.replacements,
        }
    }

    /// Trim leading and trailing white space. Invalidates any previous fit.
    pub fn trim(self) -> (r: Self)
        ensures
            !r.is_fitted(),
            r.selected() == self.selected(),
            r.steps() == (CleaningSteps { trim: true, ..self.steps() }),
    {
        Self {
            fitted: false,
            columns: self.columns,
            trim: true,
            collapse_internal_ws: self.collapse_internal_ws,
            case_style: self.case_style,
            replacements: self.replacements,
        }
    }

    /// Collapse each run of white space to one ASCII space. Invalidates any
    /// previous fit.
    pub fn collapse_internal_ws(self) -> (r: Self)
        ensures
            !r.is_fitted(),
            r.selected() == self.selected(),
            r.steps() == (CleaningSteps { collapse: true, ..self.steps() }),
    {
        Self {
            fitted: false,
            columns: self.columns,
            trim: self.trim,
            collapse_internal_ws: true,
            case_style: self.case_style,
            replacements: self.replacements,
        }
    }

    /// Set the case normalization style. Invalidates any previous fit.
    pub fn case_style(self, case_style: CaseStyle) -> (r: Self)
        ensures
            !r.is_fitted(),
            r.selected() == self.selected(),
            r.steps() == (CleaningSteps { style: case_style, ..self.steps() }),
    {
        Self {
            fitted: false,
            columns: self.columns,
            trim: self.trim,
            collapse_internal_ws: self.collapse_internal_ws,
            case_style,
            replacements: self.replacements,
        }
    }

    /// Append a regex replacement; replacements run in declaration order
    /// after the white-space and case steps. The pattern is validated when
    /// the cleaner is fitted. Invalidates any previous fit.
    pub fn replace(self, pattern: &str, replacement: &str) -> (r: Self)
        ensures
            !r.is_fitted(),
            r.selected() == self.selected(),
            r.steps() == (CleaningSteps { rules: self.steps().rules.push((pattern@, replacement@)), ..self.steps() }),
    {
        let mut reps = self.replacements;
        let ghost before = reps@;
        reps.push(StringReplacement { pattern: owned(pattern), replacement: owned(replacement) });
        assert(rules_view(reps@) =~= rules_view(before).push((pattern@, replacement@)));
        Self {
            fitted: false,
            columns: self.columns,
            trim: self.trim,
            collapse_internal_ws: self.collapse_internal_ws,
            case_style: self.case_style,
            replacements: reps,
        }
    }

    /// The column with every string cleaned.
    fn clean_series(&self, col: &Series) -> (r: Series)
        requires
            self.steps().patterns_compile(),
            col@.dtype == DType::Utf8,
        ensures
            r@ == cleaned_series(col@, self.steps()),
    {
        let ghost steps = self.steps();
        let n = col.values.len();
        let mut texts: Vec<String> = Vec::new();
        for k in 0..n
            invariant
                n == col.values.len(),
                texts.len() == k,
                forall|i: int| 0 <= i < k ==> (#[trigger] texts@[i])@ == text_of(col@.cells[i]),
        {
            let t = match &col.values[k] {
                Some(Value::Str(s)) => s.clone(),
                _ => String::new(),
            };
            texts.push(t);
        }
        let ghost base = texts@.map_values(|t: String| t@);
        let t1 = if self.trim { trim_each(&texts) } else { texts };
        assert forall|k: int| 0 <= k < n implies (#[trigger] t1@[k])@ == (if steps.trim { trimmed(base[k]) } else { base[k] }) by {}
        let t2 = if self.collapse_internal_ws { regex_replace_all("\\s+", &t1, " ") } else { t1 };
        let t3 = case_each(self.case_style, &t2);
        let mut t4 = t3;
        for j in 0..self.replacements.len()
            invariant
                steps == self.steps(),
                steps.patterns_compile(),
                t4.len() == n,
                forall|k: int| 0 <= k < n ==> (#[trigger] t4@[k])@ == replaced_in_order(steps.rules.take(j as int), t3@[k]@),
        {
            proof {
                assert(steps.rules[j as int] == (self.replacements@[j as int].pattern@, self.replacements@[j as int].replacement@));
                assert(regex_compiles(steps.rules[j as int].0));
            }
            let next = regex_replace_all(self.replacements[j].pattern.as_str(), &t4, self.replacements[j].replacement.as_str());
            proof {
                let rs = steps.rules.take(j + 1);
                assert(rs.drop_last() =~= steps.rules.take(j as int));
                assert(rs.last() == steps.rules[j as int]);
            }
            t4 = next;
        }
        proof {
            assert(steps.rules.take(self.replacements.len() as int) =~= steps.rules);
        }
        let mut cells: Vec<Option<Value>> = Vec::new();
        for k in 0..n
            invariant
                n == col.values.len(),
                t4.len() == n,
                cells.len() == k,
                forall|i: int| 0 <= i < n ==> (#[trigger] t4@[i])@ == steps.apply(text_of(col@.cells[i])),
                forall|i: int| 0 <= i < k ==> opt_view(#[trigger] cells@[i]) == cleaned_cell(col@.cells[i], steps),
        {
            let c = match &col.values[k] {
                Some(Value::Str(_)) => Some(Value::Str(t4[k].clone())),
                _ => copy_cell(&col.values[k]),
            };
            cells.push(c);
        }
        let r = Series { name: col.name.clone(), dtype: col.dtype, values: cells };
        assert(r@.cells =~= cleaned_series(col@, steps).cells);
        r
    }
}

impl Default for StringCleaner {
    fn default() -> (r: Self)
        ensures
            !r.is_fitted(),
            r.selected().len() == 0,
            r.steps() == (CleaningSteps { trim: false, collapse: false, style: CaseStyle::Original, rules: Seq::empty() }),
    {
        Self::new()
    }
}

/// Whether `fit` accepts `f` for the columns `cols`: a non-empty frame, at
/// least one column, and every column present with dtype `Utf8`.
pub open spec fn fit_accepts(f: FrameView, cols: Seq<Seq<char>>) -> bool {
    &&& f.height > 0
    &&& f.columns.len() > 0
    &&& cols.len() > 0
    &&& forall|k: int| 0 <= k < cols.len() ==> f.has(#[trigger] cols[k]) && f.col(cols[k]).dtype == DType::Utf8
}

/// Whether a fit result is a `Computation` error.
pub open spec fn is_computation_error(r: Result<(), Error>) -> bool {
    match r {
        Err(Error::Computation(_)) => true,
        _ => false,
    }
}

impl Fit<Frame> for StringCleaner {
    type Output = ();

    open spec fn fits_to(&self, x: Frame, after: Self, r: Result<(), Error>) -> bool {
        &&& after.selected() == self.selected()
        &&& after.steps() == self.steps()
        &&& after.is_fitted() == r is Ok
        &&& r is Ok <==> (fit_accepts(x@, self.selected()) && self.steps().patterns_compile())
        &&& r matches Err(e) ==> (e is InvalidInput || e is Computation)
        &&& is_computation_error(r) <==> (fit_accepts(x@, self.selected()) && self.steps().collapse
            && !regex_compiles(white_space_run()))
    }

    /// Check the selected columns and compile the regexes.
    ///
    /// Fails with `InvalidInput` on an empty frame, with no selected column,
    /// on a missing or non-`Utf8` column, or on an invalid replacement
    /// pattern; with `Computation` when the white-space pattern does not
    /// compile. Any failure leaves the cleaner unfitted.
    fn fit(&mut self, x: Frame) -> (r: Result<(), Error>) {
        self.fitted = false;
        if x.height() == 0 || x.width() == 0 {
            return Err(Error::InvalidInput(owned("StringCleaner.fit received an empty DataFrame (0 rows or 0 columns). Provide data with at least 1 row and 1 column.")));
        }
        if self.columns.len() == 0 {
            return Err(Error::InvalidInput(owned("StringCleaner.fit has no selected columns. Select at least one String column with .columns(&[...]).")));
        }
        let ghost cols = strings_view(self.columns@);
        for i in 0..self.columns.len()
            invariant
                cols == strings_view(self.columns@),
                !self.fitted,
                self.selected() == old(self).selected(),
                self.steps() == old(self).steps(),
                forall|k: int| 0 <= k < i ==> x@.has(#[trigger] cols[k]) && x@.col(cols[k]).dtype == DType::Utf8,
        {
            let name = self.columns[i].as_str();
            assert(cols[i as int] == name@);
            match x.column(name) {
                None => {
                    return Err(Error::InvalidInput(join3("StringCleaner.fit: column '", name, "' was not found.")));
                },
                Some(c) => {
                    if c.dtype != DType::Utf8 {
                        let head = join3("StringCleaner.fit: column '", name, "' has dtype ");
                        return Err(Error::InvalidInput(join3(head.as_str(), crate::util::dtype_text(c.dtype), "; expected String.")));
                    }
                },
            }
        }
        let ghost steps = self.steps();
        if self.collapse_internal_ws {
            match check_regex("\\s+") {
                Ok(()) => {},
                Err(m) => {
                    return Err(Error::Computation(concat("StringCleaner.fit could not compile its whitespace regex. ", m.as_str())));
                },
            }
        }
        for j in 0..self.replacements.len()
            invariant
                steps == self.steps(),
                !self.fitted,
                self.selected() == old(self).selected(),
                self.steps() == old(self).steps(),
                steps.collapse ==> regex_compiles(white_space_run()),
                forall|k: int| 0 <= k < j ==> regex_compiles(#[trigger] steps.rules[k].0),
        {
            let pattern = self.replacements[j].pattern.as_str();
            proof {
                assert(steps.rules[j as int].0 == pattern@);
            }
            match check_regex(pattern) {
                Ok(()) => {},
                Err(m) => {
                    let head = join3("StringCleaner.fit: invalid regex pattern '", pattern, "': ");
                    let msg = join3(head.as_str(), m.as_str(), ". Remove this pattern or replace it with a valid Rust regex.");
                    return Err(Error::InvalidInput(msg));
                },
            }
        }
        self.fitted = true;
        Ok(())
    }
}

impl Transform<Frame> for StringCleaner {
    type Output = Frame;

    /// Clean the selected columns, in order; other columns are untouched.
    ///
    /// Fails with `NotFitted` before a fit, and with `InvalidInput` when a
    /// selected column is missing or does not hold strings.
    fn transform(&self, x: Frame) -> (r: Result<Frame, Error>)
        ensures
            !self.is_fitted() ==> r matches Err(Error::NotFitted(_)),
            self.is_fitted() ==> (r is Ok <==> clean_all(x@, self.selected(), self.steps()) is Some),
            self.is_fitted() ==> (r matches Err(e) ==> e is InvalidInput),
            self.is_fitted() ==> (r matches Ok(f) ==> clean_all(x@, self.selected(), self.steps()) == Some(f@)),
    {
        proof {
            use_type_invariant(self);
        }
        if !self.fitted {
            return Err(Error::NotFitted(owned("StringCleaner has not been fitted. Call .fit(dataframe) before .transform().")));
        }
        let ghost cols = strings_view(self.columns@);
        let ghost steps = self.steps();
        let mut out = x.copy();
        for i in 0..self.columns.len()
            invariant
                cols == strings_view(self.columns@),
                steps == self.steps(),
                steps.patterns_compile(),
                self.fitted,
                clean_all(x@, cols.take(i as int), steps) == Some(out@),
        {
            proof {
                assert(cols.take(i + 1).drop_last() =~= cols.take(i as int));
                assert(cols.take(i + 1).last() == cols[i as int]);
            }
            let name = self.columns[i].as_str();
            proof {
                assert(cols[i as int] == name@);
                lemma_position_of(out@.columns, name@);
            }
            let cleaned = match out.column(name) {
                Some(c) => if c.dtype == DType::Utf8 {
                    self.clean_series(c)
                } else {
                    proof {
                        lemma_clean_none(x@, cols, steps, i as int + 1);
                    }
                    return Err(Error::InvalidInput(join3("StringCleaner.transform: column '", name, "' does not hold strings; expected String.")));
                },
                None => {
                    proof {
                        lemma_clean_none(x@, cols, steps, i as int + 1);
                    }
                    return Err(Error::InvalidInput(join3("StringCleaner.transform: fitted column '", name, "' was not found.")));
                },
            };
            proof {
                let g = out@;
                let p = crate::frame::position_of(g.columns, name@)->0;
                let c = g.columns[p];
                assert(c.cells_fit());
                assert forall|k: int| 0 <= k < cleaned@.cells.len() implies crate::frame::cell_fits(DType::Utf8, #[trigger] cleaned@.cells[k]) by {
                    assert(crate::frame::cell_fits(DType::Utf8, c.cells[k]));
                }
            }
            let _ = out.with_column(cleaned);
        }
        proof {
            assert(cols.take(self.columns.len() as int) =~= cols);
        }
        Ok(out)
    }
}


/// Cleaning keeps a column's name, dtype and length, keeps nulls null and
/// non-string cells as they are, and turns every string into a string.
pub proof fn law_clean_preserves_shape(c: SeriesView, steps: CleaningSteps, i: int)
    requires
        0 <= i < c.cells.len(),
    ensures
        cleaned_series(c, steps).name == c.name,
        cleaned_series(c, steps).dtype == c.dtype,
        cleaned_series(c, steps).cells.len() == c.cells.len(),
        cleaned_series(c, steps).cells[i] is None <==> c.cells[i] is None,
        !(c.cells[i] matches Some(CellView::Str(_))) ==> cleaned_series(c, steps).cells[i] == c.cells[i],
        forall|s: Seq<char>| c.cells[i] == Some(CellView::Str(s)) ==> cleaned_series(c, steps).cells[i] == Some(
            CellView::Str(steps.apply(s)),
        ),
{
}

/// Without any configured step, cleaning changes nothing.
pub proof fn law_no_steps_is_identity(c: SeriesView)
    ensures
        cleaned_series(c, CleaningSteps { trim: false, collapse: false, style: CaseStyle::Original, rules: Seq::empty() }) == c,
{
    let steps = CleaningSteps { trim: false, collapse: false, style: CaseStyle::Original, rules: Seq::empty() };
    assert forall|i: int| 0 <= i < c.cells.len() implies cleaned_series(c, steps).cells[i] == c.cells[i] by {
    }
    assert(cleaned_series(c, steps).cells =~= c.cells);
}

/// Trimming keeps the part of `s` between its leading and its trailing
/// white space: the result is a stretch `s[a..b]` such that every character
/// before `a` and from `b` on is white space, and the result neither starts
/// nor ends with white space.
pub proof fn law_trim_strips_both_ends(s: Seq<char>)
    ensures
        exists|a: int, b: int|
            0 <= a <= b <= s.len() && trimmed(s) == s.subrange(a, b) && (forall|i: int| 0 <= i < a ==> white_space(
                #[trigger] s[i],
            )) && (forall|i: int| b <= i < s.len() ==> white_space(#[trigger] s[i])),
        trimmed(s).len() > 0 ==> !white_space(trimmed(s)[0]) && !white_space(trimmed(s).last()),
{
    let (a, t) = lemma_trim_start_part(s);
    let (b0, u) = lemma_trim_end_part(t);
    assert(trimmed(s) == u);
    assert(u =~= s.subrange(a, a + b0));
    assert forall|i: int| a + b0 <= i < s.len() implies white_space(#[trigger] s[i]) by {
        assert(s[i] == t[i - a]);
    }
    if u.len() > 0 {
        assert(u[0] == t[0]);
    }
}

/// `trim_start(s)` is `s` from some point on, with white space only before
/// that point and none at it.
proof fn lemma_trim_start_part(s: Seq<char>) -> (r: (int, Seq<char>))
    ensures
        0 <= r.0 <= s.len(),
        r.1 == trim_start(s),
        r.1 =~= s.subrange(r.0, s.len() as int),
        forall|i: int| 0 <= i < r.0 ==> white_space(#[trigger] s[i]),
        r.1.len() > 0 ==> !white_space(r.1[0]),
    decreases s.len(),
{
    if s.len() > 0 && white_space(s[0]) {
        let (a, t) = lemma_trim_start_part(s.drop_first());
        assert forall|i: int| 0 <= i < a + 1 implies white_space(#[trigger] s[i]) by {
            if i > 0 {
                assert(s[i] == s.drop_first()[i - 1]);
            }
        }
        (a + 1, t)
    } else {
        (0, s)
    }
}

/// `trim_end(s)` is `s` up to some point, with white space only from that
/// point on and none just before it.
proof fn lemma_trim_end_part(s: Seq<char>) -> (r: (int, Seq<char>))
    ensures
        0 <= r.0 <= s.len(),
        r.1 == trim_end(s),
        r.1 =~= s.subrange(0, r.0),
        forall|i: int| r.0 <= i < s.len() ==> white_space(#[trigger] s[i]),
        r.1.len() > 0 ==> !white_space(r.1.last()),
        r.1.len() > 0 && s.len() > 0 && !white_space(s[0]) ==> r.1[0] == s[0],
        s.len() > 0 && !white_space(s[0]) ==> r.1.len() > 0,
    decreases s.len(),
{
    if s.len() > 0 && white_space(s.last()) {
        let (b, t) = lemma_trim_end_part(s.drop_last());
        assert forall|i: int| b <= i < s.len() implies white_space(#[trigger] s[i]) by {
            if i < s.len() - 1 {
                assert(s[i] == s.drop_last()[i]);
            }
        }
        if s.len() > 0 && !white_space(s[0]) {
            assert(s.drop_last()[0] == s[0]);
        }
        (b, t)
    } else {
        (s.len() as int, s)
    }
}

/// The characters of a list of words, one word after the other.
pub open spec fn word_chars(ws: Seq<Seq<char>>) -> Seq<char>
    decreases ws.len(),
{
    if ws.len() == 0 {
        Seq::empty()
    } else {
        word_chars(ws.drop_last()) + ws.last()
    }
}

/// Splitting into words loses only white space: every word is non-empty and
/// free of white space, and the words, one after the other, are the
/// characters of `s` that are not white space, in order. Two words are
/// never run together: the last character of `s`, when not white space,
/// ends the last word.
pub proof fn law_words_split_on_white_space(s: Seq<char>)
    ensures
        forall|k: int| 0 <= k < words(s).len() ==> (#[trigger] words(s)[k]).len() > 0,
        forall|k: int, j: int| 0 <= k < words(s).len() && 0 <= j < words(s)[k].len() ==> !white_space(
            #[trigger] words(s)[k][j],
        ),
        word_chars(words(s)) == s.filter_map(|c: char| if white_space(c) { None } else { Some(c) }),
        s.len() > 0 && !white_space(s.last()) ==> words(s).len() > 0 && words(s).last().last() == s.last(),
    decreases s.len(),
{
    if s.len() > 0 {
        let pre = s.drop_last();
        law_words_split_on_white_space(pre);
        let w = words(pre);
        let c = s.last();
        let nw = |c: char| if white_space(c) { None } else { Some(c) };
        assert(pre.filter_map(nw) == s.drop_last().filter_map(nw));
        if white_space(c) {
        } else if s.len() > 1 && !white_space(s[s.len() - 2]) {
            assert(pre.last() == s[s.len() - 2]);
            let x = w.last().push(c);
            let r = w.update(w.len() - 1, x);
            assert(r.drop_last() =~= w.drop_last());
            assert(r.last() == x);
            assert forall|k: int| 0 <= k < r.len() implies (#[trigger] r[k]).len() > 0 by {}
            assert forall|k: int, j: int| 0 <= k < r.len() && 0 <= j < r[k].len() implies !white_space(#[trigger] r[k][j]) by {
                if k == r.len() - 1 {
                    if j < w.last().len() {
                        assert(r[k][j] == w[w.len() - 1][j]);
                    }
                }
            }
            assert(word_chars(w) == word_chars(w.drop_last()) + w.last());
            assert(word_chars(r) =~= word_chars(w) + seq![c]);
        } else {
            let r = w.push(seq![c]);
            assert(r.drop_last() =~= w);
            assert(word_chars(r) =~= word_chars(w) + seq![c]);
        }
    }
}

} // verus!

//! Building and inspecting strings character by character.

use vstd::prelude::*;

verus! {

broadcast use vstd::string::group_string_axioms;

/// The characters of `s`, in order.
pub fn chars_of(s: &str) -> (r: Vec<char>)
    ensures
        r@ == s@,
{
    let mut out: Vec<char> = Vec::new();
    for c in it: s.chars()
        invariant
            it.seq() == s@,
            out.len() == it.index(),
            forall|k: int| 0 <= k < out.len() ==> out@[k] == s@[k],
    {
        out.push(c);
    }
    assert(out@ =~= s@);
    out
}

/// Appends one character to a string (`String::push`).
#[verifier::external_body]
pub(crate) fn push_char(s: &mut String, c: char)
    ensures
        final(s)@ == old(s)@.push(c),
{
    s.push(c);
}

/// Appends the characters of `cs` to `out`.
pub fn push_chars(out: &mut String, cs: &Vec<char>)
    ensures
        final(out)@ == old(out)@ + cs@,
{
    for i in 0..cs.len()
        invariant
            out@ == old(out)@ + cs@.take(i as int),
    {
        push_char(out, cs[i]);
        assert(cs@.take(i + 1) =~= cs@.take(i as int).push(cs@[i as int]));
    }
    assert(cs@.take(cs.len() as int) =~= cs@);
}

/// Appends `s` to `out`.
pub fn push_str(out: &mut String, s: &str)
    ensures
        final(out)@ == old(out)@ + s@,
{
    let cs = chars_of(s);
    push_chars(out, &cs);
}

/// A string holding exactly the characters `cs`.
pub fn string_of_chars(cs: &Vec<char>) -> (r: String)
    ensures
        r@ == cs@,
{
    let mut out = String::new();
    push_chars(&mut out, cs);
    assert(Seq::<char>::empty() + cs@ =~= cs@);
    out
}

/// A fresh copy of `s`.
pub fn owned(s: &str) -> (r: String)
    ensures
        r@ == s@,
{
    let mut out = String::new();
    push_str(&mut out, s);
    assert(Seq::<char>::empty() + s@ =~= s@);
    out
}

/// `a` followed by `b`.
pub fn concat(a: &str, b: &str) -> (r: String)
    ensures
        r@ == a@ + b@,
{
    let mut out = owned(a);
    push_str(&mut out, b);
    out
}

/// `a`, then `sep`, then `b` (e.g. `"color" + "_" + "red"`).
pub fn join3(a: &str, sep: &str, b: &str) -> (r: String)
    ensures
        r@ == a@ + sep@ + b@,
{
    let mut out = owned(a);
    push_str(&mut out, sep);
    push_str(&mut out, b);
    out
}

/// The decimal digit character of `d`.
pub open spec fn digit_char(d: int) -> char {
    ('0' as int + d) as char
}

/// The decimal representation of a natural number, without leading zeros.
pub open spec fn nat_decimal(n: nat) -> Seq<char>
    decreases n,
{
    if n < 10 {
        seq![digit_char(n as int)]
    } else {
        nat_decimal(n / 10).push(digit_char((n % 10) as int))
    }
}

/// The decimal representation of an integer, with a leading `-` when negative.
pub open spec fn int_decimal(n: int) -> Seq<char> {
    if n < 0 {
        seq!['-'] + nat_decimal((-n) as nat)
    } else {
        nat_decimal(n as nat)
    }
}

/// Decimal digits of `n` (no sign).
fn u64_decimal_chars(n: u64) -> (r: Vec<char>)
    ensures
        r@ == nat_decimal(n as nat),
    decreases n,
{
    if n < 10 {
        let c = (('0' as u8) + (n as u8)) as char;
        let mut v: Vec<char> = Vec::new();
        v.push(c);
        assert(v@ =~= seq![digit_char(n as int)]);
        v
    } else {
        let mut v = u64_decimal_chars(n / 10);
        let d = n % 10;
        let c = (('0' as u8) + (d as u8)) as char;
        v.push(c);
        v
    }
}

/// The decimal text of `n` (as `format!("{}", n)` prints it).
pub fn int_text(n: i64) -> (r: String)
    ensures
        r@ == int_decimal(n as int),
{
    if n < 0 {
        let mag: u64 = if n == i64::MIN {
            9223372036854775808u64
        } else {
            (-n) as u64
        };
        let digits = u64_decimal_chars(mag);
        let mut out = String::new();
        push_char(&mut out, '-');
        push_chars(&mut out, &digits);
        assert(out@ =~= seq!['-'] + nat_decimal((-(n as int)) as nat));
        out
    } else {
        let digits = u64_decimal_chars(n as u64);
        string_of_chars(&digits)
    }
}

/// The decimal text of an index or count.
pub fn usize_text(n: usize) -> (r: String)
    ensures
        r@ == nat_decimal(n as nat),
{
    let digits = u64_decimal_chars(n as u64);
    string_of_chars(&digits)
}

/// Whether `a` and `b` hold the same characters.
pub fn str_eq(a: &str, b: &str) -> (r: bool)
    ensures
        r == (a@ == b@),
{
    let ca = chars_of(a);
    let cb = chars_of(b);
    if ca.len() != cb.len() {
        return false;
    }
    for i in 0..ca.len()
        invariant
            ca@ == a@,
            cb@ == b@,
            ca.len() == cb.len(),
            forall|k: int| 0 <= k < i ==> ca@[k] == cb@[k],
    {
        if ca[i] != cb[i] {
            return false;
        }
    }
    assert(ca@ =~= cb@);
    true
}

/// The parts joined with `sep` between neighbours.
pub open spec fn joined(parts: Seq<Seq<char>>, sep: Seq<char>) -> Seq<char>
    decreases parts.len(),
{
    if parts.len() == 0 {
        Seq::empty()
    } else if parts.len() == 1 {
        parts[0]
    } else {
        joined(parts.drop_last(), sep) + sep + parts.last()
    }
}

/// Lexicographic order on character sequences, comparing code points.
///
/// This is the order of Rust's `str` comparison (UTF-8 byte order agrees with
/// code point order).
pub open spec fn seq_lt(a: Seq<char>, b: Seq<char>) -> bool
    decreases a.len(),
{
    if b.len() == 0 {
        false
    } else if a.len() == 0 {
        true
    } else if a[0] < b[0] {
        true
    } else if a[0] == b[0] {
        seq_lt(a.drop_first(), b.drop_first())
    } else {
        false
    }
}

} // verus!

verus! {

/// `s` with every repeated element dropped after its first occurrence.
pub open spec fn dedup_first(s: Seq<Seq<char>>) -> Seq<Seq<char>>
    decreases s.len(),
{
    if s.len() == 0 {
        Seq::empty()
    } else {
        let d = dedup_first(s.drop_last());
        if d.contains(s.last()) {
            d
        } else {
            d.push(s.last())
        }
    }
}

/// The first occurrences hold exactly the elements of `s`, each once.
pub proof fn lemma_dedup_first(s: Seq<Seq<char>>)
    ensures
        forall|x: Seq<char>| dedup_first(s).contains(x) <==> s.contains(x),
        forall|a: int, b: int|
            0 <= a < dedup_first(s).len() && 0 <= b < dedup_first(s).len() && a != b ==> #[trigger] dedup_first(s)[a]
                != #[trigger] dedup_first(s)[b],
    decreases s.len(),
{
    if s.len() > 0 {
        let pre = s.drop_last();
        lemma_dedup_first(pre);
        let d = dedup_first(pre);
        assert forall|x: Seq<char>| dedup_first(s).contains(x) <==> s.contains(x) by {
            if s.contains(x) && x != s.last() {
                let k = choose|k: int| 0 <= k < s.len() && s[k] == x;
                assert(pre[k] == x);
                assert(pre.contains(x));
                assert(d.contains(x));
                let m = choose|m: int| 0 <= m < d.len() && d[m] == x;
                assert(dedup_first(s)[m] == x);
            }
            if x == s.last() {
                if d.contains(x) {
                } else {
                    assert(dedup_first(s)[d.len() as int] == x);
                }
                assert(s[s.len() - 1] == x);
            }
            if dedup_first(s).contains(x) && x != s.last() {
                let m = choose|m: int| 0 <= m < dedup_first(s).len() && dedup_first(s)[m] == x;
                if d.contains(s.last()) {
                } else {
                    assert(m < d.len());
                }
                assert(d[m] == x);
                assert(pre.contains(x));
                let k = choose|k: int| 0 <= k < pre.len() && pre[k] == x;
                assert(s[k] == x);
            }
        }
    }
}

/// Drops repeated strings after their first occurrence.
pub fn dedup_strings(v: &Vec<String>) -> (r: Vec<String>)
    ensures
        r@.map_values(|s: String| s@) == dedup_first(v@.map_values(|s: String| s@)),
{
    let ghost src = v@.map_values(|s: String| s@);
    let mut out: Vec<String> = Vec::new();
    for i in 0..v.len()
        invariant
            src == v@.map_values(|s: String| s@),
            out@.map_values(|s: String| s@) == dedup_first(src.take(i as int)),
    {
        let ghost d = out@.map_values(|s: String| s@);
        proof {
            assert(src.take(i + 1).drop_last() =~= src.take(i as int));
            assert(src.take(i + 1).last() == src[i as int]);
        }
        let mut seen = false;
        for j in 0..out.len()
            invariant
                d == out@.map_values(|s: String| s@),
                i < v.len(),
                seen <==> exists|k: int| 0 <= k < j && d[k] == v@[i as int]@,
        {
            if out[j].eq(&v[i]) {
                assert(d[j as int] == v@[i as int]@);
                seen = true;
            }
        }
        proof {
            if d.contains(src[i as int]) {
                let k = choose|k: int| 0 <= k < d.len() && d[k] == src[i as int];
                assert(d[k] == v@[i as int]@);
            }
        }
        if !seen {
            out.push(v[i].clone());
            proof {
                assert(out@.map_values(|s: String| s@) =~= d.push(src[i as int]));
            }
        }
    }
    proof {
        assert(src.take(v.len() as int) =~= src);
    }
    out
}

/// Owned copies of a list of string slices.
pub fn owned_all(v: &[&str]) -> (r: Vec<String>)
    ensures
        r@.map_values(|s: String| s@) == v@.map_values(|s: &str| s@),
{
    let mut out: Vec<String> = Vec::new();
    for i in 0..v.len()
        invariant
            out.len() == i,
            forall|k: int| 0 <= k < i ==> (#[trigger] out@[k])@ == v@[k]@,
    {
        out.push(owned(v[i]));
    }
    assert(out@.map_values(|s: String| s@) =~= v@.map_values(|s: &str| s@));
    out
}

/// Copies of a list of strings.
pub fn copy_strings(v: &Vec<String>) -> (r: Vec<String>)
    ensures
        r@.map_values(|s: String| s@) == v@.map_values(|s: String| s@),
{
    let mut out: Vec<String> = Vec::new();
    for i in 0..v.len()
        invariant
            out.len() == i,
            forall|k: int| 0 <= k < i ==> (#[trigger] out@[k])@ == v@[k]@,
    {
        out.push(v[i].clone());
    }
    assert(out@.map_values(|s: String| s@) =~= v@.map_values(|s: String| s@));
    out
}

/// Whether `t` occurs in `s` as a run of consecutive characters.
pub open spec fn contains_text(s: Seq<char>, t: Seq<char>) -> bool {
    exists|i: int| 0 <= i && i + t.len() <= s.len() && #[trigger] s.subrange(i, i + t.len()) == t
}

/// `name` between single quotes, as messages show a name.
pub open spec fn quoted(name: Seq<char>) -> Seq<char> {
    "'"@ + name + "'"@
}

/// A text ending in `t` contains it.
pub proof fn lemma_text_at_end(pre: Seq<char>, t: Seq<char>)
    ensures
        contains_text(pre + t, t),
{
    assert((pre + t).subrange(pre.len() as int, (pre.len() + t.len()) as int) =~= t);
}

/// Appending to a text keeps what it contains.
pub proof fn lemma_text_append(s: Seq<char>, t: Seq<char>, e: Seq<char>)
    requires
        contains_text(s, t),
    ensures
        contains_text(s + e, t),
{
    let i = choose|i: int| 0 <= i && i + t.len() <= s.len() && #[trigger] s.subrange(i, i + t.len()) == t;
    assert((s + e).subrange(i, i + t.len()) =~= s.subrange(i, i + t.len()));
}

/// Prepending to a text keeps what it contains.
pub proof fn lemma_text_prepend(p: Seq<char>, s: Seq<char>, t: Seq<char>)
    requires
        contains_text(s, t),
    ensures
        contains_text(p + s, t),
{
    let i = choose|i: int| 0 <= i && i + t.len() <= s.len() && #[trigger] s.subrange(i, i + t.len()) == t;
    assert((p + s).subrange(p.len() + i, p.len() + i + t.len()) =~= s.subrange(i, i + t.len()));
    assert(0 <= p.len() + i && p.len() + i + t.len() <= (p + s).len());
}

/// `before`, then `name` between single quotes, then `after`.
pub fn quote_in(before: &str, name: &str, after: &str) -> (r: String)
    ensures
        r@ == before@ + quoted(name@) + after@,
        contains_text(r@, quoted(name@)),
{
    let q = join3("'", name, "'");
    let r = join3(before, q.as_str(), after);
    proof {
        lemma_text_at_end(before@, quoted(name@));
        lemma_text_append(before@ + quoted(name@), quoted(name@), after@);
    }
    r
}

} // verus!

//! Character-level helpers shared by the parsers: Unicode white space,
//! trimming, ASCII digits and conversions between `&str`, `String` and
//! character vectors.

use vstd::prelude::*;

verus! {

/// The Unicode `White_Space` property, which both `char::is_whitespace`
/// and the `\s` class of a Unicode regular expression follow.
pub open spec fn is_white_space(c: char) -> bool {
    ||| ('\u{09}' <= c && c <= '\u{0d}')
    ||| c == ' '
    ||| c == '\u{85}'
    ||| c == '\u{a0}'
    ||| c == '\u{1680}'
    ||| ('\u{2000}' <= c && c <= '\u{200a}')
    ||| c == '\u{2028}'
    ||| c == '\u{2029}'
    ||| c == '\u{202f}'
    ||| c == '\u{205f}'
    ||| c == '\u{3000}'
}

pub fn white_space(c: char) -> (r: bool)
    ensures
        r == is_white_space(c),
{
    ('\u{09}' <= c && c <= '\u{0d}') || c == ' ' || c == '\u{85}' || c == '\u{a0}' || c
        == '\u{1680}' || ('\u{2000}' <= c && c <= '\u{200a}') || c == '\u{2028}' || c
        == '\u{2029}' || c == '\u{202f}' || c == '\u{205f}' || c == '\u{3000}'
}

/// `str::trim_start`: drop the leading white space.
pub open spec fn trim_start(s: Seq<char>) -> Seq<char>
    decreases s.len(),
{
    if s.len() > 0 && is_white_space(s[0]) {
        trim_start(s.drop_first())
    } else {
        s
    }
}

/// `str::trim_end`: drop the trailing white space.
pub open spec fn trim_end(s: Seq<char>) -> Seq<char>
    decreases s.len(),
{
    if s.len() > 0 && is_white_space(s.last()) {
        trim_end(s.drop_last())
    } else {
        s
    }
}

/// `str::trim`: drop white space at both ends.
pub open spec fn trim(s: Seq<char>) -> Seq<char> {
    trim_end(trim_start(s))
}

/// Trimming the start twice trims it once; what is left starts with no
/// white space.
pub proof fn lemma_trim_start_idempotent(s: Seq<char>)
    ensures
        trim_start(trim_start(s)) == trim_start(s),
        trim_start(s).len() > 0 ==> !is_white_space(trim_start(s)[0]),
    decreases s.len(),
{
    if s.len() > 0 && is_white_space(s[0]) {
        lemma_trim_start_idempotent(s.drop_first());
    }
}

/// Trimming the end twice trims it once; what is left ends with no white
/// space.
pub proof fn lemma_trim_end_idempotent(s: Seq<char>)
    ensures
        trim_end(trim_end(s)) == trim_end(s),
        trim_end(s).len() > 0 ==> !is_white_space(trim_end(s).last()),
    decreases s.len(),
{
    if s.len() > 0 && is_white_space(s.last()) {
        lemma_trim_end_idempotent(s.drop_last());
    }
}

pub open spec fn is_ascii_digit(c: char) -> bool {
    '0' <= c && c <= '9'
}

pub open spec fn digit_value(c: char) -> int {
    (c as int) - ('0' as int)
}

/// A non-empty run of ASCII decimal digits.
pub open spec fn is_digits(s: Seq<char>) -> bool {
    s.len() > 0 && forall|i: int| 0 <= i < s.len() ==> #[trigger] is_ascii_digit(s[i])
}

/// The number that a run of decimal digits spells.
pub open spec fn digits_value(s: Seq<char>) -> int
    decreases s.len(),
{
    if s.len() == 0 {
        0
    } else {
        digits_value(s.drop_last()) * 10 + digit_value(s.last())
    }
}

/// What `u64::from_str`-style parsing of an unsigned number gives when the
/// type's largest value is `max`: an optional leading `+`, then decimal
/// digits only, and the value must not exceed `max`.
pub open spec fn parse_unsigned(s: Seq<char>, max: int) -> Option<int> {
    let digits = if s.len() > 1 && s[0] == '+' {
        s.drop_first()
    } else {
        s
    };
    if is_digits(digits) && digits_value(digits) <= max {
        Some(digits_value(digits))
    } else {
        None
    }
}

/// A run of digits never spells a negative number.
pub proof fn lemma_digits_value_nonneg(s: Seq<char>)
    requires
        forall|i: int| 0 <= i < s.len() ==> #[trigger] is_ascii_digit(s[i]),
    ensures
        digits_value(s) >= 0,
    decreases s.len(),
{
    if s.len() > 0 {
        assert(is_ascii_digit(s[s.len() - 1]));
        lemma_digits_value_nonneg(s.drop_last());
    }
}

/// The value of a prefix never exceeds the value of the whole run.
pub proof fn lemma_digits_value_prefix(s: Seq<char>, k: int)
    requires
        0 <= k <= s.len(),
        forall|i: int| 0 <= i < s.len() ==> #[trigger] is_ascii_digit(s[i]),
    ensures
        digits_value(s.subrange(0, k)) <= digits_value(s),
    decreases s.len() - k,
{
    if k < s.len() {
        lemma_digits_value_prefix(s, k + 1);
        let p = s.subrange(0, k + 1);
        assert(p.drop_last() =~= s.subrange(0, k));
        assert(is_ascii_digit(p[k]));
        lemma_digits_value_nonneg(s.subrange(0, k));
    } else {
        assert(s.subrange(0, k) =~= s);
    }
}

/// Digits `s[from..to]` as a number, failing when it exceeds `max`.
pub fn parse_digits(s: &Vec<char>, from: usize, to: usize, max: u64) -> (r: Option<u64>)
    requires
        from <= to <= s.len(),
    ensures
        match r {
            Some(v) => is_digits(s@.subrange(from as int, to as int)) && v == digits_value(
                s@.subrange(from as int, to as int),
            ) && v <= max,
            None => !(is_digits(s@.subrange(from as int, to as int)) && digits_value(
                s@.subrange(from as int, to as int),
            ) <= max),
        },
{
    let ghost d = s@.subrange(from as int, to as int);
    if from == to {
        return None;
    }
    let mut v: u64 = 0;
    let mut i: usize = from;
    while i < to
        invariant
            from <= i <= to <= s.len(),
            d == s@.subrange(from as int, to as int),
            forall|j: int| from <= j < i ==> #[trigger] is_ascii_digit(s@[j]),
            v == digits_value(s@.subrange(from as int, i as int)),
            v <= max,
        decreases to - i,
    {
        let c = s[i];
        if !('0' <= c && c <= '9') {
            assert(!is_ascii_digit(d[i - from]));
            return None;
        }
        let dv = (c as u32 - '0' as u32) as u64;
        let ghost pre = s@.subrange(from as int, i as int);
        let ghost nxt = s@.subrange(from as int, i + 1);
        assert(nxt.drop_last() =~= pre);
        assert(digits_value(nxt) == v * 10 + dv);
        if dv as u64 > max || v > (max - dv) / 10 {
            proof {
                assert(v * 10 + dv > max) by (nonlinear_arith)
                    requires
                        dv > max || v > (max - dv) / 10,
                        dv <= 9,
                ;
                assert forall|j: int| 0 <= j < d.len() implies #[trigger] is_ascii_digit(d[j])
                    || !is_digits(d) by {}
                if is_digits(d) {
                    lemma_digits_value_prefix(d, (i + 1 - from) as int);
                    assert(d.subrange(0, (i + 1 - from) as int) =~= nxt);
                }
            }
            return None;
        }
        proof {
            assert(v * 10 + dv <= max) by (nonlinear_arith)
                requires
                    v <= (max - dv) / 10,
                    dv <= 9,
            ;
        }
        v = v * 10 + dv;
        i = i + 1;
    }
    assert(s@.subrange(from as int, i as int) =~= d);
    Some(v)
}

/// The decimal text of a natural number, without sign or leading zeros.
pub open spec fn decimal(n: nat) -> Seq<char>
    decreases n,
{
    if n < 10 {
        seq![(('0' as int) + n) as char]
    } else {
        decimal(n / 10).push((('0' as int) + (n % 10)) as char)
    }
}

/// `n.to_string()` for an unsigned integer.
pub fn decimal_string(n: u64) -> (s: String)
    ensures
        s@ == decimal(n as nat),
    decreases n,
{
    if n < 10 {
        let mut s = String::new();
        push_char(&mut s, ((n as u8) + 48u8) as char);
        s
    } else {
        let mut s = decimal_string(n / 10);
        push_char(&mut s, (((n % 10) as u8) + 48u8) as char);
        s
    }
}

/// The decimal text of a number reads back as that number.
pub proof fn lemma_decimal_roundtrip(n: nat)
    ensures
        is_digits(decimal(n)),
        digits_value(decimal(n)) == n,
    decreases n,
{
    if n >= 10 {
        lemma_decimal_roundtrip(n / 10);
        let d = decimal(n);
        assert(d.drop_last() =~= decimal(n / 10));
        let c = (('0' as int) + (n % 10)) as char;
        assert(d.last() == c);
        assert(digit_value(c) == n % 10);
        assert(n == (n / 10) * 10 + n % 10);
        assert(digits_value(d) == digits_value(d.drop_last()) * 10 + digit_value(d.last()));
        assert forall|i: int| 0 <= i < d.len() implies #[trigger] is_ascii_digit(d[i]) by {
            if i < d.len() - 1 {
                assert(d[i] == decimal(n / 10)[i]);
            }
        }
    } else {
        let d = decimal(n);
        assert(d.drop_last() =~= Seq::<char>::empty());
        assert(digits_value(d) == digits_value(d.drop_last()) * 10 + digit_value(d.last()));
    }
}

/// `s[a..b]` as a new `String`.
pub fn sub_string(v: &Vec<char>, a: usize, b: usize) -> (s: String)
    requires
        a <= b <= v.len(),
    ensures
        s@ == v@.subrange(a as int, b as int),
{
    let mut s = String::new();
    let mut i = a;
    while i < b
        invariant
            a <= i <= b <= v.len(),
            s@ == v@.subrange(a as int, i as int),
        decreases b - i,
    {
        push_char(&mut s, v[i]);
        assert(v@.subrange(a as int, i + 1) =~= v@.subrange(a as int, i as int).push(v@[i as int]));
        i = i + 1;
    }
    s
}

proof fn lemma_trim_start_skip(s: Seq<char>, k: int)
    requires
        0 <= k <= s.len(),
        forall|t: int| 0 <= t < k ==> #[trigger] is_white_space(s[t]),
    ensures
        trim_start(s) == trim_start(s.skip(k)),
    decreases k,
{
    if k > 0 {
        assert(is_white_space(s[0]));
        assert(s.drop_first().skip(k - 1) =~= s.skip(k));
        assert forall|t: int| 0 <= t < k - 1 implies #[trigger] is_white_space(
            s.drop_first()[t],
        ) by {
            assert(s.drop_first()[t] == s[t + 1]);
        }
        lemma_trim_start_skip(s.drop_first(), k - 1);
    } else {
        assert(s.skip(0) =~= s);
    }
}

proof fn lemma_trim_end_take(s: Seq<char>, k: int)
    requires
        0 <= k <= s.len(),
        forall|t: int| k <= t < s.len() ==> #[trigger] is_white_space(s[t]),
    ensures
        trim_end(s) == trim_end(s.take(k)),
    decreases s.len() - k,
{
    if k < s.len() {
        assert(is_white_space(s[s.len() - 1]));
        assert(s.drop_last().take(k) =~= s.take(k));
        assert forall|t: int| k <= t < s.len() - 1 implies #[trigger] is_white_space(
            s.drop_last()[t],
        ) by {
            assert(s.drop_last()[t] == s[t]);
        }
        lemma_trim_end_take(s.drop_last(), k);
    } else {
        assert(s.take(k) =~= s);
    }
}

/// Where the text `v[a..b]` starts once leading white space is dropped.
pub fn trim_start_index(v: &Vec<char>, a: usize, b: usize) -> (i: usize)
    requires
        a <= b <= v.len(),
    ensures
        a <= i <= b,
        trim_start(v@.subrange(a as int, b as int)) == v@.subrange(i as int, b as int),
{
    let mut i = a;
    while i < b && white_space(v[i])
        invariant
            a <= i <= b <= v.len(),
            forall|t: int| a <= t < i ==> #[trigger] is_white_space(v@[t]),
        decreases b - i,
    {
        i = i + 1;
    }
    proof {
        let s = v@.subrange(a as int, b as int);
        assert forall|t: int| 0 <= t < i - a implies #[trigger] is_white_space(s[t]) by {
            assert(s[t] == v@[a + t]);
        }
        lemma_trim_start_skip(s, i - a);
        assert(s.skip(i - a) =~= v@.subrange(i as int, b as int));
    }
    i
}

/// Where the text `v[a..b]` ends once trailing white space is dropped.
pub fn trim_end_index(v: &Vec<char>, a: usize, b: usize) -> (j: usize)
    requires
        a <= b <= v.len(),
    ensures
        a <= j <= b,
        trim_end(v@.subrange(a as int, b as int)) == v@.subrange(a as int, j as int),
{
    let mut j = b;
    while j > a && white_space(v[j - 1])
        invariant
            a <= j <= b <= v.len(),
            forall|t: int| j <= t < b ==> #[trigger] is_white_space(v@[t]),
        decreases j - a,
    {
        j = j - 1;
    }
    proof {
        let s = v@.subrange(a as int, b as int);
        assert forall|t: int| j - a <= t < s.len() implies #[trigger] is_white_space(s[t]) by {
            assert(s[t] == v@[a + t]);
        }
        lemma_trim_end_take(s, j - a);
        assert(s.take(j - a) =~= v@.subrange(a as int, j as int));
    }
    j
}

/// The bounds of `v[a..b]` once white space is dropped at both ends.
pub fn trim_range(v: &Vec<char>, a: usize, b: usize) -> (r: (usize, usize))
    requires
        a <= b <= v.len(),
    ensures
        a <= r.0 <= r.1 <= b,
        trim(v@.subrange(a as int, b as int)) == v@.subrange(r.0 as int, r.1 as int),
{
    let i = trim_start_index(v, a, b);
    let j = trim_end_index(v, i, b);
    (i, j)
}

/// `s.trim()` as a new `String`.
pub fn trim_string(s: &str) -> (r: String)
    ensures
        r@ == trim(s@),
{
    let v = str_chars(s);
    let (i, j) = trim_range(&v, 0, v.len());
    assert(v@.subrange(0, v@.len() as int) =~= v@);
    sub_string(&v, i, j)
}

/// `s.trim_end()` as a new `String`.
pub fn trim_end_string(s: &str) -> (r: String)
    ensures
        r@ == trim_end(s@),
{
    let v = str_chars(s);
    let j = trim_end_index(&v, 0, v.len());
    assert(v@.subrange(0, v@.len() as int) =~= v@);
    sub_string(&v, 0, j)
}

/// `v[a..b]` read as an unsigned number no larger than `max`, as
/// `from_str` reads it.
pub fn parse_unsigned_range(v: &Vec<char>, a: usize, b: usize, max: u64) -> (r: Option<u64>)
    requires
        a <= b <= v.len(),
    ensures
        r matches Some(y) ==> parse_unsigned(v@.subrange(a as int, b as int), max as int) == Some(
            y as int,
        ),
        r is None ==> parse_unsigned(v@.subrange(a as int, b as int), max as int) is None,
        r matches Some(y) ==> y <= max,
{
    let ghost s = v@.subrange(a as int, b as int);
    if b - a > 1 && v[a] == '+' {
        assert(v@.subrange(a + 1, b as int) =~= s.drop_first());
        parse_digits(v, a + 1, b, max)
    } else {
        parse_digits(v, a, b, max)
    }
}

/// What `str::to_lowercase` makes of a text.
pub uninterp spec fn lowercase(s: Seq<char>) -> Seq<char>;

pub open spec fn is_ascii_text(s: Seq<char>) -> bool {
    forall|i: int| 0 <= i < s.len() ==> #[trigger] s[i] <= '\u{7f}'
}

/// ASCII letters `A`..`Z` turned to `a`..`z`, all else kept.
pub open spec fn ascii_lower(s: Seq<char>) -> Seq<char> {
    s.map_values(|c: char| if 'A' <= c && c <= 'Z' { ((c as int) + 32) as char } else { c })
}

/// `str::to_lowercase`: each character replaced by its Unicode lowercase
/// mapping. On ASCII text this maps `A`..`Z` to `a`..`z` and keeps every
/// other character.
#[verifier::external_body]
pub(crate) fn to_lowercase(s: &str) -> (r: String)
    ensures
        r@ == lowercase(s@),
        is_ascii_text(s@) ==> r@ == ascii_lower(s@),
{
    s.to_lowercase()
}

/// The characters of a string slice, in order.
pub fn str_chars(s: &str) -> (v: Vec<char>)
    ensures
        v@ == s@,
{
    broadcast use vstd::string::axiom_spec_iter;
    let mut v: Vec<char> = Vec::new();
    for c in it: s.chars()
        invariant
            it.seq() == s@,
            v@ == s@.take(it.index() as int),
    {
        v.push(c);
    }
    assert(s@.take(s@.len() as int) =~= s@);
    v
}

/// A `String` made of the given characters.
pub fn string_from_chars(v: &[char]) -> (s: String)
    ensures
        s@ == v@,
{
    let mut s = String::new();
    let mut i: usize = 0;
    while i < v.len()
        invariant
            i <= v@.len(),
            s@ == v@.take(i as int),
        decreases v.len() - i,
    {
        push_char(&mut s, v[i]);
        assert(v@.take(i + 1) =~= v@.take(i as int).push(v@[i as int]));
        i = i + 1;
    }
    assert(v@.take(v@.len() as int) =~= v@);
    s
}

/// `String::push`: append one character.
#[verifier::external_body]
pub(crate) fn push_char(s: &mut String, c: char)
    ensures
        final(s)@ == old(s)@.push(c),
{
    s.push(c)
}

/// `s.starts_with(p)`.
pub fn has_prefix(s: &str, p: &str) -> (r: bool)
    ensures
        r == (p@.len() <= s@.len() && s@.take(p@.len() as int) == p@),
{
    let v = str_chars(s);
    let w = str_chars(p);
    if w.len() > v.len() {
        return false;
    }
    let mut i: usize = 0;
    while i < w.len()
        invariant
            i <= w.len() <= v.len(),
            v@ == s@,
            w@ == p@,
            v@.take(i as int) == w@.take(i as int),
        decreases w.len() - i,
    {
        if v[i] != w[i] {
            assert(v@.take(w@.len() as int)[i as int] != w@[i as int]);
            return false;
        }
        assert(v@.take(i + 1) =~= v@.take(i as int).push(v@[i as int]));
        assert(w@.take(i + 1) =~= w@.take(i as int).push(w@[i as int]));
        i = i + 1;
    }
    assert(w@.take(i as int) =~= w@);
    true
}

} // verus!

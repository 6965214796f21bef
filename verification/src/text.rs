//! Character-level text helpers: decimal and hexadecimal rendering of
//! integers, ASCII classification and case folding.
use vstd::prelude::*;

verus! {

/// `String::push` appends one character.
pub assume_specification[ String::push ](s: &mut String, ch: char)
    ensures
        final(s)@ == old(s)@.push(ch),
;

/// The ASCII character of decimal digit `d` (0..=9), or of hexadecimal
/// digit `d` (10..=15 render as `A`..=`F`).
pub open spec fn digit_char(d: int) -> char {
    if d < 10 { (48 + d) as char } else { (55 + d) as char }
}

/// Decimal representation of `n`, without leading zeros.
pub open spec fn decimal(n: nat) -> Seq<char>
    decreases n,
{
    if n < 10 {
        seq![digit_char(n as int)]
    } else {
        decimal(n / 10).push(digit_char((n % 10) as int))
    }
}

/// Upper-case hexadecimal representation of `n`, without leading zeros.
pub open spec fn hexadecimal(n: nat) -> Seq<char>
    decreases n,
{
    if n < 16 {
        seq![digit_char(n as int)]
    } else {
        hexadecimal(n / 16).push(digit_char((n % 16) as int))
    }
}

/// ASCII lower-casing of one character.
pub fn lower(c: char) -> (l: char)
    ensures
        l == ascii_lower(c),
{
    if 'A' <= c && c <= 'Z' {
        ((c as u32 + 32) as u8) as char
    } else {
        c
    }
}

/// `n` in decimal, left-padded with `0` to at least `width` characters
/// (what `format!("{n:0width$}")` prints for a non-negative `n`).
pub open spec fn zero_padded(n: nat, width: nat) -> Seq<char> {
    let ds = decimal(n);
    if ds.len() >= width {
        ds
    } else {
        Seq::new((width - ds.len()) as nat, |i: int| '0') + ds
    }
}

/// A signed integer as `format!("{v:0width$}")` prints it: a leading `-`
/// for negative values, counted in the width.
pub open spec fn padded_int(v: int, width: nat) -> Seq<char> {
    if v >= 0 {
        zero_padded(v as nat, width)
    } else {
        seq!['-'] + zero_padded((-v) as nat, if width >= 1 { (width - 1) as nat } else { 0 })
    }
}

/// A signed integer in decimal, as `format!("{v}")` prints it.
pub open spec fn signed_decimal(v: int) -> Seq<char> {
    if v >= 0 {
        decimal(v as nat)
    } else {
        seq!['-'] + decimal((-v) as nat)
    }
}

pub proof fn lemma_decimal_len(n: nat)
    ensures
        1 <= decimal(n).len(),
        n < 10 <==> decimal(n).len() == 1,
        n < 100 <==> decimal(n).len() <= 2,
        n < 1000 <==> decimal(n).len() <= 3,
        n < 10000 <==> decimal(n).len() <= 4,
    decreases n,
{
    if n >= 10 {
        lemma_decimal_len(n / 10);
    }
}

/// Every character of `decimal(n)` is an ASCII digit.
pub proof fn lemma_decimal_digits(n: nat)
    ensures
        forall|i: int| 0 <= i < decimal(n).len() ==> is_ascii_digit(#[trigger] decimal(n)[i]),
    decreases n,
{
    if n >= 10 {
        lemma_decimal_digits(n / 10);
        assert forall|i: int| 0 <= i < decimal(n).len() implies is_ascii_digit(#[trigger] decimal(n)[i]) by {
            if i < decimal(n / 10).len() {
                assert(decimal(n)[i] == decimal(n / 10)[i]);
            }
        }
    }
}

/// A digit character reads back as its digit.
pub proof fn lemma_digit_char_value(d: int)
    requires
        0 <= d < 10,
    ensures
        digit_value(digit_char(d)) == d,
        is_ascii_digit(digit_char(d)),
{
}

/// Value of a run of ASCII digits.
pub open spec fn digits_value(s: Seq<char>) -> int
    decreases s.len(),
{
    if s.len() == 0 {
        0
    } else {
        digits_value(s.drop_last()) * 10 + digit_value(s.last())
    }
}

pub open spec fn all_digits(s: Seq<char>) -> bool {
    forall|i: int| 0 <= i < s.len() ==> is_ascii_digit(#[trigger] s[i])
}

/// `digits_value` reads back `decimal`.
pub proof fn lemma_digits_value_decimal(n: nat)
    ensures
        all_digits(decimal(n)),
        digits_value(decimal(n)) == n,
    decreases n,
{
    lemma_decimal_digits(n);
    lemma_digit_char_value((n % 10) as int);
    if n >= 10 {
        lemma_digits_value_decimal(n / 10);
        assert(decimal(n).drop_last() =~= decimal(n / 10));
        assert(decimal(n).last() == digit_char((n % 10) as int));
        assert(digits_value(decimal(n)) == digits_value(decimal(n / 10)) * 10 + (n % 10) as int);
    } else {
        assert(decimal(n).drop_last() =~= Seq::<char>::empty());
        assert(decimal(n).last() == digit_char(n as int));
        assert(digits_value(Seq::<char>::empty()) == 0);
        assert(digits_value(decimal(n)) == digits_value(decimal(n).drop_last()) * 10 + digit_value(decimal(n).last()));
    }
}

/// A digit string has a non-negative value.
pub proof fn lemma_digits_value_nonneg(s: Seq<char>)
    requires
        all_digits(s),
    ensures
        digits_value(s) >= 0,
    decreases s.len(),
{
    if s.len() > 0 {
        assert(all_digits(s.drop_last()));
        lemma_digits_value_nonneg(s.drop_last());
        assert(is_ascii_digit(s.last()));
    }
}

/// The digit character of `d` (0..=15).
pub fn digit(d: u32) -> (c: char)
    requires
        d < 16,
    ensures
        c == digit_char(d as int),
{
    if d < 10 {
        ((48 + d) as u8) as char
    } else {
        ((55 + d) as u8) as char
    }
}

/// Appends `n` in decimal.
pub fn push_decimal(out: &mut String, n: u64)
    ensures
        final(out)@ == old(out)@ + decimal(n as nat),
    decreases n,
{
    if n >= 10 {
        push_decimal(out, n / 10);
    }
    out.push(digit((n % 10) as u32));
}

/// Appends `n` in upper-case hexadecimal.
pub fn push_hexadecimal(out: &mut String, n: u64)
    ensures
        final(out)@ == old(out)@ + hexadecimal(n as nat),
    decreases n,
{
    if n >= 16 {
        push_hexadecimal(out, n / 16);
    }
    out.push(digit((n % 16) as u32));
}

/// Number of decimal digits of `n`.
pub fn decimal_len(n: u64) -> (len: usize)
    ensures
        len == decimal(n as nat).len(),
    decreases n,
{
    if n < 10 {
        1
    } else {
        let l = decimal_len(n / 10);
        assert(l < 20) by {
            lemma_decimal_len_pow((n / 10) as nat, 19);
            assert(pow10(19) == 10000000000000000000nat) by {
                reveal_with_fuel(pow10, 20);
            }
        }
        l + 1
    }
}

/// 10^k.
pub open spec fn pow10(k: nat) -> nat
    decreases k,
{
    if k == 0 { 1 } else { 10 * pow10((k - 1) as nat) }
}

/// A number below 10^k has at most k digits.
pub proof fn lemma_decimal_len_pow(n: nat, k: nat)
    ensures
        k >= 1 && n < pow10(k) ==> decimal(n).len() <= k,
    decreases n,
{
    if k >= 1 && n < pow10(k) && n >= 10 {
        assert(pow10(k) == 10 * pow10((k - 1) as nat));
        assert(n / 10 < pow10((k - 1) as nat));
        if k == 1 {
            assert(false);
        }
        lemma_decimal_len_pow(n / 10, (k - 1) as nat);
    }
}

/// Appends `n` in decimal, zero-padded to at least `width` characters.
pub fn push_zero_padded(out: &mut String, n: u64, width: usize)
    ensures
        final(out)@ == old(out)@ + zero_padded(n as nat, width as nat),
{
    let len = decimal_len(n);
    let ghost start = out@;
    if len < width {
        let mut i: usize = 0;
        while i < width - len
            invariant
                i <= width - len,
                len < width,
                out@ == start + Seq::new(i as nat, |j: int| '0'),
            decreases width - len - i,
        {
            out.push('0');
            i = i + 1;
            assert(out@ =~= start + Seq::new(i as nat, |j: int| '0'));
        }
    }
    let ghost mid = out@;
    push_decimal(out, n);
    assert(out@ =~= start + zero_padded(n as nat, width as nat));
}

/// Appends `v` as `format!("{v:0width$}")` prints it.
pub fn push_padded_int(out: &mut String, v: i64, width: usize)
    ensures
        final(out)@ == old(out)@ + padded_int(v as int, width as nat),
{
    if v >= 0 {
        push_zero_padded(out, v as u64, width);
    } else {
        let ghost start = out@;
        out.push('-');
        // The magnitude, taken so that it cannot overflow at `i64::MIN`.
        let magnitude: u64 = (-(v + 1)) as u64 + 1;
        push_zero_padded(out, magnitude, if width >= 1 { width - 1 } else { 0 });
        assert(out@ =~= start + padded_int(v as int, width as nat));
    }
}

/// Appends `v` as `format!("{v}")` prints it.
pub fn push_signed_decimal(out: &mut String, v: i64)
    ensures
        final(out)@ == old(out)@ + signed_decimal(v as int),
{
    if v >= 0 {
        push_decimal(out, v as u64);
    } else {
        let ghost start = out@;
        out.push('-');
        let magnitude: u64 = (-(v + 1)) as u64 + 1;
        push_decimal(out, magnitude);
        assert(out@ =~= start + signed_decimal(v as int));
    }
}

/// `c` is one of `0`..=`9`.
pub open spec fn is_ascii_digit(c: char) -> bool {
    '0' <= c <= '9'
}

/// The value of ASCII digit `c`.
pub open spec fn digit_value(c: char) -> int {
    c as int - 48
}

/// ASCII lower-casing, as `char::to_ascii_lowercase` does it.
pub open spec fn ascii_lower(c: char) -> char {
    if 'A' <= c <= 'Z' { ((c as int) + 32) as char } else { c }
}

/// `a` and `b` are equal when ASCII letters are compared case-insensitively
/// (`str::eq_ignore_ascii_case`).
pub open spec fn eq_ignore_ascii_case(a: Seq<char>, b: Seq<char>) -> bool {
    a.len() == b.len() && forall|i: int| 0 <= i < a.len() ==> ascii_lower(#[trigger] a[i]) == ascii_lower(b[i])
}

/// Unicode `White_Space` (what `char::is_whitespace` accepts).
pub open spec fn is_white_space(c: char) -> bool {
    ('\t' <= c <= '\r') || c == ' ' || c == '\u{85}' || c == '\u{a0}' || c == '\u{1680}'
        || ('\u{2000}' <= c <= '\u{200a}') || c == '\u{2028}' || c == '\u{2029}' || c == '\u{202f}'
        || c == '\u{205f}' || c == '\u{3000}'
}

pub fn is_whitespace_char(c: char) -> (b: bool)
    ensures
        b == is_white_space(c),
{
    ('\t' <= c && c <= '\r') || c == ' ' || c == '\u{85}' || c == '\u{a0}' || c == '\u{1680}'
        || ('\u{2000}' <= c && c <= '\u{200a}') || c == '\u{2028}' || c == '\u{2029}' || c == '\u{202f}'
        || c == '\u{205f}' || c == '\u{3000}'
}

/// `s` without leading white space.
pub open spec fn trim_front(s: Seq<char>) -> Seq<char>
    decreases s.len(),
{
    if s.len() > 0 && is_white_space(s[0]) {
        trim_front(s.drop_first())
    } else {
        s
    }
}

/// `s` without trailing white space.
pub open spec fn trim_back(s: Seq<char>) -> Seq<char>
    decreases s.len(),
{
    if s.len() > 0 && is_white_space(s.last()) {
        trim_back(s.drop_last())
    } else {
        s
    }
}

/// `s` without leading and trailing white space (`str::trim`).
pub open spec fn trimmed(s: Seq<char>) -> Seq<char> {
    trim_back(trim_front(s))
}

/// The bounds `(lo, hi)` of `trimmed(s[from..to])` inside `s`.
pub fn trim_bounds(s: &Vec<char>, from: usize, to: usize) -> (r: (usize, usize))
    requires
        from <= to <= s.len(),
    ensures
        from <= r.0 <= r.1 <= to,
        s@.subrange(r.0 as int, r.1 as int) == trimmed(s@.subrange(from as int, to as int)),
{
    let mut lo = from;
    while lo < to && is_whitespace_char(s[lo])
        invariant
            from <= lo <= to <= s.len(),
            trim_front(s@.subrange(from as int, to as int)) == trim_front(s@.subrange(lo as int, to as int)),
        decreases to - lo,
    {
        assert(s@.subrange(lo as int, to as int).drop_first() =~= s@.subrange(lo + 1, to as int));
        lo = lo + 1;
    }
    assert(trim_front(s@.subrange(lo as int, to as int)) == s@.subrange(lo as int, to as int));
    let mut hi = to;
    while hi > lo && is_whitespace_char(s[hi - 1])
        invariant
            from <= lo <= hi <= to <= s.len(),
            trimmed(s@.subrange(from as int, to as int)) == trim_back(s@.subrange(lo as int, hi as int)),
        decreases hi - lo,
    {
        assert(s@.subrange(lo as int, hi as int).drop_last() =~= s@.subrange(lo as int, hi - 1));
        hi = hi - 1;
    }
    (lo, hi)
}

/// Whether `a` and `b` hold the same characters (`a == b` on texts).
pub fn same_text(a: &str, b: &str) -> (r: bool)
    ensures
        r == (a@ == b@),
{
    let x = chars_of(a);
    let y = chars_of(b);
    if x.len() != y.len() {
        return false;
    }
    let mut i: usize = 0;
    while i < x.len()
        invariant
            x@ == a@,
            y@ == b@,
            x@.len() == y@.len(),
            i <= x@.len(),
            forall|j: int| 0 <= j < i ==> x@[j] == y@[j],
        decreases x.len() - i,
    {
        if x[i] != y[i] {
            return false;
        }
        i = i + 1;
    }
    assert(a@ =~= b@);
    true
}

/// Whether `s` is empty once trimmed (`s.trim().is_empty()`).
pub fn is_blank(s: &str) -> (b: bool)
    ensures
        b == (trimmed(s@).len() == 0),
{
    let cs = chars_of(s);
    let (lo, hi) = trim_bounds(&cs, 0, cs.len());
    assert(cs@.subrange(0, cs@.len() as int) =~= s@);
    lo == hi
}

/// The characters of `s`.
pub fn chars_of(s: &str) -> (v: Vec<char>)
    ensures
        v@ == s@,
{
    let mut v: Vec<char> = Vec::new();
    for c in it: s.chars()
        invariant
            v@ == it.seq().take(it.index() as int),
    {
        v.push(c);
    }
    assert(v@ =~= s@);
    v
}

} // verus!

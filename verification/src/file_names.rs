//! Which project and chip names are safe to use as file or directory names
//! on every supported operating system.
use vstd::prelude::*;
use crate::text::{ascii_lower, chars_of, decimal, lemma_digits_value_decimal, lower, push_decimal, trim_bounds, trimmed};

verus! {

/// Characters that are illegal (or behave strangely) in file and directory
/// names on some operating system: `< > : " / \ | ? * .`
pub open spec fn is_forbidden_char(c: char) -> bool {
    c == '<' || c == '>' || c == ':' || c == '"' || c == '/' || c == '\\' || c == '|' || c == '?' || c == '*'
        || c == '.'
}

/// Some character of `name` is forbidden.
pub open spec fn contains_forbidden_char(name: Seq<char>) -> bool {
    exists|i: int| 0 <= i < name.len() && is_forbidden_char(#[trigger] name[i])
}

/// A reserved device name on Windows, compared case-insensitively: `CON`,
/// `PRN`, `AUX`, `NUL`, or `COM`/`LPT` followed by one digit `1`..=`9`.
pub open spec fn is_reserved_device_name(s: Seq<char>) -> bool {
    let l = s.map_values(|c: char| ascii_lower(c));
    ||| l == seq!['c', 'o', 'n']
    ||| l == seq!['p', 'r', 'n']
    ||| l == seq!['a', 'u', 'x']
    ||| l == seq!['n', 'u', 'l']
    ||| (l.len() == 4 && (l.subrange(0, 3) == seq!['c', 'o', 'm'] || l.subrange(0, 3) == seq!['l', 'p', 't'])
        && '1' <= l[3] <= '9')
}

/// `name` is safe to use as a file or directory name: not empty, no
/// forbidden character, and (once surrounding white space is trimmed) not a
/// reserved device name.
pub open spec fn is_valid_file_name(name: Seq<char>) -> bool {
    name.len() > 0 && !contains_forbidden_char(name) && !is_reserved_device_name(trimmed(name))
}

fn is_forbidden(c: char) -> (b: bool)
    ensures
        b == is_forbidden_char(c),
{
    c == '<' || c == '>' || c == ':' || c == '"' || c == '/' || c == '\\' || c == '|' || c == '?' || c == '*'
        || c == '.'
}

/// Whether `name` holds a character that is illegal in file names somewhere.
pub fn name_contains_forbidden_char(name: &str) -> (b: bool)
    ensures
        b == contains_forbidden_char(name@),
{
    let t = chars_of(name);
    let mut i: usize = 0;
    while i < t.len()
        invariant
            i <= t.len(),
            t@ == name@,
            forall|k: int| 0 <= k < i ==> !is_forbidden_char(#[trigger] t@[k]),
        decreases t.len() - i,
    {
        if is_forbidden(t[i]) {
            assert(is_forbidden_char(name@[i as int]));
            return true;
        }
        i = i + 1;
    }
    false
}

/// Whether `t[lo..hi]` is a reserved device name.
fn is_reserved_range(t: &Vec<char>, lo: usize, hi: usize) -> (b: bool)
    requires
        lo <= hi <= t.len(),
    ensures
        b == is_reserved_device_name(t@.subrange(lo as int, hi as int)),
{
    let ghost s = t@.subrange(lo as int, hi as int);
    let ghost l = s.map_values(|c: char| ascii_lower(c));
    let n = hi - lo;
    if n == 3 {
        let a = lower(t[lo]);
        let b = lower(t[lo + 1]);
        let c = lower(t[lo + 2]);
        assert(l =~= seq![a, b, c]);
        (a == 'c' && b == 'o' && c == 'n') || (a == 'p' && b == 'r' && c == 'n') || (a == 'a' && b == 'u' && c
            == 'x') || (a == 'n' && b == 'u' && c == 'l')
    } else if n == 4 {
        let a = lower(t[lo]);
        let b = lower(t[lo + 1]);
        let c = lower(t[lo + 2]);
        let d = lower(t[lo + 3]);
        assert(l =~= seq![a, b, c, d]);
        assert(l.subrange(0, 3) =~= seq![a, b, c]);
        ((a == 'c' && b == 'o' && c == 'm') || (a == 'l' && b == 'p' && c == 't')) && '1' <= d && d <= '9'
    } else {
        assert(l.len() == n);
        false
    }
}

/// Whether `name`, trimmed, is a reserved device name.
pub fn is_reserved_file_name(name: &str) -> (b: bool)
    ensures
        b == is_reserved_device_name(trimmed(name@)),
{
    let t = chars_of(name);
    let (lo, hi) = trim_bounds(&t, 0, t.len());
    assert(t@.subrange(0, t.len() as int) =~= name@);
    is_reserved_range(&t, lo, hi)
}

/// True if `name` is safe to use as a file/directory name on every
/// operating system this game supports.
pub fn valid_file_name(name: &str) -> (b: bool)
    ensures
        b == is_valid_file_name(name@),
{
    if name.is_empty() {
        return false;
    }
    !name_contains_forbidden_char(name) && !is_reserved_file_name(name)
}

/// Position of the last `.` in `s`, if any.
pub open spec fn last_dot(s: Seq<char>) -> Option<int>
    decreases s.len(),
{
    if s.len() == 0 {
        None
    } else if s.last() == '.' {
        Some(s.len() - 1)
    } else {
        last_dot(s.drop_last())
    }
}

/// A file name split into stem and extension the way `std::path` splits
/// it: at the last `.`, unless that dot starts the name (then there is no
/// extension), and `..` has none either.
pub open spec fn split_extension(name: Seq<char>) -> (Seq<char>, Option<Seq<char>>) {
    if name == seq!['.', '.'] {
        (name, None)
    } else {
        match last_dot(name) {
            Some(i) => if i > 0 {
                (name.subrange(0, i), Some(name.subrange(i + 1, name.len() as int)))
            } else {
                (name, None)
            },
            None => (name, None),
        }
    }
}

/// `base`, `_`, `n` in decimal, then `.` and the extension if there is one.
pub open spec fn numbered(base: Seq<char>, ext: Option<Seq<char>>, n: nat) -> Seq<char> {
    match ext {
        Some(e) => base + seq!['_'] + decimal(n) + seq!['.'] + e,
        None => base + seq!['_'] + decimal(n),
    }
}

/// The `n`-th alternative to the file name `name`: `_n` before its
/// extension.
pub open spec fn numbered_file_name(name: Seq<char>, n: nat) -> Seq<char> {
    numbered(split_extension(name).0, split_extension(name).1, n)
}

/// The characters of `cs` before position `end`.
pub open spec fn chars_before(cs: Seq<char>, end: usize) -> Seq<char> {
    cs.subrange(0, end as int)
}

/// The characters of `cs` from position `start` on, if there is a start.
pub open spec fn chars_from(cs: Seq<char>, start: Option<usize>) -> Option<Seq<char>> {
    match start {
        Some(e) => Some(cs.subrange(e as int, cs.len() as int)),
        None => None,
    }
}

/// Some entry of `taken` is `s`.
pub open spec fn name_taken(taken: Seq<String>, s: Seq<char>) -> bool {
    exists|i: int| 0 <= i < taken.len() && (#[trigger] taken[i])@ == s
}

/// What a search for a free name yields: `name` itself when it is free,
/// otherwise `alt(n)` for the first `n` from 1 on that is free.
pub open spec fn first_free(taken: Seq<String>, name: Seq<char>, alt: spec_fn(nat) -> Seq<char>, r: Seq<char>) -> bool {
    if !name_taken(taken, name) {
        r == name
    } else {
        exists|n: nat| #![trigger alt(n)] n >= 1 && r == alt(n) && !name_taken(taken, r)
            && forall|m: nat| 1 <= m < n ==> name_taken(taken, #[trigger] alt(m))
    }
}

/// Different numbers give different alternatives.
pub proof fn lemma_numbered_injective(base: Seq<char>, ext: Option<Seq<char>>, a: nat, b: nat)
    requires
        numbered(base, ext, a) == numbered(base, ext, b),
    ensures
        a == b,
{
    let p = base + seq!['_'];
    let tail = match ext {
        Some(e) => seq!['.'] + e,
        None => Seq::<char>::empty(),
    };
    assert(numbered(base, ext, a) =~= p + decimal(a) + tail);
    assert(numbered(base, ext, b) =~= p + decimal(b) + tail);
    let x = numbered(base, ext, a);
    assert(decimal(a).len() == decimal(b).len());
    assert(x.subrange(p.len() as int, (p.len() + decimal(a).len()) as int) =~= decimal(a));
    assert(x.subrange(p.len() as int, (p.len() + decimal(b).len()) as int) =~= decimal(b));
    lemma_digits_value_decimal(a);
    lemma_digits_value_decimal(b);
}

/// Distinct positions into a list of `len` entries are at most `len`.
proof fn lemma_distinct_positions(idx: Seq<int>, len: int)
    requires
        0 <= len,
        idx.no_duplicates(),
        forall|k: int| 0 <= k < idx.len() ==> 0 <= #[trigger] idx[k] < len,
    ensures
        idx.len() <= len,
{
    if idx.len() > 0 {
        assert(0 <= idx[0] < len);
        idx.unique_seq_to_set();
        vstd::set_lib::lemma_int_range(0, len);
        assert forall|x: int| idx.to_set().contains(x) implies vstd::set_lib::set_int_range(0, len).contains(x) by {
            assert(idx.contains(x));
            let k = choose|k: int| 0 <= k < idx.len() && idx[k] == x;
            assert(0 <= idx[k] < len);
        }
        assert(idx.to_set().subset_of(vstd::set_lib::set_int_range(0, len)));
        vstd::set_lib::lemma_len_subset(idx.to_set(), vstd::set_lib::set_int_range(0, len));
    }
}

/// Position in `taken` of an entry equal to `s`, if any.
fn position_of(taken: &[String], s: &String) -> (r: Option<usize>)
    ensures
        match r {
            Some(i) => i < taken@.len() && taken@[i as int]@ == s@,
            None => !name_taken(taken@, s@),
        },
{
    let mut i: usize = 0;
    while i < taken.len()
        invariant
            i <= taken@.len(),
            forall|j: int| 0 <= j < i ==> (#[trigger] taken@[j])@ != s@,
        decreases taken.len() - i,
    {
        if taken[i] == *s {
            return Some(i);
        }
        i = i + 1;
    }
    None
}

/// Appends the characters `cs[from..to]`.
fn push_chars(out: &mut String, cs: &Vec<char>, from: usize, to: usize)
    requires
        from <= to <= cs@.len(),
    ensures
        final(out)@ == old(out)@ + cs@.subrange(from as int, to as int),
{
    let mut k = from;
    while k < to
        invariant
            from <= k <= to <= cs@.len(),
            out@ == old(out)@ + cs@.subrange(from as int, k as int),
        decreases to - k,
    {
        out.push(cs[k]);
        k = k + 1;
        assert(out@ =~= old(out)@ + cs@.subrange(from as int, k as int));
    }
}

/// `numbered(base, ext, n)`, with `base` and the extension given as
/// character ranges of `cs`.
fn numbered_name(cs: &Vec<char>, base_end: usize, ext_start: Option<usize>, n: u64) -> (r: String)
    requires
        base_end <= cs@.len(),
        ext_start matches Some(e) ==> e <= cs@.len(),
    ensures
        r@ == numbered(chars_before(cs@, base_end), chars_from(cs@, ext_start), n as nat),
{
    let mut r = String::new();
    push_chars(&mut r, cs, 0, base_end);
    r.push('_');
    push_decimal(&mut r, n);
    match ext_start {
        Some(e) => {
            r.push('.');
            push_chars(&mut r, cs, e, cs.len());
            assert(r@ =~= cs@.subrange(0, base_end as int) + seq!['_'] + decimal(n as nat) + seq!['.'] + cs@.subrange(e as int, cs@.len() as int));
        },
        None => {
            assert(r@ =~= cs@.subrange(0, base_end as int) + seq!['_'] + decimal(n as nat));
        },
    }
    r
}

/// The first of `numbered(base, ext, 1)`, `numbered(base, ext, 2)`, ... that
/// no entry of `taken` equals (one always exists among the first
/// `taken.len() + 1`).
fn first_free_numbered(taken: &[String], cs: &Vec<char>, base_end: usize, ext_start: Option<usize>) -> (r: String)
    requires
        taken@.len() < usize::MAX,
        base_end <= cs@.len(),
        ext_start matches Some(e) ==> e <= cs@.len(),
    ensures
        exists|n: nat| n >= 1 && r@ == #[trigger] numbered(chars_before(cs@, base_end), chars_from(cs@, ext_start), n)
            && !name_taken(taken@, r@)
            && forall|m: nat| 1 <= m < n ==> name_taken(taken@, #[trigger] numbered(chars_before(cs@, base_end), chars_from(cs@, ext_start), m)),
{
    let ghost base = chars_before(cs@, base_end);
    let ghost ext = chars_from(cs@, ext_start);
    let mut n: usize = 1;
    let ghost mut idx: Seq<int> = seq![];
    loop
        invariant
            taken@.len() < usize::MAX,
            base_end <= cs@.len(),
            ext_start matches Some(e) ==> e <= cs@.len(),
            base == chars_before(cs@, base_end),
            ext == chars_from(cs@, ext_start),
            1 <= n <= taken@.len() + 1,
            idx.len() == n - 1,
            idx.no_duplicates(),
            forall|k: int| 0 <= k < idx.len() ==> 0 <= #[trigger] idx[k] < taken@.len()
                && taken@[idx[k]]@ == numbered(base, ext, (k + 1) as nat),
            forall|m: nat| 1 <= m < n ==> name_taken(taken@, #[trigger] numbered(base, ext, m)),
        decreases taken@.len() + 1 - n,
    {
        let c = numbered_name(cs, base_end, ext_start, n as u64);
        match position_of(taken, &c) {
            None => {
                assert(c@ == numbered(base, ext, n as nat));
                return c;
            },
            Some(i) => {
                proof {
                    assert forall|k: int| 0 <= k < idx.len() implies idx[k] != i by {
                        if idx[k] == i {
                            lemma_numbered_injective(base, ext, (k + 1) as nat, n as nat);
                        }
                    }
                    idx = idx.push(i as int);
                    assert forall|a: int, b: int| 0 <= a < b < idx.len() implies idx[a] != idx[b] by {
                        if b < idx.len() - 1 {
                            assert(idx.drop_last()[a] == idx[a]);
                        }
                    }
                    lemma_distinct_positions(idx, taken@.len() as int);
                    assert(taken@[i as int]@ == numbered(base, ext, n as nat));
                    assert(name_taken(taken@, numbered(base, ext, n as nat)));
                }
                n = n + 1;
            },
        }
    }
}

/// A name for a file that does not clash with any of `taken` (the names
/// already in its directory): `file_name` itself when it is free, otherwise
/// the first free of `stem_1.ext`, `stem_2.ext`, ... (`stem_1`, ... when it
/// has no extension).
pub fn ensure_unique_file_name(file_name: &str, taken: &[String]) -> (r: String)
    requires
        taken@.len() < usize::MAX,
    ensures
        first_free(taken@, file_name@, |n: nat| numbered_file_name(file_name@, n), r@),
{
    let own = file_name.to_string();
    if position_of(taken, &own).is_none() {
        return own;
    }
    let cs = chars_of(file_name);
    let len = cs.len();
    // Find the last dot.
    let mut i = len;
    assert(cs@.subrange(0, len as int) =~= cs@);
    while i > 0 && cs[i - 1] != '.'
        invariant
            i <= len == cs@.len(),
            cs@ == file_name@,
            last_dot(cs@) == last_dot(cs@.subrange(0, i as int)),
        decreases i,
    {
        assert(cs@.subrange(0, i as int).drop_last() =~= cs@.subrange(0, i - 1));
        i = i - 1;
    }
    proof {
        assert(cs@.subrange(0, len as int) =~= cs@);
        if i > 0 {
            assert(cs@.subrange(0, i as int).last() == '.');
        } else {
            assert(cs@.subrange(0, 0) =~= Seq::<char>::empty());
        }
    }
    let is_dot_dot = len == 2 && cs[0] == '.' && cs[1] == '.';
    proof {
        assert(is_dot_dot == (file_name@ == seq!['.', '.'])) by {
            if file_name@ == seq!['.', '.'] {
                assert(cs@[0] == '.' && cs@[1] == '.');
            }
            if is_dot_dot {
                assert(cs@ =~= seq!['.', '.']);
            }
        }
    }
    let r = if !is_dot_dot && i > 1 {
        first_free_numbered(taken, &cs, i - 1, Some(i))
    } else {
        first_free_numbered(taken, &cs, len, None)
    };
    proof {
        assert(cs@.subrange(0, len as int) =~= cs@);
        let alt = |n: nat| numbered_file_name(file_name@, n);
        let base = if !is_dot_dot && i > 1 { cs@.subrange(0, i - 1) } else { cs@.subrange(0, len as int) };
        let ext = if !is_dot_dot && i > 1 { Some(cs@.subrange(i as int, len as int)) } else { None };
        assert(split_extension(file_name@) == (base, ext));
        assert forall|n: nat| #[trigger] alt(n) == numbered(base, ext, n) by {}
        assert(base == chars_before(cs@, if !is_dot_dot && i > 1 { (i - 1) as usize } else { len }));
        assert(ext == chars_from(cs@, if !is_dot_dot && i > 1 { Some(i) } else { None }));
        let n = choose|n: nat| n >= 1 && r@ == #[trigger] numbered(base, ext, n) && !name_taken(taken@, r@)
            && forall|m: nat| 1 <= m < n ==> name_taken(taken@, #[trigger] numbered(base, ext, m));
        assert(r@ == alt(n));
        assert forall|m: nat| 1 <= m < n implies name_taken(taken@, #[trigger] alt(m)) by {
            assert(alt(m) == numbered(base, ext, m));
        }
    }
    r
}

/// `suffix` appended to a file or directory name.
pub fn append_to_file_name(name: &str, suffix: &str) -> (r: String)
    ensures
        r@ == name@ + suffix@,
{
    let mut r = name.to_string();
    let cs = chars_of(suffix);
    push_chars(&mut r, &cs, 0, cs.len());
    assert(cs@.subrange(0, cs@.len() as int) =~= suffix@);
    r
}

/// A name for a directory that does not clash with any of `taken` (the
/// names already beside it): `name` itself when it is free, otherwise the
/// first free of `name_1`, `name_2`, ...
pub fn ensure_unique_directory_name(name: &str, taken: &[String]) -> (r: String)
    requires
        taken@.len() < usize::MAX,
    ensures
        first_free(taken@, name@, |n: nat| numbered(name@, None, n), r@),
{
    let own = name.to_string();
    if position_of(taken, &own).is_none() {
        return own;
    }
    let cs = chars_of(name);
    let r = first_free_numbered(taken, &cs, cs.len(), None);
    proof {
        assert(cs@.subrange(0, cs@.len() as int) =~= name@);
        assert(chars_before(cs@, cs.len()) == name@);
        let alt = |n: nat| numbered(name@, None, n);
        let n = choose|n: nat| n >= 1 && r@ == #[trigger] numbered(name@, None, n) && !name_taken(taken@, r@)
            && forall|m: nat| 1 <= m < n ==> name_taken(taken@, #[trigger] numbered(name@, None, m));
        assert(r@ == alt(n));
        assert forall|m: nat| 1 <= m < n implies name_taken(taken@, #[trigger] alt(m)) by {
            assert(alt(m) == numbered(name@, None, m));
        }
    }
    r
}

} // verus!

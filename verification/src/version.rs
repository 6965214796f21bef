//! `major.minor.patch` version of the save format: decides whether a saved
//! project (or chip) is compatible with this build, and stamps newly saved
//! files.
use vstd::prelude::*;
use crate::text::{all_digits, decimal, digits_value, is_ascii_digit, push_decimal, trim_bounds, trimmed};

verus! {

#[derive(Debug, Clone, Copy, PartialEq, Eq, Structural, PartialOrd, Ord, Hash)]
pub struct Version {
    pub major: u32,
    pub minor: u32,
    pub patch: u32,
}

/// The text could not be read as `major.minor.patch`.
#[derive(Debug, Clone, Copy, PartialEq, Eq, Structural)]
pub struct VersionParseError;

/// The current version of this build, 2.1.6.
pub open spec fn current_version() -> Version {
    Version { major: 2, minor: 1, patch: 6 }
}

/// The oldest project format this build can open, 2.0.0.
pub open spec fn earliest_compatible_version() -> Version {
    Version { major: 2, minor: 0, patch: 0 }
}

/// The current version of this build.
pub fn dls_version() -> (v: Version)
    ensures
        v == current_version(),
{
    Version { major: 2, minor: 1, patch: 6 }
}

/// The oldest project format this build can open.
pub fn dls_version_earliest_compatible() -> (v: Version)
    ensures
        v == earliest_compatible_version(),
{
    Version { major: 2, minor: 0, patch: 0 }
}

/// Lexicographic order on (major, minor, patch).
pub open spec fn version_le(a: Version, b: Version) -> bool {
    a.major < b.major || (a.major == b.major && (a.minor < b.minor || (a.minor == b.minor && a.patch <= b.patch)))
}

/// The single comparable integer `major * 100000 + minor * 1000 + patch`.
pub open spec fn version_int(v: Version) -> int {
    v.major * 100000 + v.minor * 1000 + v.patch
}

/// For versions whose minor part is below 100 and patch part below 1000,
/// the packed integer orders them as the versions themselves are ordered
/// (major, then minor, then patch), and tells them apart.
pub proof fn lemma_version_int_orders_versions(a: Version, b: Version)
    requires
        a.minor < 100,
        a.patch < 1000,
        b.minor < 100,
        b.patch < 1000,
    ensures
        version_le(a, b) <==> version_int(a) <= version_int(b),
        a == b <==> version_int(a) == version_int(b),
{
    let la = a.minor * 1000 + a.patch;
    let lb = b.minor * 1000 + b.patch;
    assert(0 <= la < 100000 && 0 <= lb < 100000);
    if a.major < b.major {
        assert(a.major * 100000 + 100000 <= b.major * 100000) by (nonlinear_arith)
            requires
                a.major < b.major,
        ;
    } else if a.major > b.major {
        assert(b.major * 100000 + 100000 <= a.major * 100000) by (nonlinear_arith)
            requires
                b.major < a.major,
        ;
    }
}

/// `"{major}.{minor}.{patch}"`.
pub open spec fn version_text(v: Version) -> Seq<char> {
    decimal(v.major as nat) + seq!['.'] + decimal(v.minor as nat) + seq!['.'] + decimal(v.patch as nat)
}

/// The pieces of `s` between occurrences of `sep` (`str::split`).
pub open spec fn split_on(s: Seq<char>, sep: char) -> Seq<Seq<char>>
    decreases s.len(),
{
    if s.len() == 0 {
        seq![seq![]]
    } else {
        let pieces = split_on(s.drop_last(), sep);
        if s.last() == sep {
            pieces.push(seq![])
        } else {
            pieces.update(pieces.len() - 1, pieces.last().push(s.last()))
        }
    }
}

/// What `u32::from_str` yields: an optional `+`, then at least one ASCII
/// digit, with a value below 2^32.
pub open spec fn u32_text(s: Seq<char>) -> Option<u32> {
    let ds = if s.len() > 0 && s[0] == '+' { s.drop_first() } else { s };
    if ds.len() > 0 && all_digits(ds) && digits_value(ds) <= u32::MAX {
        Some(digits_value(ds) as u32)
    } else {
        None
    }
}

/// The version `s` denotes: exactly three `.`-separated pieces, each a
/// `u32` once surrounding white space is trimmed.
pub open spec fn parse_version_text(s: Seq<char>) -> Option<Version> {
    let pieces = split_on(s, '.');
    if pieces.len() == 3 {
        match (u32_text(trimmed(pieces[0])), u32_text(trimmed(pieces[1])), u32_text(trimmed(pieces[2]))) {
            (Some(major), Some(minor), Some(patch)) => Some(Version { major, minor, patch }),
            _ => None,
        }
    } else {
        None
    }
}

impl Version {
    pub fn new(major: u32, minor: u32, patch: u32) -> (v: Self)
        ensures
            v == (Version { major, minor, patch }),
    {
        Self { major, minor, patch }
    }

    /// Single comparable integer `major * 100000 + minor * 1000 + patch`.
    pub fn to_int(self) -> (r: i64)
        ensures
            r == version_int(self),
    {
        self.major as i64 * 100_000 + self.minor as i64 * 1_000 + self.patch as i64
    }

    /// Whether `self` is the same as or older than `other`.
    pub fn is_at_most(&self, other: &Version) -> (b: bool)
        ensures
            b == version_le(*self, *other),
    {
        self.major < other.major || (self.major == other.major && (self.minor < other.minor || (self.minor
            == other.minor && self.patch <= other.patch)))
    }

    /// `"{major}.{minor}.{patch}"`.
    pub fn to_string(&self) -> (s: String)
        ensures
            s@ == version_text(*self),
    {
        let mut s = String::new();
        push_decimal(&mut s, self.major as u64);
        s.push('.');
        push_decimal(&mut s, self.minor as u64);
        s.push('.');
        push_decimal(&mut s, self.patch as u64);
        assert(s@ =~= version_text(*self));
        s
    }

    /// Reads exactly three dot-separated integer components, e.g. `"2.1.6"`.
    pub fn parse(s: &str) -> (r: Result<Self, VersionParseError>)
        ensures
            match parse_version_text(s@) {
                Some(v) => r == Ok::<Version, VersionParseError>(v),
                None => r == Err::<Version, VersionParseError>(VersionParseError),
            },
    {
        let t = crate::text::chars_of(s);
        let (starts, ends) = split_bounds(&t, '.');
        if starts.len() != 3 {
            return Err(VersionParseError);
        }
        let major = parse_u32_piece(&t, starts[0], ends[0]);
        let minor = parse_u32_piece(&t, starts[1], ends[1]);
        let patch = parse_u32_piece(&t, starts[2], ends[2]);
        match (major, minor, patch) {
            (Some(major), Some(minor), Some(patch)) => Ok(Self { major, minor, patch }),
            _ => Err(VersionParseError),
        }
    }

    /// Like `parse`, without the error value.
    pub fn try_parse(s: &str) -> (r: Option<Self>)
        ensures
            r == parse_version_text(s@),
    {
        match Self::parse(s) {
            Ok(v) => Some(v),
            Err(_) => None,
        }
    }
}

/// Start and end indices of the pieces of `t` between occurrences of `sep`.
#[verifier::spinoff_prover]
fn split_bounds(t: &Vec<char>, sep: char) -> (r: (Vec<usize>, Vec<usize>))
    ensures
        r.0.len() == r.1.len() == split_on(t@, sep).len(),
        forall|i: int| 0 <= i < r.0.len() ==> #[trigger] r.0[i] <= r.1[i] <= t.len(),
        forall|i: int| 0 <= i < r.0.len() ==> t@.subrange(r.0[i] as int, r.1[i] as int) == #[trigger] split_on(t@, sep)[i],
{
    let mut starts: Vec<usize> = Vec::new();
    let mut ends: Vec<usize> = Vec::new();
    let mut start: usize = 0;
    let mut i: usize = 0;
    assert(split_on(t@.subrange(0, 0), sep) =~= seq![seq![]]);
    while i < t.len()
        invariant
            start <= i <= t.len(),
            starts.len() == ends.len(),
            split_on(t@.subrange(0, i as int), sep).len() == starts.len() + 1,
            split_on(t@.subrange(0, i as int), sep).last() == t@.subrange(start as int, i as int),
            forall|k: int| 0 <= k < starts.len() ==> #[trigger] starts@[k] <= ends@[k] && ends@[k] <= i,
            forall|k: int| 0 <= k < starts.len() ==> t@.subrange(starts[k] as int, ends[k] as int) == #[trigger] split_on(t@.subrange(0, i as int), sep)[k],
        decreases t.len() - i,
    {
        let ghost prev = split_on(t@.subrange(0, i as int), sep);
        let ghost old_starts = starts@;
        let ghost old_ends = ends@;
        let ghost old_start = start;
        assert(t@.subrange(0, i + 1).drop_last() =~= t@.subrange(0, i as int));
        assert(t@.subrange(0, i + 1).last() == t@[i as int]);
        if t[i] == sep {
            starts.push(start);
            ends.push(i);
            start = i + 1;
            proof {
                let pieces = split_on(t@.subrange(0, i + 1), sep);
                assert(pieces == prev.push(seq![]));
                assert(t@.subrange(start as int, i + 1) =~= Seq::<char>::empty());
                assert forall|k: int| 0 <= k < starts.len() implies #[trigger] starts@[k] <= ends@[k] && ends@[k] <= i + 1 by {
                    if k < old_starts.len() {
                        assert(starts@[k] == old_starts[k] && ends@[k] == old_ends[k]);
                    } else {
                        assert(starts@[k] == old_start && ends@[k] == i);
                    }
                }
                assert forall|k: int| 0 <= k < starts.len() implies t@.subrange(starts[k] as int, ends[k] as int) == #[trigger] pieces[k] by {
                    if k < old_starts.len() {
                        assert(starts[k] == old_starts[k] && ends[k] == old_ends[k]);
                        assert(pieces[k] == prev[k]);
                    } else {
                        assert(starts[k] == old_start && ends[k] == i);
                        assert(pieces[k] == prev.last());
                    }
                }
            }
        } else {
            proof {
                let pieces = split_on(t@.subrange(0, i + 1), sep);
                assert(t@.subrange(start as int, i + 1) =~= t@.subrange(start as int, i as int).push(t@[i as int]));
                assert(pieces == prev.update(prev.len() - 1, prev.last().push(t@[i as int])));
                assert forall|k: int| 0 <= k < starts.len() implies t@.subrange(starts[k] as int, ends[k] as int) == #[trigger] pieces[k] by {
                    assert(pieces[k] == prev[k]);
                }
                assert forall|k: int| 0 <= k < starts.len() implies #[trigger] starts@[k] <= ends@[k] && ends@[k] <= i + 1 by {
                    assert(starts@[k] == old_starts[k] && ends@[k] == old_ends[k]);
                }
            }
        }
        i = i + 1;
    }
    let ghost old_starts = starts@;
    let ghost old_ends = ends@;
    starts.push(start);
    ends.push(t.len());
    assert(t@.subrange(0, t.len() as int) =~= t@);
    assert forall|k: int| 0 <= k < starts.len() implies #[trigger] starts[k] <= ends[k] <= t.len() by {
        if k < old_starts.len() {
            assert(starts@[k] == old_starts[k] && ends@[k] == old_ends[k]);
        }
    }
    assert forall|k: int| 0 <= k < starts.len() implies t@.subrange(starts[k] as int, ends[k] as int) == #[trigger] split_on(t@, sep)[k] by {
        if k < old_starts.len() {
            assert(starts[k] == old_starts[k] && ends[k] == old_ends[k]);
        }
    }
    (starts, ends)
}

/// Parses `trimmed(t[from..to])` as a `u32`.
#[verifier::loop_isolation(false)]
fn parse_u32_piece(t: &Vec<char>, from: usize, to: usize) -> (r: Option<u32>)
    requires
        from <= to <= t.len(),
    ensures
        r == u32_text(trimmed(t@.subrange(from as int, to as int))),
{
    let (lo, hi) = trim_bounds(t, from, to);
    let ghost s = t@.subrange(lo as int, hi as int);
    let start = if lo < hi && t[lo] == '+' { lo + 1 } else { lo };
    let ghost ds = t@.subrange(start as int, hi as int);
    assert(lo < hi && t@[lo as int] == '+' ==> ds =~= s.drop_first());
    assert(!(lo < hi && t@[lo as int] == '+') ==> ds =~= s);
    if start >= hi {
        return None;
    }
    let mut v: u64 = 0;
    let mut i = start;
    while i < hi
        invariant
            start <= i <= hi <= t.len(),
            ds == t@.subrange(start as int, hi as int),
            all_digits(t@.subrange(start as int, i as int)),
            v == digits_value(t@.subrange(start as int, i as int)),
            v <= u32::MAX,
        decreases hi - i,
    {
        let c = t[i];
        if !('0' <= c && c <= '9') {
            assert(ds[i - start] == c);
            assert(!all_digits(ds));
            return None;
        }
        assert(t@.subrange(start as int, i + 1).drop_last() =~= t@.subrange(start as int, i as int));
        let nv = v * 10 + (c as u32 - 48) as u64;
        if nv > 0xFFFF_FFFF {
            proof {
                assert(ds.subrange(0, (i + 1 - start) as int) =~= t@.subrange(start as int, i + 1));
                if all_digits(ds) {
                    lemma_digits_value_prefix(ds, (i + 1 - start) as nat);
                }
            }
            return None;
        }
        v = nv;
        i = i + 1;
    }
    assert(t@.subrange(start as int, hi as int) =~= ds);
    Some(v as u32)
}

/// Appending a separator-free run extends the last piece.
proof fn lemma_split_extend(p: Seq<char>, r: Seq<char>, sep: char)
    requires
        forall|i: int| 0 <= i < r.len() ==> r[i] != sep,
    ensures
        split_on(p + r, sep) == split_on(p, sep).update(
            split_on(p, sep).len() - 1,
            split_on(p, sep).last() + r,
        ),
        split_on(p, sep).len() >= 1,
    decreases r.len(),
{
    lemma_split_nonempty(p, sep);
    if r.len() == 0 {
        assert(p + r =~= p);
        assert(split_on(p, sep).last() + r =~= split_on(p, sep).last());
        assert(split_on(p, sep).update(split_on(p, sep).len() - 1, split_on(p, sep).last()) =~= split_on(p, sep));
    } else {
        lemma_split_extend(p, r.drop_last(), sep);
        assert((p + r).drop_last() =~= p + r.drop_last());
        assert((p + r).last() == r.last());
        assert(split_on(p, sep).last() + r =~= (split_on(p, sep).last() + r.drop_last()).push(r.last()));
        assert(split_on(p + r, sep) =~= split_on(p, sep).update(
            split_on(p, sep).len() - 1,
            split_on(p, sep).last() + r,
        ));
    }
}

proof fn lemma_split_nonempty(p: Seq<char>, sep: char)
    ensures
        split_on(p, sep).len() >= 1,
    decreases p.len(),
{
    if p.len() > 0 {
        lemma_split_nonempty(p.drop_last(), sep);
    }
}

/// `trimmed` leaves a digit string as it is.
proof fn lemma_trim_digits(s: Seq<char>)
    requires
        all_digits(s),
    ensures
        trimmed(s) == s,
{
    if s.len() > 0 {
        assert(is_ascii_digit(s[0]));
        assert(is_ascii_digit(s.last()));
    }
}

/// A `u32` read back from its own decimal text.
proof fn lemma_u32_text_decimal(n: u32)
    ensures
        u32_text(decimal(n as nat)) == Some(n),
        all_digits(decimal(n as nat)),
{
    crate::text::lemma_digits_value_decimal(n as nat);
    let d = decimal(n as nat);
    assert(is_ascii_digit(d[0]));
}

/// Reading back the text of a version gives the version.
pub proof fn lemma_parse_version_text(v: Version)
    ensures
        parse_version_text(version_text(v)) == Some(v),
{
    let a = decimal(v.major as nat);
    let b = decimal(v.minor as nat);
    let c = decimal(v.patch as nat);
    lemma_u32_text_decimal(v.major);
    lemma_u32_text_decimal(v.minor);
    lemma_u32_text_decimal(v.patch);
    lemma_trim_digits(a);
    lemma_trim_digits(b);
    lemma_trim_digits(c);
    assert forall|i: int| 0 <= i < a.len() implies a[i] != '.' by { assert(is_ascii_digit(a[i])); }
    assert forall|i: int| 0 <= i < b.len() implies b[i] != '.' by { assert(is_ascii_digit(b[i])); }
    assert forall|i: int| 0 <= i < c.len() implies c[i] != '.' by { assert(is_ascii_digit(c[i])); }
    let e = Seq::<char>::empty();
    assert(split_on(e, '.') == seq![e]);
    lemma_split_extend(e, a, '.');
    assert(e + a =~= a);
    assert(split_on(a, '.') =~= seq![a]);
    let a1 = a.push('.');
    assert(a1.drop_last() =~= a);
    assert(split_on(a1, '.') =~= seq![a, e]);
    lemma_split_extend(a1, b, '.');
    assert(split_on(a1 + b, '.') =~= seq![a, b]);
    let b1 = (a1 + b).push('.');
    assert(b1.drop_last() =~= a1 + b);
    assert(split_on(b1, '.') =~= seq![a, b, e]);
    lemma_split_extend(b1, c, '.');
    assert(split_on(b1 + c, '.') =~= seq![a, b, c]);
    assert(version_text(v) =~= b1 + c);
}

/// The text of version 2.1.4.
pub proof fn lemma_version_text_2_1_4()
    ensures
        version_text(Version { major: 2, minor: 1, patch: 4 }) == "2.1.4"@,
{
    reveal_strlit("2.1.4");
    assert(decimal(2) == seq!['2']);
    assert(decimal(1) == seq!['1']);
    assert(decimal(4) == seq!['4']);
    assert(version_text(Version { major: 2, minor: 1, patch: 4 }) =~= "2.1.4"@);
}

/// A digit string is worth at least any of its prefixes.
proof fn lemma_digits_value_prefix(s: Seq<char>, k: nat)
    requires
        k <= s.len(),
        all_digits(s),
    ensures
        digits_value(s.subrange(0, k as int)) <= digits_value(s),
    decreases s.len(),
{
    if k < s.len() {
        assert(s.drop_last().subrange(0, k as int) =~= s.subrange(0, k as int));
        lemma_digits_value_prefix(s.drop_last(), k);
        assert(is_ascii_digit(s.last()));
        crate::text::lemma_digits_value_nonneg(s.drop_last());
    } else {
        assert(s.subrange(0, k as int) =~= s);
    }
}

} // verus!

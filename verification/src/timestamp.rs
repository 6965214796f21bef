//! ISO-8601 timestamps as stamped onto saved projects (`CreationTime`,
//! `LastSaveTime`): UTC formatting, parsing back to unix seconds (honouring
//! explicit UTC offsets so stamps from different clocks order correctly),
//! and "time ago" phrasing for the project list.
use vstd::prelude::*;
use crate::calendar::{civil_of_days, days_from_civil, lemma_civil_of_days, valid_date};
use crate::text::{
    all_digits, decimal, digit_char, digit_value, digits_value, is_ascii_digit, lemma_digits_value_decimal, padded_int, pow10, push_decimal, push_padded_int,
    push_zero_padded, zero_padded,
};

verus! {

/// `i64::div_euclid` is the quotient of Euclidean division.
pub assume_specification[ i64::div_euclid ](a: i64, b: i64) -> (q: i64)
    requires
        b != 0,
        !(a == i64::MIN && b == -1),
    ensures
        q == a as int / b as int,
;

/// `i64::rem_euclid` is the (non-negative) remainder of Euclidean division.
pub assume_specification[ i64::rem_euclid ](a: i64, b: i64) -> (r: i64)
    requires
        b != 0,
        !(a == i64::MIN && b == -1),
    ensures
        r == a as int % b as int,
;

/// `yyyy-MM-ddTHH:mm:ss.fffZ` for `unix_secs` seconds (and `millis`
/// milliseconds) after 1970-01-01T00:00:00Z.
pub open spec fn iso8601_text(unix_secs: int, millis: nat) -> Seq<char> {
    let (y, mo, d) = civil_of_days(unix_secs / 86400);
    let sod = unix_secs % 86400;
    padded_int(y, 4) + seq!['-'] + zero_padded(mo as nat, 2) + seq!['-'] + zero_padded(d as nat, 2)
        + seq!['T'] + zero_padded((sod / 3600) as nat, 2) + seq![':'] + zero_padded(((sod % 3600) / 60) as nat, 2)
        + seq![':'] + zero_padded((sod % 60) as nat, 2) + seq!['.'] + zero_padded(millis, 3) + seq!['Z']
}

/// Formats a unix time as `yyyy-MM-ddTHH:mm:ss.fffZ` (UTC).
pub fn format_iso8601(unix_secs: i64, millis: u32) -> (s: String)
    ensures
        s@ == iso8601_text(unix_secs as int, millis as nat),
{
    let days = unix_secs.div_euclid(86_400);
    let (y, mo, d) = crate::calendar::civil_from_days(days);
    let secs_of_day = unix_secs.rem_euclid(86_400);
    let h = secs_of_day / 3600;
    let mi = (secs_of_day % 3600) / 60;
    let s = secs_of_day % 60;
    let mut out = String::new();
    proof {
        lemma_civil_of_days(days as int);
    }
    assert(-1000000000000000i64 < y < 1000000000000000i64) by {
        assert(days_from_civil(y as int, mo as int, d as int) == days as int);
        lemma_year_bounded_by_days(y as int, mo as int, d as int);
    }
    push_padded_int(&mut out, y, 4);
    out.push('-');
    push_zero_padded(&mut out, mo as u64, 2);
    out.push('-');
    push_zero_padded(&mut out, d as u64, 2);
    out.push('T');
    push_zero_padded(&mut out, h as u64, 2);
    out.push(':');
    push_zero_padded(&mut out, mi as u64, 2);
    out.push(':');
    push_zero_padded(&mut out, s as u64, 2);
    out.push('.');
    push_zero_padded(&mut out, millis as u64, 3);
    out.push('Z');
    assert(out@ =~= iso8601_text(unix_secs as int, millis as nat));
    out
}

/// A date's year is within 400 years per 146097 days of 1970.
proof fn lemma_year_bounded_by_days(y: int, m: int, d: int)
    requires
        valid_date(y, m, d),
        -200000000000000 < days_from_civil(y, m, d) < 200000000000000,
    ensures
        -1000000000000000 < y < 1000000000000000,
{
    let y_adj = if m <= 2 { y - 1 } else { y };
    let era = y_adj / 400;
    let yoe = y_adj - era * 400;
    let mp = (m + 9) % 12;
    let doy = (153 * mp + 2) / 5 + d - 1;
    assert(0 <= mp < 12);
    assert(0 <= doy < 400);
    let doe = yoe * 365 + yoe / 4 - yoe / 100 + doy;
    assert(0 <= doe < 200000);
}

#[verifier::external_type_specification]
#[verifier::external_body]
pub struct ExSystemTime(std::time::SystemTime);

/// The wall-clock time now (`SystemTime::now`); nothing is promised of it.
#[verifier::external_body]
fn system_time_now() -> std::time::SystemTime {
    std::time::SystemTime::now()
}

/// How long after the unix epoch `t` is (`SystemTime::duration_since`);
/// `None` for a time before it (the call's error).
#[verifier::external_body]
fn since_unix_epoch(t: &std::time::SystemTime) -> Option<core::time::Duration> {
    match t.duration_since(std::time::UNIX_EPOCH) {
        Ok(d) => Some(d),
        Err(_) => None,
    }
}

/// The whole seconds of `d` (`Duration::as_secs`).
#[verifier::external_body]
fn whole_seconds(d: &core::time::Duration) -> u64 {
    d.as_secs()
}

/// The milliseconds of `d` past its whole seconds (`Duration::subsec_millis`),
/// always below 1000.
#[verifier::external_body]
fn subsec_millis(d: &core::time::Duration) -> (r: u32)
    ensures
        r < 1000,
{
    d.subsec_millis()
}

/// Wall-clock time since the unix epoch: whole seconds and the milliseconds
/// into the current second.
fn unix_time_now() -> (r: (u64, u32))
    ensures
        r.1 < 1000,
{
    match since_unix_epoch(&system_time_now()) {
        Some(now) => (whole_seconds(&now), subsec_millis(&now)),
        // A clock set before the epoch reads as the epoch itself.
        None => (0, 0),
    }
}

/// Current UTC time formatted as `yyyy-MM-ddTHH:mm:ss.fffZ`.
pub fn now_iso8601() -> (s: String)
    ensures
        exists|secs: int, millis: nat| millis < 1000 && s@ == #[trigger] iso8601_text(secs, millis),
{
    let (secs, millis) = unix_time_now();
    let s = format_iso8601(secs as i64, millis);
    assert(s@ == iso8601_text((secs as i64) as int, millis as nat));
    s
}

// ---------------------------------------------------------------------------
// Parsing

/// `"{n} {unit} ago"`, with an `s` after the unit unless `n` is 1.
pub open spec fn count_of(n: int, unit: Seq<char>) -> Seq<char> {
    decimal(n as nat) + seq![' '] + unit + (if n == 1 { seq![] } else { seq!['s'] }) + seq![' ', 'a', 'g', 'o']
}

pub open spec fn just_now_text() -> Seq<char> {
    seq!['j', 'u', 's', 't', ' ', 'n', 'o', 'w']
}

/// How long ago a moment `diff` seconds back was, in the coarsest whole
/// unit that fits: years (365 days), months (30 days), days, hours,
/// minutes ("3 hours ago"), else "just now" (also for a negative `diff`,
/// a stamp from the future).
pub open spec fn elapsed_text(diff: int) -> Seq<char> {
    if diff < 0 {
        just_now_text()
    } else {
        let mins = diff / 60;
        let hours = diff / 3600;
        let days = diff / 86400;
        let months = days / 30;
        let years = days / 365;
        if years > 0 {
            count_of(years, seq!['y', 'e', 'a', 'r'])
        } else if months > 0 {
            count_of(months, seq!['m', 'o', 'n', 't', 'h'])
        } else if days > 0 {
            count_of(days, seq!['d', 'a', 'y'])
        } else if hours > 0 {
            count_of(hours, seq!['h', 'o', 'u', 'r'])
        } else if mins > 0 {
            count_of(mins, seq!['m', 'i', 'n', 'u', 't', 'e'])
        } else {
            just_now_text()
        }
    }
}

/// How long before `now_secs` the stamp `t` was made; the stamp itself
/// when it does not parse.
pub open spec fn relative_time_text(t: Seq<char>, now_secs: int) -> Seq<char> {
    match stamp_seconds(t) {
        None => t,
        Some(saved) => elapsed_text(now_secs - saved),
    }
}

fn push_count(out: &mut String, n: i64, unit: &str)
    requires
        n >= 0,
    ensures
        final(out)@ == old(out)@ + count_of(n as int, unit@),
{
    let ghost start = out@;
    push_decimal(out, n as u64);
    out.push(' ');
    out.append(unit);
    if n != 1 {
        out.push('s');
    }
    out.push(' ');
    out.push('a');
    out.push('g');
    out.push('o');
    assert(out@ =~= start + count_of(n as int, unit@));
}

/// Formats how long before `now_secs` (unix seconds) the ISO-8601-ish
/// `timestamp` was, like "5 minutes ago", "3 hours ago", "2 days ago" or
/// "just now"; returns the raw text when it does not parse.
pub fn relative_time_since(timestamp: &str, now_secs: i64) -> (r: String)
    ensures
        r@ == relative_time_text(timestamp@, now_secs as int),
{
    let saved_secs = parse_to_unix_seconds(timestamp);
    if saved_secs == i64::MIN {
        proof {
            lemma_stamp_seconds_bounded(timestamp@);
        }
        return timestamp.to_string();
    }
    proof {
        lemma_stamp_seconds_bounded(timestamp@);
    }
    let diff = now_secs as i128 - saved_secs as i128;
    let mut out = String::new();
    if diff < 0 {
        out.append("just now");
        proof {
            reveal_strlit("just now");
        }
        assert(out@ =~= just_now_text());
        return out;
    }
    let mins = diff / 60;
    let hours = diff / 3600;
    let days = diff / 86_400;
    let months = days / 30;
    let years = days / 365;
    if years > 0 {
        push_count(&mut out, years as i64, "year");
        proof { reveal_strlit("year"); }
    } else if months > 0 {
        push_count(&mut out, months as i64, "month");
        proof { reveal_strlit("month"); }
    } else if days > 0 {
        push_count(&mut out, days as i64, "day");
        proof { reveal_strlit("day"); }
    } else if hours > 0 {
        push_count(&mut out, hours as i64, "hour");
        proof { reveal_strlit("hour"); }
    } else if mins > 0 {
        push_count(&mut out, mins as i64, "minute");
        proof { reveal_strlit("minute"); }
    } else {
        out.append("just now");
        proof { reveal_strlit("just now"); }
    }
    assert(out@ =~= relative_time_text(timestamp@, now_secs as int));
    out
}

/// Formats how long ago (by the wall clock) the ISO-8601-ish `timestamp`
/// was, like "5 minutes ago", "3 hours ago", "2 days ago" or "just now";
/// returns the raw text when it does not parse.
pub fn to_relative_time(timestamp: &str) -> (r: String)
    ensures
        exists|now: int| r@ == #[trigger] relative_time_text(timestamp@, now),
{
    let (now, _millis) = unix_time_now();
    let r = relative_time_since(timestamp, now as i64);
    assert(r@ == relative_time_text(timestamp@, (now as i64) as int));
    r
}

/// What `i64::from_str` yields for a short text: an optional sign, then at
/// least one ASCII digit.
pub open spec fn int_field(s: Seq<char>) -> Option<int> {
    if s.len() == 0 {
        None
    } else if s[0] == '+' || s[0] == '-' {
        let rest = s.drop_first();
        if rest.len() > 0 && all_digits(rest) {
            Some(if s[0] == '-' { -digits_value(rest) } else { digits_value(rest) })
        } else {
            None
        }
    } else if all_digits(s) {
        Some(digits_value(s))
    } else {
        None
    }
}

/// The ASCII digits of `s`, in order.
pub open spec fn ascii_digits(s: Seq<char>) -> Seq<char>
    decreases s.len(),
{
    if s.len() == 0 {
        seq![]
    } else {
        ascii_digits(s.drop_last()) + if is_ascii_digit(s.last()) { seq![s.last()] } else { seq![] }
    }
}

/// Index of the first `Z`, `+` or `-` at or after `from`, if any.
pub open spec fn offset_marker(t: Seq<char>, from: int) -> Option<int>
    decreases t.len() - from,
{
    if from < 0 || from >= t.len() {
        None
    } else if t[from] == 'Z' || t[from] == '+' || t[from] == '-' {
        Some(from)
    } else {
        offset_marker(t, from + 1)
    }
}

/// The explicit UTC offset (seconds east of UTC) a stamp carries after its
/// first 19 characters: a `+`/`-` followed (digits collected past any
/// separators) by `HHmm`. `Z`, no marker, or fewer than four digits mean UTC.
pub open spec fn offset_seconds(t: Seq<char>) -> int {
    match offset_marker(t, 19) {
        None => 0,
        Some(j) => if t[j] == 'Z' {
            0
        } else {
            let ds = ascii_digits(t.subrange(j + 1, t.len() as int));
            if ds.len() >= 4 {
                let oh = digit_value(ds[0]) * 10 + digit_value(ds[1]);
                let om = digit_value(ds[2]) * 10 + digit_value(ds[3]);
                if t[j] == '-' { -(oh * 3600 + om * 60) } else { oh * 3600 + om * 60 }
            } else {
                0
            }
        },
    }
}

/// `c` is a one-byte (ASCII) character.
pub open spec fn is_ascii_char(c: char) -> bool {
    c < '\u{80}'
}

/// The instant a stamp `yyyy-MM-ddTHH:mm:ss...` denotes, in unix seconds;
/// `None` when its first 19 characters are not ASCII, a field is not a
/// number, or a field is out of range.
pub open spec fn stamp_seconds(t: Seq<char>) -> Option<int> {
    if t.len() < 19 || !(forall|i: int| 0 <= i < 19 ==> is_ascii_char(#[trigger] t[i])) {
        None
    } else {
        match (
            int_field(t.subrange(0, 4)),
            int_field(t.subrange(5, 7)),
            int_field(t.subrange(8, 10)),
            int_field(t.subrange(11, 13)),
            int_field(t.subrange(14, 16)),
            int_field(t.subrange(17, 19)),
        ) {
            (Some(y), Some(mo), Some(d), Some(h), Some(mi), Some(s)) => {
                if !(1 <= mo <= 12) || !(1 <= d <= 31) || h > 23 || mi > 59 || s > 60 {
                    None
                } else {
                    Some(days_from_civil(y, mo, d) * 86400 + h * 3600 + mi * 60 + s - offset_seconds(t))
                }
            },
            _ => None,
        }
    }
}

/// Parses the integer field `t[lo..hi]` (at most four characters).
fn parse_field(t: &Vec<char>, lo: usize, hi: usize) -> (r: Option<i64>)
    requires
        lo < hi <= t.len(),
        hi - lo <= 4,
    ensures
        r matches Some(v) ==> int_field(t@.subrange(lo as int, hi as int)) == Some(v as int),
        r is None ==> int_field(t@.subrange(lo as int, hi as int)) is None,
{
    let ghost s = t@.subrange(lo as int, hi as int);
    let first = t[lo];
    let signed = first == '+' || first == '-';
    let start = if signed { lo + 1 } else { lo };
    if start >= hi {
        return None;
    }
    let ghost ds = t@.subrange(start as int, hi as int);
    assert(s[0] == first);
    assert(signed ==> ds =~= s.drop_first());
    assert(!signed ==> ds =~= s);
    let mut v: i64 = 0;
    let mut i = start;
    while i < hi
        invariant
            lo <= start <= i <= hi <= t.len(),
            hi - lo <= 4,
            ds == t@.subrange(start as int, hi as int),
            s == t@.subrange(lo as int, hi as int),
            s[0] == first,
            signed == (first == '+' || first == '-'),
            signed ==> ds == s.drop_first(),
            !signed ==> ds == s,
            all_digits(t@.subrange(start as int, i as int)),
            v == digits_value(t@.subrange(start as int, i as int)),
            0 <= v < pow10((i - start) as nat),
        decreases hi - i,
    {
        let c = t[i];
        if !('0' <= c && c <= '9') {
            assert(ds[i - start] == c);
            assert(!all_digits(ds));
            return None;
        }
        proof {
            assert(t@.subrange(start as int, i + 1).drop_last() =~= t@.subrange(start as int, i as int));
            assert(pow10((i + 1 - start) as nat) == 10 * pow10((i - start) as nat));
            assert(pow10(4) == 10000) by {
                reveal_with_fuel(pow10, 5);
            }
            lemma_pow10_mono((i + 1 - start) as nat, 4);
        }
        v = v * 10 + (c as u32 - 48) as i64;
        i = i + 1;
    }
    assert(t@.subrange(start as int, hi as int) =~= ds);
    if first == '-' {
        Some(-v)
    } else {
        Some(v)
    }
}

/// The value of ASCII digit `c`.
fn digit_of(c: char) -> (v: u32)
    requires
        is_ascii_digit(c),
    ensures
        v == digit_value(c),
        v <= 9,
{
    c as u32 - 48
}

/// The explicit UTC offset of the stamp `t` (see `offset_seconds`).
fn parse_offset(t: &Vec<char>) -> (off: i64)
    requires
        t.len() >= 19,
    ensures
        off == offset_seconds(t@),
        -400000 < off < 400000,
{
    let mut j: usize = 19;
    while j < t.len() && t[j] != 'Z' && t[j] != '+' && t[j] != '-'
        invariant
            19 <= j <= t.len(),
            offset_marker(t@, 19) == offset_marker(t@, j as int),
        decreases t.len() - j,
    {
        j = j + 1;
    }
    if j >= t.len() {
        return 0;
    }
    let sign_char = t[j];
    assert(offset_marker(t@, j as int) == Some(j as int));
    assert(offset_marker(t@, 19) == Some(j as int));
    if sign_char == 'Z' {
        return 0;
    }
    let mut ds: Vec<char> = Vec::new();
    let mut k = j + 1;
    assert(t@.subrange(j + 1, j + 1) =~= Seq::<char>::empty());
    while k < t.len()
        invariant
            j < k <= t.len(),
            offset_marker(t@, 19) == Some(j as int),
            sign_char == t@[j as int],
            sign_char != 'Z',
            ds@ == ascii_digits(t@.subrange(j + 1, k as int)),
            forall|i: int| 0 <= i < ds@.len() ==> is_ascii_digit(#[trigger] ds@[i]),
        decreases t.len() - k,
    {
        let c = t[k];
        assert(t@.subrange(j + 1, k + 1).drop_last() =~= t@.subrange(j + 1, k as int));
        if '0' <= c && c <= '9' {
            ds.push(c);
        }
        k = k + 1;
    }
    assert(ds@ == ascii_digits(t@.subrange(j + 1, t.len() as int)));
    if ds.len() >= 4 {
        assert(is_ascii_digit(ds@[0]) && is_ascii_digit(ds@[1]));
        assert(is_ascii_digit(ds@[2]) && is_ascii_digit(ds@[3]));
        let oh = (digit_of(ds[0]) * 10 + digit_of(ds[1])) as i64;
        let om = (digit_of(ds[2]) * 10 + digit_of(ds[3])) as i64;
        assert(ds@ == ascii_digits(t@.subrange(j + 1, t.len() as int)));
        if sign_char == '-' {
            -(oh * 3600 + om * 60)
        } else {
            oh * 3600 + om * 60
        }
    } else {
        0
    }
}

/// Parses an ISO-8601-ish timestamp (`yyyy-MM-ddTHH:mm:ss.fff` with an
/// optional `Z`, `+HH:mm`/`-HH:mm`/`+HHMM` offset suffix) into comparable
/// unix seconds; unparseable text sorts as `i64::MIN` (oldest).
#[verifier::spinoff_prover]
#[verifier::rlimit(40)]
pub fn parse_to_unix_seconds(text: &str) -> (r: i64)
    ensures
        match stamp_seconds(text@) {
            Some(v) => r == v,
            None => r == i64::MIN,
        },
{
    let t = crate::text::chars_of(text);
    if t.len() < 19 {
        return i64::MIN;
    }
    let mut k: usize = 0;
    while k < 19
        invariant
            k <= 19 <= t.len(),
            t@ == text@,
            forall|i: int| 0 <= i < k ==> is_ascii_char(#[trigger] t@[i]),
        decreases 19 - k,
    {
        if t[k] >= '\u{80}' {
            assert(!is_ascii_char(text@[k as int]));
            assert(!(forall|i: int| 0 <= i < 19 ==> is_ascii_char(#[trigger] text@[i])));
            return i64::MIN;
        }
        k = k + 1;
    }
    let (y, mo, d, h, mi, s) = match (
        parse_field(&t, 0, 4),
        parse_field(&t, 5, 7),
        parse_field(&t, 8, 10),
        parse_field(&t, 11, 13),
        parse_field(&t, 14, 16),
        parse_field(&t, 17, 19),
    ) {
        (Some(y), Some(mo), Some(d), Some(h), Some(mi), Some(s)) => (y, mo, d, h, mi, s),
        _ => {
            return i64::MIN;
        },
    };
    if !(1 <= mo && mo <= 12) || !(1 <= d && d <= 31) || h > 23 || mi > 59 || s > 60 {
        return i64::MIN;
    }
    proof {
        lemma_field_bounds(t@.subrange(0, 4));
        lemma_field_bounds(t@.subrange(11, 13));
        lemma_field_bounds(t@.subrange(14, 16));
        lemma_field_bounds(t@.subrange(17, 19));
    }
    let y_adj = if mo <= 2 { y - 1 } else { y };
    let era = (if y_adj >= 0 { y_adj } else { y_adj - 399 }) / 400;
    assert(era == y_adj / 400);
    let yoe = y_adj - era * 400;
    let mp = (mo + 9) % 12;
    let doy = (153 * mp + 2) / 5 + d - 1;
    let doe = yoe * 365 + yoe / 4 - yoe / 100 + doy;
    let days = era * 146_097 + doe - 719_468;
    let secs = days * 86_400 + h * 3600 + mi * 60 + s;
    let offset_secs = parse_offset(&t);
    secs - offset_secs
}

/// A parsed field of at most `n` characters lies within ±(10^(n-1) .. ) bounds.
proof fn lemma_field_bounds(s: Seq<char>)
    requires
        s.len() <= 4,
    ensures
        int_field(s) matches Some(v) ==> -10000 < v < 10000,
{
    if s.len() > 0 {
        if s[0] == '+' || s[0] == '-' {
            if all_digits(s.drop_first()) {
                lemma_digits_value_bound(s.drop_first());
                lemma_pow10_mono((s.len() - 1) as nat, 4);
            }
        } else if all_digits(s) {
            lemma_digits_value_bound(s);
            lemma_pow10_mono(s.len(), 4);
        }
        assert(pow10(4) == 10000) by {
            reveal_with_fuel(pow10, 5);
        }
    }
}

proof fn lemma_digits_value_bound(s: Seq<char>)
    requires
        all_digits(s),
    ensures
        0 <= digits_value(s) < pow10(s.len()),
    decreases s.len(),
{
    if s.len() > 0 {
        assert(all_digits(s.drop_last()));
        lemma_digits_value_bound(s.drop_last());
        assert(pow10(s.len()) == 10 * pow10((s.len() - 1) as nat));
    }
    if s.len() == 4 {
        assert(pow10(4) == 10000) by {
            reveal_with_fuel(pow10, 5);
        }
    }
}

/// Leading zeros do not change a digit string's value.
proof fn lemma_digits_value_zeros(k: nat, s: Seq<char>)
    ensures
        digits_value(Seq::new(k, |i: int| '0') + s) == digits_value(Seq::new(k, |i: int| '0')) * pow10(s.len()) + digits_value(s),
        digits_value(Seq::new(k, |i: int| '0')) == 0,
    decreases s.len() + k,
{
    let z = Seq::new(k, |i: int| '0');
    if s.len() == 0 {
        assert(z + s =~= z);
        if k > 0 {
            assert(z.drop_last() =~= Seq::new((k - 1) as nat, |i: int| '0'));
            lemma_digits_value_zeros((k - 1) as nat, s);
        }
    } else {
        assert((z + s).drop_last() =~= z + s.drop_last());
        lemma_digits_value_zeros(k, s.drop_last());
        assert(pow10(s.len()) == 10 * pow10((s.len() - 1) as nat));
    }
}

/// A zero-padded number parses back as itself.
proof fn lemma_int_field_zero_padded(n: nat, w: nat)
    ensures
        all_digits(zero_padded(n, w)),
        zero_padded(n, w).len() >= 1,
        int_field(zero_padded(n, w)) == Some(n as int),
{
    lemma_digits_value_decimal(n);
    crate::text::lemma_decimal_len(n);
    let ds = decimal(n);
    if ds.len() < w {
        let k = (w - ds.len()) as nat;
        lemma_digits_value_zeros(k, ds);
        let zp = Seq::new(k, |i: int| '0') + ds;
        assert forall|i: int| 0 <= i < zp.len() implies is_ascii_digit(#[trigger] zp[i]) by {
            if i >= k {
                assert(zp[i] == ds[i - k]);
            }
        }
    }
    let zp = zero_padded(n, w);
    assert(is_ascii_digit(zp[0]));
}

/// No offset marker inside a run of digits.
proof fn lemma_offset_marker_skips_digits(t: Seq<char>, from: int, to: int)
    requires
        0 <= from <= to <= t.len(),
        forall|i: int| from <= i < to ==> is_ascii_digit(#[trigger] t[i]) || t[i] == '.',
    ensures
        offset_marker(t, from) == offset_marker(t, to),
    decreases to - from,
{
    if from < to {
        assert(is_ascii_digit(t[from]) || t[from] == '.');
        lemma_offset_marker_skips_digits(t, from + 1, to);
    }
}

/// Where the fields of a `yyyy-MM-ddTHH:mm:ss.fffZ` stamp sit.
proof fn lemma_stamp_layout(
    py: Seq<char>,
    pmo: Seq<char>,
    pd: Seq<char>,
    ph: Seq<char>,
    pmi: Seq<char>,
    pse: Seq<char>,
    pms: Seq<char>,
)
    requires
        py.len() == 4,
        pmo.len() == 2,
        pd.len() == 2,
        ph.len() == 2,
        pmi.len() == 2,
        pse.len() == 2,
        forall|i: int| 0 <= i < 4 ==> is_ascii_char(#[trigger] py[i]),
        all_digits(pmo),
        all_digits(pd),
        all_digits(ph),
        all_digits(pmi),
        all_digits(pse),
        all_digits(pms),
    ensures
        ({
            let t = py + seq!['-'] + pmo + seq!['-'] + pd + seq!['T'] + ph + seq![':'] + pmi + seq![':'] + pse
                + seq!['.'] + pms + seq!['Z'];
            &&& t.len() >= 19
            &&& t.subrange(0, 4) == py
            &&& t.subrange(5, 7) == pmo
            &&& t.subrange(8, 10) == pd
            &&& t.subrange(11, 13) == ph
            &&& t.subrange(14, 16) == pmi
            &&& t.subrange(17, 19) == pse
            &&& forall|i: int| 0 <= i < 19 ==> is_ascii_char(#[trigger] t[i])
            &&& offset_seconds(t) == 0
        }),
{
    let t = py + seq!['-'] + pmo + seq!['-'] + pd + seq!['T'] + ph + seq![':'] + pmi + seq![':'] + pse
        + seq!['.'] + pms + seq!['Z'];
    assert(t.subrange(0, 4) =~= py);
    assert(t.subrange(5, 7) =~= pmo);
    assert(t.subrange(8, 10) =~= pd);
    assert(t.subrange(11, 13) =~= ph);
    assert(t.subrange(14, 16) =~= pmi);
    assert(t.subrange(17, 19) =~= pse);
    assert(t[19] == '.');
    assert(t.len() == 21 + pms.len());
    assert(t[t.len() - 1] == 'Z');
    assert forall|i: int| 0 <= i < 19 implies is_ascii_char(#[trigger] t[i]) by {
        if i < 4 {
            assert(t[i] == py[i]);
        } else if 5 <= i < 7 {
            assert(t[i] == pmo[i - 5]);
            assert(is_ascii_digit(pmo[i - 5]));
        } else if 8 <= i < 10 {
            assert(t[i] == pd[i - 8]);
            assert(is_ascii_digit(pd[i - 8]));
        } else if 11 <= i < 13 {
            assert(t[i] == ph[i - 11]);
            assert(is_ascii_digit(ph[i - 11]));
        } else if 14 <= i < 16 {
            assert(t[i] == pmi[i - 14]);
            assert(is_ascii_digit(pmi[i - 14]));
        } else if 17 <= i < 19 {
            assert(t[i] == pse[i - 17]);
            assert(is_ascii_digit(pse[i - 17]));
        }
    }
    assert forall|i: int| 19 <= i < t.len() - 1 implies is_ascii_digit(#[trigger] t[i]) || t[i] == '.' by {
        if i > 19 {
            assert(t[i] == pms[i - 20]);
        }
    }
    lemma_offset_marker_skips_digits(t, 19, t.len() - 1);
    assert(offset_marker(t, t.len() - 1) == Some(t.len() - 1));
}

/// The year field of a stamp: four ASCII characters that parse back as the
/// year, for years that print in four characters.
proof fn lemma_year_field(y: int)
    requires
        -999 <= y <= 9999,
    ensures
        padded_int(y, 4).len() == 4,
        int_field(padded_int(y, 4)) == Some(y),
        forall|i: int| 0 <= i < 4 ==> is_ascii_char(#[trigger] padded_int(y, 4)[i]),
{
    let py = padded_int(y, 4);
    if y >= 0 {
        lemma_int_field_zero_padded(y as nat, 4);
        crate::text::lemma_decimal_len(y as nat);
        assert(py.len() == 4);
        assert forall|i: int| 0 <= i < 4 implies is_ascii_char(#[trigger] py[i]) by {
            assert(is_ascii_digit(py[i]));
        }
    } else {
        lemma_int_field_zero_padded((-y) as nat, 3);
        crate::text::lemma_decimal_len((-y) as nat);
        let zp = zero_padded((-y) as nat, 3);
        assert(py == seq!['-'] + zp);
        assert(py.len() == 4);
        assert(py.drop_first() =~= zp);
        assert forall|i: int| 0 <= i < 4 implies is_ascii_char(#[trigger] py[i]) by {
            if i > 0 {
                assert(py[i] == zp[i - 1]);
                assert(is_ascii_digit(zp[i - 1]));
            }
        }
    }
}

/// Every instant from 1970 to the end of year 9999 (0 to
/// 253_402_300_799 unix seconds), stamped with any milliseconds, parses
/// back to the same second.
pub proof fn lemma_stamp_round_trip(unix_secs: int, millis: nat)
    requires
        0 <= unix_secs <= 253_402_300_799,
    ensures
        stamp_seconds(iso8601_text(unix_secs, millis)) == Some(unix_secs),
{
    crate::calendar::lemma_civil_year_range(unix_secs / 86400);
    lemma_parse_formatted_stamp(unix_secs, millis);
}

/// Parsing a stamp this module formatted gives back its unix seconds, for
/// every year that prints in four characters.
pub proof fn lemma_parse_formatted_stamp(unix_secs: int, millis: nat)
    requires
        -999 <= civil_of_days(unix_secs / 86400).0 <= 9999,
    ensures
        stamp_seconds(iso8601_text(unix_secs, millis)) == Some(unix_secs),
{
    let days = unix_secs / 86400;
    let (y, mo, d) = civil_of_days(days);
    lemma_civil_of_days(days);
    let sod = unix_secs % 86400;
    let h = sod / 3600;
    let mi = (sod % 3600) / 60;
    let se = sod % 60;
    lemma_int_field_zero_padded(mo as nat, 2);
    lemma_int_field_zero_padded(d as nat, 2);
    lemma_int_field_zero_padded(h as nat, 2);
    lemma_int_field_zero_padded(mi as nat, 2);
    lemma_int_field_zero_padded(se as nat, 2);
    lemma_int_field_zero_padded(millis, 3);
    crate::text::lemma_decimal_len(mo as nat);
    crate::text::lemma_decimal_len(d as nat);
    crate::text::lemma_decimal_len(h as nat);
    crate::text::lemma_decimal_len(mi as nat);
    crate::text::lemma_decimal_len(se as nat);
    lemma_year_field(y);
    lemma_stamp_layout(
        padded_int(y, 4),
        zero_padded(mo as nat, 2),
        zero_padded(d as nat, 2),
        zero_padded(h as nat, 2),
        zero_padded(mi as nat, 2),
        zero_padded(se as nat, 2),
        zero_padded(millis, 3),
    );
    let t = iso8601_text(unix_secs, millis);
    assert(t == padded_int(y, 4) + seq!['-'] + zero_padded(mo as nat, 2) + seq!['-'] + zero_padded(d as nat, 2)
        + seq!['T'] + zero_padded(h as nat, 2) + seq![':'] + zero_padded(mi as nat, 2) + seq![':']
        + zero_padded(se as nat, 2) + seq!['.'] + zero_padded(millis, 3) + seq!['Z']);
    assert(int_field(t.subrange(0, 4)) == Some(y));
    assert(int_field(t.subrange(5, 7)) == Some(mo));
    assert(int_field(t.subrange(8, 10)) == Some(d));
    assert(int_field(t.subrange(11, 13)) == Some(h));
    assert(int_field(t.subrange(14, 16)) == Some(mi));
    assert(int_field(t.subrange(17, 19)) == Some(se));
    assert(1 <= mo <= 12 && 1 <= d <= 31 && h <= 23 && mi <= 59 && se <= 60);
    assert(days_from_civil(y, mo, d) == days);
    assert(days * 86400 + h * 3600 + mi * 60 + se == unix_secs);
}

/// A parsed stamp is far from `i64::MIN`.
proof fn lemma_stamp_seconds_bounded(t: Seq<char>)
    ensures
        stamp_seconds(t) matches Some(v) ==> -1000000000000 < v < 1000000000000,
{
    if t.len() >= 19 {
        lemma_field_bounds(t.subrange(0, 4));
        lemma_field_bounds(t.subrange(5, 7));
        lemma_field_bounds(t.subrange(8, 10));
        lemma_field_bounds(t.subrange(11, 13));
        lemma_field_bounds(t.subrange(14, 16));
        lemma_field_bounds(t.subrange(17, 19));
        lemma_offset_bounded(t);
    }
}

proof fn lemma_offset_bounded(t: Seq<char>)
    ensures
        -400000 < offset_seconds(t) < 400000,
{
    match offset_marker(t, 19) {
        None => {},
        Some(j) => {
            if t[j] != 'Z' {
                let ds = ascii_digits(t.subrange(j + 1, t.len() as int));
                lemma_ascii_digits_are_digits(t.subrange(j + 1, t.len() as int));
                if ds.len() >= 4 {
                    assert(is_ascii_digit(ds[0]) && is_ascii_digit(ds[1]));
                    assert(is_ascii_digit(ds[2]) && is_ascii_digit(ds[3]));
                }
            }
        },
    }
}

proof fn lemma_ascii_digits_are_digits(s: Seq<char>)
    ensures
        all_digits(ascii_digits(s)),
    decreases s.len(),
{
    if s.len() > 0 {
        lemma_ascii_digits_are_digits(s.drop_last());
        assert(all_digits(ascii_digits(s))) by {
            let a = ascii_digits(s.drop_last());
            let b = if is_ascii_digit(s.last()) { seq![s.last()] } else { seq![] };
            assert forall|i: int| 0 <= i < (a + b).len() implies is_ascii_digit(#[trigger] (a + b)[i]) by {
                if i < a.len() {
                    assert((a + b)[i] == a[i]);
                }
            }
        }
    }
}

proof fn lemma_pow10_mono(a: nat, b: nat)
    requires
        a <= b,
    ensures
        pow10(a) <= pow10(b),
    decreases b,
{
    if a < b {
        lemma_pow10_mono(a, (b - 1) as nat);
    }
}

} // verus!

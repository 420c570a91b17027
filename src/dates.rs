//! Timestamps and calendar dates as plain values, their normalized texts,
//! and the parsers that read those texts back.

use vstd::prelude::*;
use vstd::string::*;
use vstd::utf8::encode_utf8;
use crate::text::{chars_of, digit_char, digit_str};
use chrono::{Datelike, Timelike};

verus! {

/// The value of a decimal digit character.
pub open spec fn digit_value(c: char) -> int {
    (c as u32) as int - 48
}

pub open spec fn is_digit(c: char) -> bool {
    '0' <= c && c <= '9'
}

proof fn lemma_digit_char(d: nat)
    requires
        d < 10,
    ensures
        is_digit(digit_char(d)),
        digit_value(digit_char(d)) == d,
{
}


pub open spec fn pow10(k: nat) -> nat
    decreases k,
{
    if k == 0 {
        1
    } else {
        10 * pow10((k - 1) as nat)
    }
}

/// The last `k` decimal digits of `n`, with leading zeros.
pub open spec fn fixed_digits(n: nat, k: nat) -> Seq<char>
    decreases k,
{
    if k == 0 {
        seq![]
    } else {
        fixed_digits(n / 10, (k - 1) as nat).push(digit_char(n % 10))
    }
}

/// Every character of `s` is a decimal digit.
pub open spec fn all_digits(s: Seq<char>) -> bool {
    forall|i: int| 0 <= i < s.len() ==> #[trigger] is_digit(s[i])
}

/// The number that a sequence of digits writes.
pub open spec fn digits_value(s: Seq<char>) -> nat
    decreases s.len(),
{
    if s.len() == 0 {
        0
    } else {
        (digits_value(s.drop_last()) * 10 + digit_value(s.last())) as nat
    }
}

proof fn lemma_fixed_digits(n: nat, k: nat)
    requires
        n < pow10(k),
    ensures
        fixed_digits(n, k).len() == k,
        all_digits(fixed_digits(n, k)),
        digits_value(fixed_digits(n, k)) == n,
    decreases k,
{
    if k > 0 {
        assert(n / 10 < pow10((k - 1) as nat)) by {
            assert(n < 10 * pow10((k - 1) as nat));
        }
        lemma_fixed_digits(n / 10, (k - 1) as nat);
        lemma_digit_char(n % 10);
        let f = fixed_digits(n, k);
        assert(f.drop_last() =~= fixed_digits(n / 10, (k - 1) as nat));
        assert(n == (n / 10) * 10 + n % 10);
    }
}

/// Appends the last `k` decimal digits of `n`, with leading zeros.
pub fn push_fixed(out: &mut String, n: u32, k: u32)
    ensures
        final(out)@ == old(out)@ + fixed_digits(n as nat, k as nat),
    decreases k,
{
    if k > 0 {
        push_fixed(out, n / 10, k - 1);
        out.append(digit_str((n % 10) as u64));
        assert(out@ =~= old(out)@ + fixed_digits(n as nat, k as nat));
    }
}

/// Reads the `k` digits at `i`, if they are digits.
fn read_digits(cs: &Vec<char>, i: usize, k: usize) -> (r: Option<u32>)
    requires
        i + k <= cs@.len(),
        k <= 9,
    ensures
        match r {
            Some(v) => all_digits(cs@.subrange(i as int, i + k)) && v == digits_value(
                cs@.subrange(i as int, i + k),
            ) && v < pow10(k as nat),
            None => !all_digits(cs@.subrange(i as int, i + k)),
        },
{
    let mut v: u32 = 0;
    let mut j: usize = 0;
    while j < k
        invariant
            i + k <= cs.len(),
            k <= 9,
            j <= k,
            all_digits(cs@.subrange(i as int, i + j)),
            v == digits_value(cs@.subrange(i as int, i + j)),
            v < pow10(j as nat),
        decreases k - j,
    {
        let c = cs[i + j];
        if !('0' <= c && c <= '9') {
            assert(!is_digit(cs@.subrange(i as int, i + k)[j as int]));
            return None;
        }
        let ghost prev = cs@.subrange(i as int, i + j);
        assert(cs@.subrange(i as int, i + j + 1).drop_last() =~= prev);
        assert(pow10((j + 1) as nat) == 10 * pow10(j as nat));
        assert(pow10(j as nat) <= 100000000) by {
            lemma_pow10_le(j as nat, 8);
            lemma_pow10_values();
        }
        v = v * 10 + ((c as u32) - 48);
        j = j + 1;
        assert forall|t: int| 0 <= t < j implies #[trigger] is_digit(cs@.subrange(i as int, i + j)[t]) by {
            if t < j - 1 {
                assert(cs@.subrange(i as int, i + j)[t] == prev[t]);
            }
        }
    }
    Some(v)
}

proof fn lemma_pow10_values()
    ensures
        pow10(1) == 10,
        pow10(2) == 100,
        pow10(3) == 1000,
        pow10(4) == 10000,
        pow10(5) == 100000,
        pow10(6) == 1000000,
        pow10(7) == 10000000,
        pow10(8) == 100000000,
        pow10(9) == 1000000000,
{
    assert(pow10(0) == 1);
    assert(pow10(1) == 10);
    assert(pow10(2) == 100);
    assert(pow10(3) == 1000);
    assert(pow10(4) == 10000);
    assert(pow10(5) == 100000);
    assert(pow10(6) == 1000000);
    assert(pow10(7) == 10000000);
    assert(pow10(8) == 100000000);
    assert(pow10(9) == 1000000000);
}

proof fn lemma_pow10_le(a: nat, b: nat)
    requires
        a <= b,
    ensures
        pow10(a) <= pow10(b),
    decreases b,
{
    if a < b {
        lemma_pow10_le(a, (b - 1) as nat);
    }
}


/// A calendar date.
#[derive(Clone, Copy, Debug, PartialEq, Eq, Structural)]
pub struct CalendarDate {
    pub year: i32,
    pub month: u32,
    pub day: u32,
}

/// A local date and time with its offset from UTC, in minutes. A leap second
/// is second 60.
#[derive(Clone, Copy, Debug, PartialEq, Eq, Structural)]
pub struct Timestamp {
    pub date: CalendarDate,
    pub hour: u32,
    pub minute: u32,
    pub second: u32,
    pub nanosecond: u32,
    pub offset_minutes: i32,
}

pub open spec fn is_leap_year(y: int) -> bool {
    y % 4 == 0 && (y % 100 != 0 || y % 400 == 0)
}

pub open spec fn days_in_month(y: int, m: int) -> int {
    if m == 2 {
        if is_leap_year(y) {
            29
        } else {
            28
        }
    } else if m == 4 || m == 6 || m == 9 || m == 11 {
        30
    } else {
        31
    }
}

/// A date of the years 0 to 9999 that the calendar has.
pub open spec fn date_valid(d: CalendarDate) -> bool {
    &&& 0 <= d.year <= 9999
    &&& 1 <= d.month <= 12
    &&& 1 <= d.day <= days_in_month(d.year as int, d.month as int)
}

pub open spec fn timestamp_valid(t: Timestamp) -> bool {
    &&& date_valid(t.date)
    &&& t.hour < 24
    &&& t.minute < 60
    &&& t.second <= 60
    &&& t.nanosecond < 1000000000
    &&& -1439 <= t.offset_minutes <= 1439
}

/// The normalized text of a date: `YYYY-MM-DD`.
pub open spec fn date_text(d: CalendarDate) -> Seq<char> {
    fixed_digits(d.year as nat, 4) + seq!['-'] + fixed_digits(d.month as nat, 2) + seq!['-']
        + fixed_digits(d.day as nat, 2)
}

/// The fraction of a second: none for a whole second, else three, six or
/// nine digits, the fewest that hold it.
pub open spec fn fraction_text(n: nat) -> Seq<char> {
    if n == 0 {
        seq![]
    } else if n % 1000000 == 0 {
        seq!['.'] + fixed_digits(n / 1000000, 3)
    } else if n % 1000 == 0 {
        seq!['.'] + fixed_digits(n / 1000, 6)
    } else {
        seq!['.'] + fixed_digits(n, 9)
    }
}

pub open spec fn abs(m: int) -> nat {
    if m < 0 {
        (-m) as nat
    } else {
        m as nat
    }
}

/// An offset as `+HH:MM` or `-HH:MM`.
pub open spec fn offset_text(m: int) -> Seq<char> {
    seq![if m < 0 { '-' } else { '+' }] + fixed_digits(abs(m) / 60, 2) + seq![':']
        + fixed_digits(abs(m) % 60, 2)
}

/// The normalized RFC 3339 text of a timestamp, `YYYY-MM-DDTHH:MM:SS`, then
/// the fraction of a second where there is one, then the offset.
pub open spec fn timestamp_text(t: Timestamp) -> Seq<char> {
    date_text(t.date) + seq!['T'] + fixed_digits(t.hour as nat, 2) + seq![':'] + fixed_digits(
        t.minute as nat,
        2,
    ) + seq![':'] + fixed_digits(t.second as nat, 2) + fraction_text(t.nanosecond as nat)
        + offset_text(t.offset_minutes as int)
}

/// Reads a normalized date text.
pub open spec fn parse_date_text(s: Seq<char>) -> Option<CalendarDate> {
    if s.len() == 10 && all_digits(s.subrange(0, 4)) && s[4] == '-' && all_digits(s.subrange(5, 7))
        && s[7] == '-' && all_digits(s.subrange(8, 10)) {
        let d = CalendarDate {
            year: digits_value(s.subrange(0, 4)) as i32,
            month: digits_value(s.subrange(5, 7)) as u32,
            day: digits_value(s.subrange(8, 10)) as u32,
        };
        if date_valid(d) {
            Some(d)
        } else {
            None
        }
    } else {
        None
    }
}

/// Reads the fraction of a second: nothing, or a dot and three, six or nine digits.
pub open spec fn parse_fraction(f: Seq<char>) -> Option<nat> {
    if f.len() == 0 {
        Some(0)
    } else if (f.len() == 4 || f.len() == 7 || f.len() == 10) && f[0] == '.' && all_digits(
        f.drop_first(),
    ) {
        Some(digits_value(f.drop_first()) * pow10((10 - f.len()) as nat))
    } else {
        None
    }
}

/// Reads an offset `+HH:MM` or `-HH:MM`, in minutes.
pub open spec fn parse_offset(o: Seq<char>) -> Option<int> {
    if o.len() == 6 && (o[0] == '+' || o[0] == '-') && all_digits(o.subrange(1, 3)) && o[3] == ':'
        && all_digits(o.subrange(4, 6)) {
        let v: int = (digits_value(o.subrange(1, 3)) * 60 + digits_value(o.subrange(4, 6))) as int;
        Some(if o[0] == '-' { -v } else { v })
    } else {
        None
    }
}

/// Reads a normalized timestamp text.
pub open spec fn parse_timestamp_text(s: Seq<char>) -> Option<Timestamp> {
    let n = s.len() as int;
    if n >= 25 && s[10] == 'T' && all_digits(s.subrange(11, 13)) && s[13] == ':' && all_digits(
        s.subrange(14, 16),
    ) && s[16] == ':' && all_digits(s.subrange(17, 19)) {
        match (
            parse_date_text(s.subrange(0, 10)),
            parse_fraction(s.subrange(19, n - 6)),
            parse_offset(s.subrange(n - 6, n)),
        ) {
            (Some(d), Some(f), Some(o)) => {
                let t = Timestamp {
                    date: d,
                    hour: digits_value(s.subrange(11, 13)) as u32,
                    minute: digits_value(s.subrange(14, 16)) as u32,
                    second: digits_value(s.subrange(17, 19)) as u32,
                    nanosecond: f as u32,
                    offset_minutes: o as i32,
                };
                if timestamp_valid(t) {
                    Some(t)
                } else {
                    None
                }
            },
            _ => None,
        }
    } else {
        None
    }
}


pub proof fn lemma_date_text(d: CalendarDate)
    requires
        date_valid(d),
    ensures
        date_text(d).len() == 10,
        parse_date_text(date_text(d)) == Some(d),
{
    lemma_pow10_values();
    let y = fixed_digits(d.year as nat, 4);
    let m = fixed_digits(d.month as nat, 2);
    let dd = fixed_digits(d.day as nat, 2);
    lemma_fixed_digits(d.year as nat, 4);
    lemma_fixed_digits(d.month as nat, 2);
    lemma_fixed_digits(d.day as nat, 2);
    let s = date_text(d);
    assert(s.subrange(0, 4) =~= y);
    assert(s.subrange(5, 7) =~= m);
    assert(s.subrange(8, 10) =~= dd);
    assert(s[4] == '-');
    assert(s[7] == '-');
}

#[verifier::spinoff_prover]
proof fn lemma_fraction(n: nat)
    requires
        n < 1000000000,
    ensures
        parse_fraction(fraction_text(n)) == Some(n),
        fraction_text(n).len() == 0 || fraction_text(n).len() == 4 || fraction_text(n).len() == 7
            || fraction_text(n).len() == 10,
{
    lemma_pow10_values();
    let f = fraction_text(n);
    if n == 0 {
    } else {
        let (q, k, scale) = if n % 1000000 == 0 {
            (n / 1000000, 3nat, 1000000nat)
        } else if n % 1000 == 0 {
            (n / 1000, 6nat, 1000nat)
        } else {
            (n, 9nat, 1nat)
        };
        assert(f == seq!['.'] + fixed_digits(q, k));
        assert(q < pow10(k));
        lemma_fixed_digits(q, k);
        assert(f.drop_first() =~= fixed_digits(q, k));
        assert(f.len() == k + 1);
        assert(f[0] == '.');
        assert(pow10((10 - f.len()) as nat) == scale);
        assert(q * scale == n);
        assert(parse_fraction(f) == Some(digits_value(f.drop_first()) * pow10((10 - f.len()) as nat)));
    }
}

proof fn lemma_offset(m: int)
    requires
        -1439 <= m <= 1439,
    ensures
        offset_text(m).len() == 6,
        parse_offset(offset_text(m)) == Some(m),
{
    lemma_pow10_values();
    let a = abs(m);
    lemma_fixed_digits(a / 60, 2);
    lemma_fixed_digits(a % 60, 2);
    let o = offset_text(m);
    assert(o.subrange(1, 3) =~= fixed_digits(a / 60, 2));
    assert(o.subrange(4, 6) =~= fixed_digits(a % 60, 2));
    assert(o[3] == ':');
    assert(a == (a / 60) * 60 + a % 60);
}

pub proof fn lemma_timestamp_text(t: Timestamp)
    requires
        timestamp_valid(t),
    ensures
        parse_timestamp_text(timestamp_text(t)) == Some(t),
{
    lemma_pow10_values();
    lemma_date_text(t.date);
    lemma_fraction(t.nanosecond as nat);
    lemma_offset(t.offset_minutes as int);
    lemma_fixed_digits(t.hour as nat, 2);
    lemma_fixed_digits(t.minute as nat, 2);
    lemma_fixed_digits(t.second as nat, 2);
    let s = timestamp_text(t);
    let f = fraction_text(t.nanosecond as nat);
    let n = s.len() as int;
    assert(n == 25 + f.len());
    assert(s.subrange(0, 10) =~= date_text(t.date));
    assert(s[10] == 'T');
    assert(s.subrange(11, 13) =~= fixed_digits(t.hour as nat, 2));
    assert(s[13] == ':');
    assert(s.subrange(14, 16) =~= fixed_digits(t.minute as nat, 2));
    assert(s[16] == ':');
    assert(s.subrange(17, 19) =~= fixed_digits(t.second as nat, 2));
    assert(s.subrange(19, n - 6) =~= f);
    assert(s.subrange(n - 6, n) =~= offset_text(t.offset_minutes as int));
}


fn days_in_month_exec(y: i32, m: u32) -> (r: u32)
    requires
        0 <= y,
    ensures
        r == days_in_month(y as int, m as int),
{
    let yy = y as u32;
    if m == 2 {
        if yy % 4 == 0 && (yy % 100 != 0 || yy % 400 == 0) {
            29
        } else {
            28
        }
    } else if m == 4 || m == 6 || m == 9 || m == 11 {
        30
    } else {
        31
    }
}

impl CalendarDate {
    /// Whether the date is one of the years 0 to 9999 that the calendar has.
    pub fn is_valid(&self) -> (r: bool)
        ensures
            r == date_valid(*self),
    {
        0 <= self.year && self.year <= 9999 && 1 <= self.month && self.month <= 12 && 1 <= self.day
            && self.day <= days_in_month_exec(self.year, self.month)
    }

    /// The normalized text `YYYY-MM-DD`.
    pub fn to_text(&self) -> (r: String)
        requires
            date_valid(*self),
        ensures
            r@ == date_text(*self),
    {
        let mut out = String::new();
        push_fixed(&mut out, self.year as u32, 4);
        out.append("-");
        push_fixed(&mut out, self.month, 2);
        out.append("-");
        push_fixed(&mut out, self.day, 2);
        proof { reveal_strlit("-"); }
        assert(out@ =~= date_text(*self));
        out
    }
}

impl Timestamp {
    pub fn is_valid(&self) -> (r: bool)
        ensures
            r == timestamp_valid(*self),
    {
        self.date.is_valid() && self.hour < 24 && self.minute < 60 && self.second <= 60
            && self.nanosecond < 1000000000 && -1439 <= self.offset_minutes
            && self.offset_minutes <= 1439
    }

    /// The normalized RFC 3339 text.
    pub fn to_text(&self) -> (r: String)
        requires
            timestamp_valid(*self),
        ensures
            r@ == timestamp_text(*self),
    {
        let mut out = self.date.to_text();
        out.append("T");
        push_fixed(&mut out, self.hour, 2);
        out.append(":");
        push_fixed(&mut out, self.minute, 2);
        out.append(":");
        push_fixed(&mut out, self.second, 2);
        let ghost head = out@;
        let n = self.nanosecond;
        if n == 0 {
        } else if n % 1000000 == 0 {
            out.append(".");
            push_fixed(&mut out, n / 1000000, 3);
        } else if n % 1000 == 0 {
            out.append(".");
            push_fixed(&mut out, n / 1000, 6);
        } else {
            out.append(".");
            push_fixed(&mut out, n, 9);
        }
        proof { reveal_strlit("T"); reveal_strlit(":"); reveal_strlit("."); }
        assert(out@ =~= head + fraction_text(n as nat));
        let ghost body = out@;
        let m = self.offset_minutes;
        let a: u32 = if m < 0 {
            out.append("-");
            (0 - m) as u32
        } else {
            out.append("+");
            m as u32
        };
        push_fixed(&mut out, a / 60, 2);
        out.append(":");
        push_fixed(&mut out, a % 60, 2);
        proof { reveal_strlit("-"); reveal_strlit("+"); }
        assert(out@ =~= body + offset_text(m as int));
        assert(out@ =~= timestamp_text(*self));
        out
    }
}

fn read_date_at(cs: &Vec<char>, i: usize) -> (r: Option<CalendarDate>)
    requires
        i + 10 <= cs.len(),
    ensures
        r == parse_date_text(cs@.subrange(i as int, i + 10)),
{
    let ghost s = cs@.subrange(i as int, i + 10);
    assert(s.subrange(0, 4) =~= cs@.subrange(i as int, i + 4));
    assert(s.subrange(5, 7) =~= cs@.subrange(i + 5, i + 7));
    assert(s.subrange(8, 10) =~= cs@.subrange(i + 8, i + 10));
    let y = match read_digits(cs, i, 4) {
        Some(v) => v,
        None => return None,
    };
    if cs[i + 4] != '-' {
        return None;
    }
    let m = match read_digits(cs, i + 5, 2) {
        Some(v) => v,
        None => return None,
    };
    if cs[i + 7] != '-' {
        return None;
    }
    let d = match read_digits(cs, i + 8, 2) {
        Some(v) => v,
        None => return None,
    };
    proof {
        lemma_pow10_values();
    }
    let date = CalendarDate { year: y as i32, month: m, day: d };
    if date.is_valid() {
        Some(date)
    } else {
        None
    }
}

/// Reads a normalized date text `YYYY-MM-DD`.
pub fn parse_date(s: &str) -> (r: Option<CalendarDate>)
    ensures
        r == parse_date_text(s@),
{
    let cs = chars_of(s);
    if cs.len() != 10 {
        return None;
    }
    assert(cs@.subrange(0, 10) =~= s@);
    read_date_at(&cs, 0)
}


fn read_fraction(cs: &Vec<char>, i: usize, j: usize) -> (r: Option<u32>)
    requires
        i <= j <= cs.len(),
    ensures
        match r {
            Some(v) => parse_fraction(cs@.subrange(i as int, j as int)) == Some(v as nat),
            None => parse_fraction(cs@.subrange(i as int, j as int)) is None,
        },
{
    let ghost f = cs@.subrange(i as int, j as int);
    let len = j - i;
    if len == 0 {
        return Some(0);
    }
    if !(len == 4 || len == 7 || len == 10) || cs[i] != '.' {
        return None;
    }
    assert(f.drop_first() =~= cs@.subrange(i + 1, j as int));
    proof {
        lemma_pow10_values();
    }
    match read_digits(cs, i + 1, len - 1) {
        Some(v) => {
            assert(f.len() == len && f[0] == '.');
            assert(cs@.subrange(i + 1, i + 1 + (len - 1)) =~= f.drop_first());
            assert(digits_value(f.drop_first()) == v);
            assert(all_digits(f.drop_first()));
            let k: u32 = if len == 4 {
                1000000
            } else if len == 7 {
                1000
            } else {
                1
            };
            assert(pow10((10 - f.len()) as nat) == k);
            assert(v < pow10((len - 1) as nat));
            assert(v * k < 1000000000) by (nonlinear_arith)
                requires
                    (k == 1000000 && v < 1000) || (k == 1000 && v < 1000000) || (k == 1 && v
                        < 1000000000),
            ;
            Some(v * k)
        },
        None => None,
    }
}

fn read_offset(cs: &Vec<char>, i: usize) -> (r: Option<i32>)
    requires
        i + 6 <= cs.len(),
    ensures
        match r {
            Some(v) => parse_offset(cs@.subrange(i as int, i + 6)) == Some(v as int),
            None => parse_offset(cs@.subrange(i as int, i + 6)) is None,
        },
{
    let ghost o = cs@.subrange(i as int, i + 6);
    assert(o.subrange(1, 3) =~= cs@.subrange(i + 1, i + 3));
    assert(o.subrange(4, 6) =~= cs@.subrange(i + 4, i + 6));
    let sign = cs[i];
    if !(sign == '+' || sign == '-') || cs[i + 3] != ':' {
        return None;
    }
    proof {
        lemma_pow10_values();
    }
    let h = match read_digits(cs, i + 1, 2) {
        Some(v) => v,
        None => return None,
    };
    let m = match read_digits(cs, i + 4, 2) {
        Some(v) => v,
        None => return None,
    };
    let v = (h * 60 + m) as i32;
    if sign == '-' {
        Some(0 - v)
    } else {
        Some(v)
    }
}

/// Reads a normalized timestamp text.
pub fn parse_timestamp(s: &str) -> (r: Option<Timestamp>)
    ensures
        r == parse_timestamp_text(s@),
{
    let cs = chars_of(s);
    let n = cs.len();
    if n < 25 || cs[10] != 'T' || cs[13] != ':' || cs[16] != ':' {
        return None;
    }
    proof {
        lemma_pow10_values();
    }
    let hour = match read_digits(&cs, 11, 2) {
        Some(v) => v,
        None => return None,
    };
    let minute = match read_digits(&cs, 14, 2) {
        Some(v) => v,
        None => return None,
    };
    let second = match read_digits(&cs, 17, 2) {
        Some(v) => v,
        None => return None,
    };
    let date = read_date_at(&cs, 0);
    let frac = read_fraction(&cs, 19, n - 6);
    let off = read_offset(&cs, n - 6);
    match (date, frac, off) {
        (Some(d), Some(f), Some(o)) => {
            let t = Timestamp {
                date: d,
                hour,
                minute,
                second,
                nanosecond: f,
                offset_minutes: o,
            };
            if t.is_valid() {
                Some(t)
            } else {
                None
            }
        },
        _ => None,
    }
}


impl View for CalendarDate {
    type V = CalendarDate;

    open spec fn view(&self) -> CalendarDate {
        *self
    }
}

impl View for Timestamp {
    type V = Timestamp;

    open spec fn view(&self) -> Timestamp {
        *self
    }
}

/// The fields that `chrono::DateTime::parse_from_rfc3339` reads from a text:
/// local year, month, day, hour, minute, second, nanosecond (a leap second
/// past 999_999_999) and the offset in seconds; nothing where it fails.
pub uninterp spec fn rfc3339_fields(s: Seq<char>) -> Option<(i32, u32, u32, u32, u32, u32, u32, i32)>;

/// The year, month and day that `chrono::NaiveDate::parse_from_str` reads
/// from a text in the format `%Y-%m-%d`; nothing where it fails.
pub uninterp spec fn ymd_fields(s: Seq<char>) -> Option<(i32, u32, u32)>;

/// Relies on `chrono::DateTime::parse_from_rfc3339`: what it parses depends
/// on the text alone.
#[verifier::external_body]
fn chrono_rfc3339_fields(s: &str) -> (r: Option<(i32, u32, u32, u32, u32, u32, u32, i32)>)
    ensures
        r == rfc3339_fields(s@),
{
    let t = chrono::DateTime::parse_from_rfc3339(s).ok()?;
    Some((t.year(), t.month(), t.day(), t.hour(), t.minute(), t.second(), t.nanosecond(), t.offset().local_minus_utc()))
}

/// Relies on `chrono::NaiveDate::parse_from_str` with the format `%Y-%m-%d`:
/// what it parses depends on the text alone.
#[verifier::external_body]
fn chrono_ymd_fields(s: &str) -> (r: Option<(i32, u32, u32)>)
    ensures
        r == ymd_fields(s@),
{
    let d = chrono::NaiveDate::parse_from_str(s, "%Y-%m-%d").ok()?;
    Some((d.year(), d.month(), d.day()))
}

/// The date that parsed fields stand for, where it is a valid date.
pub open spec fn date_of_fields(f: Option<(i32, u32, u32)>) -> Option<CalendarDate> {
    match f {
        Some((y, m, d)) => {
            let date = CalendarDate { year: y, month: m, day: d };
            if date_valid(date) {
                Some(date)
            } else {
                None
            }
        },
        None => None,
    }
}

/// The timestamp that parsed fields stand for: a leap second becomes second
/// 60, the offset is kept in whole minutes; nothing where the fields fall
/// outside the timestamps this library holds.
pub open spec fn timestamp_of_fields(f: Option<(i32, u32, u32, u32, u32, u32, u32, i32)>) -> Option<Timestamp> {
    match f {
        Some((y, mo, d, h, mi, sec, ns, off)) => {
            let leap = ns >= 1000000000;
            let t = Timestamp {
                date: CalendarDate { year: y, month: mo, day: d },
                hour: h,
                minute: mi,
                second: if leap { (sec + 1) as u32 } else { sec },
                nanosecond: if leap { (ns - 1000000000) as u32 } else { ns },
                offset_minutes: (off / 60) as i32,
            };
            if (leap ==> sec < 60) && off % 60 == 0 && timestamp_valid(t) {
                Some(t)
            } else {
                None
            }
        },
        None => None,
    }
}

/// Reads a date in the form `YYYY-MM-DD`, as chrono parses it.
pub fn parse_ymd(s: &str) -> (r: Option<CalendarDate>)
    ensures
        r == date_of_fields(ymd_fields(s@)),
{
    match chrono_ymd_fields(s) {
        Some((y, m, d)) => {
            let date = CalendarDate { year: y, month: m, day: d };
            if date.is_valid() {
                Some(date)
            } else {
                None
            }
        },
        None => None,
    }
}

/// Reads an RFC 3339 timestamp with an offset, as chrono parses it.
pub fn parse_rfc3339(s: &str) -> (r: Option<Timestamp>)
    ensures
        r == timestamp_of_fields(rfc3339_fields(s@)),
{
    match chrono_rfc3339_fields(s) {
        Some((y, mo, d, h, mi, sec, ns, off)) => {
            let leap = ns >= 1000000000;
            if leap && sec >= 60 {
                return None;
            }
            if off % 60 != 0 {
                return None;
            }
            let t = Timestamp {
                date: CalendarDate { year: y, month: mo, day: d },
                hour: h,
                minute: mi,
                second: if leap { sec + 1 } else { sec },
                nanosecond: if leap { ns - 1000000000 } else { ns },
                offset_minutes: off / 60,
            };
            if t.is_valid() {
                Some(t)
            } else {
                None
            }
        },
        None => None,
    }
}

/// A text is never more than four bytes a character in UTF-8.
pub proof fn lemma_utf8_len(s: Seq<char>)
    ensures
        encode_utf8(s).len() <= 4 * s.len(),
    decreases s.len(),
{
    if s.len() > 0 {
        lemma_utf8_len(s.drop_first());
    }
}

pub proof fn lemma_timestamp_text_len(t: Timestamp)
    requires
        timestamp_valid(t),
    ensures
        timestamp_text(t).len() <= 35,
        date_text(t.date).len() == 10,
{
    lemma_pow10_values();
    lemma_date_text(t.date);
    lemma_fraction(t.nanosecond as nat);
    lemma_offset(t.offset_minutes as int);
    lemma_fixed_digits(t.hour as nat, 2);
    lemma_fixed_digits(t.minute as nat, 2);
    lemma_fixed_digits(t.second as nat, 2);
}

} // verus!

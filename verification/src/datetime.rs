use vstd::prelude::*;

use crate::strutil::{
    digit_char, digit_val, lemma_digit_char_val, lemma_digit_val_char, spec_digit_char,
    spec_digit_val, spec_is_digit, string_from_chars,
};

verus! {

/// A calendar date and time of day, at second precision.
///
/// The ranges of the fields are constrained by [`DateTime::valid`]:
/// a value is meaningful only when it names a real calendar moment.
#[derive(Clone, Copy, Debug, PartialEq, Eq, Structural)]
pub struct DateTime {
    pub year: u32,
    pub month: u32,
    pub day: u32,
    pub hour: u32,
    pub minute: u32,
    pub second: u32,
}

impl DateTime {
    /// A year is a leap year when divisible by 4, except centuries,
    /// unless divisible by 400.
    pub open spec fn spec_is_leap_year(y: u32) -> bool {
        (y % 4 == 0 && y % 100 != 0) || y % 400 == 0
    }

    /// The number of days of month `m` of year `y`.
    pub open spec fn spec_days_in_month(y: u32, m: u32) -> u32 {
        if m == 2 {
            if Self::spec_is_leap_year(y) { 29 } else { 28 }
        } else if m == 4 || m == 6 || m == 9 || m == 11 {
            30
        } else {
            31
        }
    }

    /// A value names a real calendar moment with a four-digit year.
    pub open spec fn valid(self) -> bool {
        &&& self.year <= 9999
        &&& 1 <= self.month <= 12
        &&& 1 <= self.day <= Self::spec_days_in_month(self.year, self.month)
        &&& self.hour <= 23
        &&& self.minute <= 59
        &&& self.second <= 59
    }

    pub fn is_leap_year(y: u32) -> (r: bool)
        ensures
            r == Self::spec_is_leap_year(y),
    {
        (y % 4 == 0 && y % 100 != 0) || y % 400 == 0
    }

    pub fn days_in_month(y: u32, m: u32) -> (r: u32)
        ensures
            r == Self::spec_days_in_month(y, m),
    {
        if m == 2 {
            if Self::is_leap_year(y) { 29 } else { 28 }
        } else if m == 4 || m == 6 || m == 9 || m == 11 {
            30
        } else {
            31
        }
    }
}

/// Chronological order on date-times, field by field from year to second.
pub open spec fn spec_dt_leq(a: DateTime, b: DateTime) -> bool {
    if a.year != b.year { a.year < b.year }
    else if a.month != b.month { a.month < b.month }
    else if a.day != b.day { a.day < b.day }
    else if a.hour != b.hour { a.hour < b.hour }
    else if a.minute != b.minute { a.minute < b.minute }
    else { a.second <= b.second }
}

/// Whether `a` is no later than `b`.
pub fn dt_leq(a: &DateTime, b: &DateTime) -> (r: bool)
    ensures
        r == spec_dt_leq(*a, *b),
{
    if a.year != b.year { a.year < b.year }
    else if a.month != b.month { a.month < b.month }
    else if a.day != b.day { a.day < b.day }
    else if a.hour != b.hour { a.hour < b.hour }
    else if a.minute != b.minute { a.minute < b.minute }
    else { a.second <= b.second }
}

/// The order is total: any two date-times compare one way or the other.
pub proof fn lemma_dt_leq_total(a: DateTime, b: DateTime)
    ensures
        spec_dt_leq(a, b) || spec_dt_leq(b, a),
        spec_dt_leq(a, a),
{
}

/// Two digits, zero padded.
pub open spec fn spec_pad2(n: u32) -> Seq<char> {
    seq![spec_digit_char((n / 10) as u32), spec_digit_char((n % 10) as u32)]
}

/// Four digits, zero padded.
pub open spec fn spec_pad4(n: u32) -> Seq<char> {
    seq![
        spec_digit_char((n / 1000) as u32),
        spec_digit_char((n % 1000 / 100) as u32),
        spec_digit_char((n % 100 / 10) as u32),
        spec_digit_char((n % 10) as u32),
    ]
}

/// The 19 characters `YYYY-MM-DD<sep>HH:MM:SS`, zero padded.
pub open spec fn spec_format_dt(dt: DateTime, sep: char) -> Seq<char> {
    seq![
        spec_digit_char((dt.year / 1000) as u32),
        spec_digit_char((dt.year % 1000 / 100) as u32),
        spec_digit_char((dt.year % 100 / 10) as u32),
        spec_digit_char((dt.year % 10) as u32),
        '-',
        spec_digit_char((dt.month / 10) as u32),
        spec_digit_char((dt.month % 10) as u32),
        '-',
        spec_digit_char((dt.day / 10) as u32),
        spec_digit_char((dt.day % 10) as u32),
        sep,
        spec_digit_char((dt.hour / 10) as u32),
        spec_digit_char((dt.hour % 10) as u32),
        ':',
        spec_digit_char((dt.minute / 10) as u32),
        spec_digit_char((dt.minute % 10) as u32),
        ':',
        spec_digit_char((dt.second / 10) as u32),
        spec_digit_char((dt.second % 10) as u32),
    ]
}

fn push_pad2(n: u32, out: &mut Vec<char>)
    requires
        n < 100,
    ensures
        final(out)@ == old(out)@ + spec_pad2(n),
{
    out.push(digit_char(n / 10));
    out.push(digit_char(n % 10));
    proof {
        assert(out@ =~= old(out)@ + spec_pad2(n));
    }
}

fn push_pad4(n: u32, out: &mut Vec<char>)
    requires
        n < 10000,
    ensures
        final(out)@ == old(out)@ + spec_pad4(n),
{
    out.push(digit_char(n / 1000));
    out.push(digit_char(n % 1000 / 100));
    out.push(digit_char(n % 100 / 10));
    out.push(digit_char(n % 10));
    proof {
        assert(out@ =~= old(out)@ + spec_pad4(n));
    }
}

/// Formats the date-time with the given separator between date and time.
pub fn format_dt(dt: &DateTime, sep: char) -> (r: String)
    requires
        dt.valid(),
    ensures
        r@ == spec_format_dt(*dt, sep),
{
    let mut out: Vec<char> = Vec::new();
    push_pad4(dt.year, &mut out);
    out.push('-');
    push_pad2(dt.month, &mut out);
    out.push('-');
    push_pad2(dt.day, &mut out);
    out.push(sep);
    push_pad2(dt.hour, &mut out);
    out.push(':');
    push_pad2(dt.minute, &mut out);
    out.push(':');
    push_pad2(dt.second, &mut out);
    proof {
        assert(out@ =~= spec_format_dt(*dt, sep));
    }
    string_from_chars(&out)
}

/// The digit value of a character known to be a digit.
pub open spec fn spec_dv(c: char) -> u32 {
    spec_digit_val(c)->Some_0
}

/// Parses the 19 characters `YYYY-MM-DD<sep>HH:MM:SS` into a date-time,
/// and accepts exactly the strings of that shape that name a real calendar
/// moment.
pub open spec fn spec_parse_dt(s: Seq<char>, sep: char) -> Option<DateTime> {
    if s.len() == 19
        && spec_is_digit(s[0]) && spec_is_digit(s[1]) && spec_is_digit(s[2]) && spec_is_digit(s[3])
        && s[4] == '-' && spec_is_digit(s[5]) && spec_is_digit(s[6]) && s[7] == '-'
        && spec_is_digit(s[8]) && spec_is_digit(s[9]) && s[10] == sep
        && spec_is_digit(s[11]) && spec_is_digit(s[12]) && s[13] == ':'
        && spec_is_digit(s[14]) && spec_is_digit(s[15]) && s[16] == ':'
        && spec_is_digit(s[17]) && spec_is_digit(s[18]) {
        let dt = DateTime {
            year: (spec_dv(s[0]) * 1000 + spec_dv(s[1]) * 100 + spec_dv(s[2]) * 10 + spec_dv(s[3])) as u32,
            month: (spec_dv(s[5]) * 10 + spec_dv(s[6])) as u32,
            day: (spec_dv(s[8]) * 10 + spec_dv(s[9])) as u32,
            hour: (spec_dv(s[11]) * 10 + spec_dv(s[12])) as u32,
            minute: (spec_dv(s[14]) * 10 + spec_dv(s[15])) as u32,
            second: (spec_dv(s[17]) * 10 + spec_dv(s[18])) as u32,
        };
        if dt.valid() { Some(dt) } else { None }
    } else {
        None
    }
}

fn two_digits(s: &str, i: usize) -> (r: Option<u32>)
    requires
        i + 2 <= s@.len(),
        s@.len() <= usize::MAX,
    ensures
        match r {
            Some(v) => {
                &&& spec_is_digit(s@[i as int])
                &&& spec_is_digit(s@[i + 1])
                &&& v == spec_dv(s@[i as int]) * 10 + spec_dv(s@[i + 1])
            },
            None => !spec_is_digit(s@[i as int]) || !spec_is_digit(s@[i + 1]),
        },
{
    let a = match digit_val(s.get_char(i)) {
        Some(d) => d,
        None => { return None; },
    };
    let b = match digit_val(s.get_char(i + 1)) {
        Some(d) => d,
        None => { return None; },
    };
    Some(a * 10 + b)
}

/// Parses a date-time in the given separator's format, returning `None`
/// for anything that is not exactly of that shape.
pub fn parse_dt(s: &str, sep: char) -> (r: Option<DateTime>)
    ensures
        r == spec_parse_dt(s@, sep),
{
    if s.unicode_len() != 19 {
        return None;
    }
    let y_hi = match two_digits(s, 0) {
        Some(v) => v,
        None => { return None; },
    };
    let y_lo = match two_digits(s, 2) {
        Some(v) => v,
        None => { return None; },
    };
    if s.get_char(4) != '-' {
        return None;
    }
    let month = match two_digits(s, 5) {
        Some(v) => v,
        None => { return None; },
    };
    if s.get_char(7) != '-' {
        return None;
    }
    let day = match two_digits(s, 8) {
        Some(v) => v,
        None => { return None; },
    };
    if s.get_char(10) != sep {
        return None;
    }
    let hour = match two_digits(s, 11) {
        Some(v) => v,
        None => { return None; },
    };
    if s.get_char(13) != ':' {
        return None;
    }
    let minute = match two_digits(s, 14) {
        Some(v) => v,
        None => { return None; },
    };
    if s.get_char(16) != ':' {
        return None;
    }
    let second = match two_digits(s, 17) {
        Some(v) => v,
        None => { return None; },
    };
    let year = y_hi * 100 + y_lo;
    let dt = DateTime { year, month, day, hour, minute, second };
    if 1 <= month && month <= 12 && 1 <= day && day <= DateTime::days_in_month(year, month)
        && hour <= 23 && minute <= 59 && second <= 59 {
        Some(dt)
    } else {
        None
    }
}

/// A digit character's value is at most nine.
pub proof fn lemma_dv_le9(c: char)
    requires
        spec_is_digit(c),
    ensures
        spec_dv(c) <= 9,
{
}

/// Formatting a valid date-time and parsing the result gives it back:
/// the codec loses nothing.
#[verifier::rlimit(60)]
pub proof fn lemma_format_parse(dt: DateTime, sep: char)
    requires
        dt.valid(),
    ensures
        spec_parse_dt(spec_format_dt(dt, sep), sep) == Some(dt),
{
    let s = spec_format_dt(dt, sep);
    let y = dt.year;
    let mo = dt.month;
    let d = dt.day;
    let h = dt.hour;
    let mi = dt.minute;
    let sc = dt.second;
    lemma_digit_char_val((y / 1000) as u32);
    lemma_digit_char_val((y % 1000 / 100) as u32);
    lemma_digit_char_val((y % 100 / 10) as u32);
    lemma_digit_char_val((y % 10) as u32);
    lemma_digit_char_val((mo / 10) as u32);
    lemma_digit_char_val((mo % 10) as u32);
    lemma_digit_char_val((d / 10) as u32);
    lemma_digit_char_val((d % 10) as u32);
    lemma_digit_char_val((h / 10) as u32);
    lemma_digit_char_val((h % 10) as u32);
    lemma_digit_char_val((mi / 10) as u32);
    lemma_digit_char_val((mi % 10) as u32);
    lemma_digit_char_val((sc / 10) as u32);
    lemma_digit_char_val((sc % 10) as u32);
    assert(y / 1000 * 1000 + (y % 1000 / 100) * 100 + (y % 100 / 10) * 10 + y % 10 == y) by {
        assert(y == y / 1000 * 1000 + y % 1000);
        assert(y % 1000 == y % 1000 / 100 * 100 + y % 1000 % 100);
        assert(y % 1000 % 100 == y % 100);
        assert(y % 100 == y % 100 / 10 * 10 + y % 100 % 10);
        assert(y % 100 % 10 == y % 10);
    };
    assert(mo / 10 * 10 + mo % 10 == mo);
    assert(d / 10 * 10 + d % 10 == d);
    assert(h / 10 * 10 + h % 10 == h);
    assert(mi / 10 * 10 + mi % 10 == mi);
    assert(sc / 10 * 10 + sc % 10 == sc);
    assert(spec_parse_dt(s, sep)->Some_0 == dt);
}

/// Parsing pins the text down: a string the parser accepts is exactly the
/// formatting of the date-time it returns.
pub proof fn lemma_parse_format(s: Seq<char>, sep: char)
    requires
        spec_parse_dt(s, sep) is Some,
    ensures
        spec_format_dt(spec_parse_dt(s, sep)->Some_0, sep) == s,
{
    let dt = spec_parse_dt(s, sep)->Some_0;
    lemma_dv_le9(s[0]);
    lemma_dv_le9(s[1]);
    lemma_dv_le9(s[2]);
    lemma_dv_le9(s[3]);
    lemma_dv_le9(s[5]);
    lemma_dv_le9(s[6]);
    lemma_dv_le9(s[8]);
    lemma_dv_le9(s[9]);
    lemma_dv_le9(s[11]);
    lemma_dv_le9(s[12]);
    lemma_dv_le9(s[14]);
    lemma_dv_le9(s[15]);
    lemma_dv_le9(s[17]);
    lemma_dv_le9(s[18]);
    lemma_digit_val_char(s[0]);
    lemma_digit_val_char(s[1]);
    lemma_digit_val_char(s[2]);
    lemma_digit_val_char(s[3]);
    lemma_digit_val_char(s[5]);
    lemma_digit_val_char(s[6]);
    lemma_digit_val_char(s[8]);
    lemma_digit_val_char(s[9]);
    lemma_digit_val_char(s[11]);
    lemma_digit_val_char(s[12]);
    lemma_digit_val_char(s[14]);
    lemma_digit_val_char(s[15]);
    lemma_digit_val_char(s[17]);
    lemma_digit_val_char(s[18]);
    let a0 = spec_dv(s[0]);
    let a1 = spec_dv(s[1]);
    let a2 = spec_dv(s[2]);
    let a3 = spec_dv(s[3]);
    assert(dt.year == a0 * 1000 + a1 * 100 + a2 * 10 + a3);
    assert(dt.year / 1000 == a0 && dt.year % 1000 / 100 == a1 && dt.year % 100 / 10 == a2
        && dt.year % 10 == a3) by {
        lemma_four_digit_split(a0, a1, a2, a3);
    };
    lemma_two_digit_split(spec_dv(s[5]), spec_dv(s[6]));
    lemma_two_digit_split(spec_dv(s[8]), spec_dv(s[9]));
    lemma_two_digit_split(spec_dv(s[11]), spec_dv(s[12]));
    lemma_two_digit_split(spec_dv(s[14]), spec_dv(s[15]));
    lemma_two_digit_split(spec_dv(s[17]), spec_dv(s[18]));
    assert(spec_format_dt(dt, sep) =~= s);
}

/// The digits of a two-digit decimal composition can be read back off.
pub proof fn lemma_two_digit_split(hi: u32, lo: u32)
    requires
        hi <= 9,
        lo <= 9,
    ensures
        (hi * 10 + lo) / 10 == hi,
        (hi * 10 + lo) % 10 == lo,
{
}

/// The digits of a four-digit decimal composition can be read back off.
pub proof fn lemma_four_digit_split(a: u32, b: u32, c: u32, d: u32)
    requires
        a <= 9,
        b <= 9,
        c <= 9,
        d <= 9,
    ensures
        (a * 1000 + b * 100 + c * 10 + d) / 1000 == a,
        (a * 1000 + b * 100 + c * 10 + d) % 1000 / 100 == b,
        (a * 1000 + b * 100 + c * 10 + d) % 100 / 10 == c,
        (a * 1000 + b * 100 + c * 10 + d) % 10 == d,
{
    let n = a * 1000 + b * 100 + c * 10 + d;
    assert(n % 1000 == b * 100 + c * 10 + d);
    assert(n % 100 == c * 10 + d);
    assert(n % 10 == d);
}

} // verus!

use vstd::prelude::*;
use vstd::string::{is_ascii, is_ascii_spec_bytes, StringSliceAdditionalSpecFns};

use crate::calendar::{day_number, valid_ymd, weekday_of, MAX_YEAR};
use crate::datetime::{utc_of, DateTime};
use crate::format::{
    ascii_chars, date_text, dec, digit, frac_text, hms_text, is_ascii_text, month_abbr, offset_text,
    rfc2822_text, rfc3339_text, second_field, weekday_abbr, year_text, SecondsFormat,
};
use crate::naive::{lemma_shift_back, lemma_ymd_unique, ymd_of};
use vstd::arithmetic::div_mod::lemma_fundamental_div_mod;
use vstd::arithmetic::div_mod::lemma_fundamental_div_mod_converse;
use crate::naive::{date_in_range, NaiveDate, NaiveTime};

use crate::offset::{offset_valid, FixedOffset, TimeZone, Utc};

verus! {

/// Why text was refused.
#[derive(Clone, Copy, Debug, PartialEq, Eq, Structural)]
pub enum ParseError {
    /// The text does not follow the grammar.
    Invalid,
    /// A field is well formed but out of its range, or the value it gives
    /// cannot be represented.
    OutOfRange,
    /// The text gives no offset where one is needed.
    NotEnough,
    /// The text ends before the grammar does.
    TooShort,
    /// Text is left after the grammar is done.
    TooLong,
    /// The fields contradict each other.
    Impossible,
    /// The format string holds an unknown directive.
    BadFormat,
}

/// The fields read from text, before they are checked against each other.
#[derive(Clone, Copy, Debug, PartialEq, Eq, Structural)]
pub struct Fields {
    pub year: Option<i64>,
    pub month: Option<u32>,
    pub day: Option<u32>,
    pub weekday: Option<u32>,
    pub hour: Option<u32>,
    pub minute: Option<u32>,
    pub second: Option<u32>,
    pub nanosecond: Option<u32>,
    pub offset: Option<i32>,
}

pub open spec fn no_fields() -> Fields {
    Fields {
        year: None,
        month: None,
        day: None,
        weekday: None,
        hour: None,
        minute: None,
        second: None,
        nanosecond: None,
        offset: None,
    }
}

pub open spec fn is_digit(c: u8) -> bool {
    48 <= c <= 57
}

pub open spec fn pow10(n: nat) -> nat
    decreases n,
{
    if n == 0 {
        1
    } else {
        10 * pow10((n - 1) as nat)
    }
}

/// Number of digits in a row from `pos`, at most `max`.
pub open spec fn digit_run(s: Seq<u8>, pos: int, max: nat) -> nat
    decreases max,
{
    if max == 0 || pos < 0 || pos >= s.len() || !is_digit(s[pos]) {
        0
    } else {
        1 + digit_run(s, pos + 1, (max - 1) as nat)
    }
}

/// Value of the `n` digits from `pos`.
pub open spec fn digits_value(s: Seq<u8>, pos: int, n: nat) -> nat
    decreases n,
{
    if n == 0 {
        0
    } else {
        digits_value(s, pos, (n - 1) as nat) * 10 + (s[pos + n - 1] - 48) as nat
    }
}

/// The number written from `pos` with `min` to `max` digits (as many as are
/// there), and where it ends.
pub open spec fn number_at(s: Seq<u8>, pos: int, min: nat, max: nat) -> Option<(nat, int)> {
    let n = digit_run(s, pos, max);
    if n < min {
        None
    } else {
        Some((digits_value(s, pos, n), pos + n))
    }
}

/// Reads the number written from `pos` with `min` to `max` digits.
pub fn parse_number(s: &[u8], pos: usize, min: usize, max: usize) -> (r: Option<(u32, usize)>)
    requires
        max <= 9,
    ensures
        r is Some <==> number_at(s@, pos as int, min as nat, max as nat) is Some,
        r matches Some(v) ==> number_at(s@, pos as int, min as nat, max as nat) == Some(
            (v.0 as nat, v.1 as int),
        ),
        r matches Some(v) ==> pos + min <= v.1 <= pos + max && v.0 < pow10((v.1 - pos) as nat),
{
    let mut i: usize = 0;
    let mut value: u32 = 0;
    while i < max && pos < s.len() && i < s.len() - pos && 48 <= s[pos + i] && s[pos + i] <= 57
        invariant
            i <= max <= 9,
            pos + i <= s.len() || i == 0,
            digit_run(s@, pos as int, max as nat) == i + digit_run(s@, pos + i, (max - i) as nat),
            value == digits_value(s@, pos as int, i as nat),
            value < pow10(i as nat),
        decreases max - i,
    {
        proof {
            assert(pow10((i + 1) as nat) == 10 * pow10(i as nat));
            reveal_with_fuel(pow10, 10);
            assert(pow10(8) == 100_000_000);
            lemma_pow10_monotone(i as nat, 8);
        }
        value = value * 10 + (s[pos + i] - 48) as u32;
        i = i + 1;
    }
    if i < min {
        None
    } else {
        let end: usize = if i == 0 { pos } else { pos + i };
        Some((value, end))
    }
}

proof fn lemma_pow10_monotone(a: nat, b: nat)
    requires
        a <= b,
    ensures
        pow10(a) <= pow10(b),
    decreases b - a,
{
    if a < b {
        lemma_pow10_monotone(a, (b - 1) as nat);
    }
}

/// The number from `pos` with `min` to `max` digits, and where it ends.
pub open spec fn num(s: Seq<u8>, pos: int, min: nat, max: nat) -> Result<(nat, int), ParseError> {
    match number_at(s, pos, min, max) {
        Some(v) => Ok(v),
        None => if pos >= s.len() {
            Err(ParseError::TooShort)
        } else {
            Err(ParseError::Invalid)
        },
    }
}

/// The byte `c` at `pos`; where the text goes on.
pub open spec fn lit(s: Seq<u8>, pos: int, c: u8) -> Result<int, ParseError> {
    if pos < 0 || pos >= s.len() {
        Err(ParseError::TooShort)
    } else if s[pos] == c {
        Ok(pos + 1)
    } else {
        Err(ParseError::Invalid)
    }
}

/// Whether `c` is the letter `upper` in either case.
pub open spec fn letter_is(c: u8, upper: u8) -> bool {
    c == upper || c == upper + 32
}

/// Number of spaces in a row from `pos`.
pub open spec fn space_run(s: Seq<u8>, pos: int) -> nat
    decreases s.len() - pos,
{
    if pos < 0 || pos >= s.len() || s[pos] != 32 {
        0
    } else {
        1 + space_run(s, pos + 1)
    }
}

/// A fraction of a second after a dot, in nanoseconds: none when no dot
/// follows.
pub open spec fn frac_at(s: Seq<u8>, pos: int) -> Result<(nat, int), ParseError> {
    if 0 <= pos < s.len() && s[pos] == 46 {
        match num(s, pos + 1, 1, 9) {
            Ok((v, e)) => Ok((v * pow10((9 - (e - pos - 1)) as nat), e)),
            Err(x) => Err(x),
        }
    } else {
        Ok((0, pos))
    }
}

/// A zone of RFC 3339 text: `Z`, `UTC` (any case) or `+hh:mm`; spaces may
/// stand around it in lenient text. The offset, where the text ends.
pub open spec fn zone_at(s: Seq<u8>, pos0: int, lenient: bool) -> Result<(int, int), ParseError> {
    let pos = if lenient { pos0 + space_run(s, pos0) } else { pos0 };
    if pos < 0 || pos >= s.len() {
        Err(ParseError::NotEnough)
    } else if letter_is(s[pos], 90) {
        Ok((0, pos + 1))
    } else if pos + 2 < s.len() && letter_is(s[pos], 85) && letter_is(s[pos + 1], 84) && letter_is(
        s[pos + 2],
        67,
    ) {
        Ok((0, pos + 3))
    } else if s[pos] == 43 || s[pos] == 45 {
        match num(s, pos + 1, 2, 2) {
            Ok((hh, at1)) => match lit(s, at1, 58) {
                Ok(at2) => match num(s, at2, 2, 2) {
                    Ok((mm, at3)) => {
                        let a = hh * 3600 + mm * 60;
                        Ok((if s[pos] == 45 { -a } else { a as int }, at3))
                    },
                    Err(x) => Err(x),
                },
                Err(x) => Err(x),
            },
            Err(x) => Err(x),
        }
    } else {
        Err(ParseError::Invalid)
    }
}

/// The end of the text after a field ending at `pos`: only spaces may
/// follow in lenient text.
pub open spec fn end_at(s: Seq<u8>, pos: int, lenient: bool) -> Result<(), ParseError> {
    let e = if lenient { pos + space_run(s, pos) } else { pos };
    if e == s.len() {
        Ok(())
    } else {
        Err(ParseError::TooLong)
    }
}

/// Year, month and day of RFC 3339 text, and where they end.
pub open spec fn rfc3339_date(s: Seq<u8>, lenient: bool) -> Result<(nat, nat, nat, int), ParseError> {
    let (ymin, fmin): (nat, nat) = if lenient { (1, 1) } else { (4, 2) };
    match num(s, 0, ymin, 4) {
        Err(x) => Err(x),
        Ok((y, at1)) => match lit(s, at1, 45) {
            Err(x) => Err(x),
            Ok(at2) => match num(s, at2, fmin, 2) {
                Err(x) => Err(x),
                Ok((mo, at3)) => match lit(s, at3, 45) {
                    Err(x) => Err(x),
                    Ok(at4) => match num(s, at4, fmin, 2) {
                        Err(x) => Err(x),
                        Ok((d, at5)) => Ok((y, mo, d, at5)),
                    },
                },
            },
        },
    }
}

/// Hour, minute, second and nanoseconds of RFC 3339 text after the
/// separator at `pos`, and where they end.
pub open spec fn rfc3339_time(s: Seq<u8>, pos: int, lenient: bool) -> Result<
    (nat, nat, nat, nat, int),
    ParseError,
> {
    let fmin: nat = if lenient { 1 } else { 2 };
    if pos < 0 || pos >= s.len() {
        Err(ParseError::TooShort)
    } else if !(letter_is(s[pos], 84) || s[pos] == 32) {
        Err(ParseError::Invalid)
    } else {
        match num(s, pos + 1, fmin, 2) {
            Err(x) => Err(x),
            Ok((h, at6)) => match lit(s, at6, 58) {
                Err(x) => Err(x),
                Ok(at7) => match num(s, at7, fmin, 2) {
                    Err(x) => Err(x),
                    Ok((mi, at8)) => match lit(s, at8, 58) {
                        Err(x) => Err(x),
                        Ok(at9) => match num(s, at9, fmin, 2) {
                            Err(x) => Err(x),
                            Ok((sec, at10)) => match frac_at(s, at10) {
                                Err(x) => Err(x),
                                Ok((f, at11)) => Ok((h, mi, sec, f, at11)),
                            },
                        },
                    },
                },
            },
        }
    }
}

/// The fields of RFC 3339 text. Strict text has four-digit years and
/// two-digit fields; lenient text may shorten them, and write spaces
/// around the zone.
pub open spec fn rfc3339_fields(s: Seq<u8>, lenient: bool) -> Result<Fields, ParseError> {
    match rfc3339_date(s, lenient) {
        Err(x) => Err(x),
        Ok((y, mo, d, at5)) => match rfc3339_time(s, at5, lenient) {
            Err(x) => Err(x),
            Ok((h, mi, sec, f, at11)) => match zone_at(s, at11, lenient) {
                Err(x) => Err(x),
                Ok((off, at12)) => match end_at(s, at12, lenient) {
                    Err(x) => Err(x),
                    Ok(_) => Ok(
                        Fields {
                            year: Some(y as i64),
                            month: Some(mo as u32),
                            day: Some(d as u32),
                            weekday: None,
                            hour: Some(h as u32),
                            minute: Some(mi as u32),
                            second: Some(sec as u32),
                            nanosecond: Some(f as u32),
                            offset: Some(off as i32),
                        },
                    ),
                },
            },
        },
    }
}

fn read_num(s: &[u8], pos: usize, min: usize, max: usize) -> (r: Result<(u32, usize), ParseError>)
    requires
        max <= 9,
    ensures
        r matches Ok(v) ==> pos + min <= v.1 <= pos + max && v.0 < pow10((v.1 - pos) as nat),
        match (r, num(s@, pos as int, min as nat, max as nat)) {
            (Ok(a), Ok(b)) => a.0 as nat == b.0 && a.1 as int == b.1,
            (Err(a), Err(b)) => a == b,
            _ => false,
        },
{
    match parse_number(s, pos, min, max) {
        Some(v) => Ok(v),
        None => if pos >= s.len() {
            Err(ParseError::TooShort)
        } else {
            Err(ParseError::Invalid)
        },
    }
}

fn read_lit(s: &[u8], pos: usize, c: u8) -> (r: Result<usize, ParseError>)
    ensures
        match (r, lit(s@, pos as int, c)) {
            (Ok(a), Ok(b)) => a as int == b,
            (Err(a), Err(b)) => a == b,
            _ => false,
        },
{
    if pos >= s.len() {
        Err(ParseError::TooShort)
    } else if s[pos] == c {
        Ok(pos + 1)
    } else {
        Err(ParseError::Invalid)
    }
}

fn skip_spaces(s: &[u8], pos: usize) -> (r: usize)
    ensures
        r == pos + space_run(s@, pos as int),
        r <= s.len() || r == pos,
{
    let mut i: usize = pos;
    while i < s.len() && s[i] == 32
        invariant
            pos <= i,
            i <= s.len() || i == pos,
            space_run(s@, pos as int) == (i - pos) + space_run(s@, i as int),
        decreases s.len() - i,
    {
        i = i + 1;
    }
    i
}

fn read_frac(s: &[u8], pos: usize) -> (r: Result<(u32, usize), ParseError>)
    ensures
        match (r, frac_at(s@, pos as int)) {
            (Ok(a), Ok(b)) => a.0 as nat == b.0 && a.1 as int == b.1,
            (Err(a), Err(b)) => a == b,
            _ => false,
        },
{
    if pos < s.len() && s[pos] == 46 {
        match read_num(s, pos + 1, 1, 9) {
            Ok((v, e)) => {
                let n: usize = e - pos - 1;
                let mut scaled: u64 = v as u64;
                let mut k: usize = n;
                proof {
                    assert((k - n) as nat == 0);
                    assert(pow10(0) == 1);
                }
                while k < 9
                    invariant
                        1 <= n <= k <= 9,
                        scaled == v * pow10((k - n) as nat),
                        v < pow10(n as nat),
                    decreases 9 - k,
                {
                    proof {
                        lemma_pow_split(n as nat, (k - n) as nat);
                        lemma_pow10_monotone(k as nat, 8);
                        reveal_with_fuel(pow10, 10);
                        assert(pow10((k + 1 - n) as nat) == 10 * pow10((k - n) as nat));
                        assert(scaled < pow10(k as nat)) by (nonlinear_arith)
                            requires
                                scaled == v * pow10((k - n) as nat),
                                v < pow10(n as nat),
                                pow10(k as nat) == pow10(n as nat) * pow10((k - n) as nat),
                                pow10((k - n) as nat) > 0,
                        ;
                    }
                    scaled = scaled * 10;
                    k = k + 1;
                    proof {
                        let p = pow10((k - 1 - n) as nat);
                        assert(pow10((k - n) as nat) == 10 * p);
                        assert(v * (10 * p) == (v * p) * 10) by (nonlinear_arith);
                    }
                }
                proof {
                    lemma_pow_split(n as nat, (9 - n) as nat);
                    reveal_with_fuel(pow10, 10);
                    assert(scaled < 1_000_000_000) by (nonlinear_arith)
                        requires
                            scaled == v * pow10((9 - n) as nat),
                            v < pow10(n as nat),
                            pow10(9) == pow10(n as nat) * pow10((9 - n) as nat),
                            pow10(9) == 1_000_000_000,
                            pow10((9 - n) as nat) > 0,
                    ;
                }
                Ok((scaled as u32, e))
            },
            Err(x) => Err(x),
        }
    } else {
        Ok((0, pos))
    }
}

proof fn lemma_pow_split(a: nat, b: nat)
    ensures
        pow10(a + b) == pow10(a) * pow10(b),
        pow10(b) > 0,
    decreases b,
{
    if b > 0 {
        let b1 = (b - 1) as nat;
        lemma_pow_split(a, b1);
        let x = pow10(a);
        let y = pow10(b1);
        assert(pow10(a + b) == 10 * pow10(a + b1));
        assert(pow10(b) == 10 * y);
        assert(pow10(a + b1) == x * y);
        assert(x * (10 * y) == 10 * (x * y)) by (nonlinear_arith);
    } else {
        assert(a + b == a);
        assert(pow10(b) == 1);
    }
}

fn is_letter(c: u8, upper: u8) -> (r: bool)
    requires
        upper <= 90,
    ensures
        r == letter_is(c, upper),
{
    c == upper || c == upper + 32
}

fn read_zone(s: &[u8], pos0: usize, lenient: bool) -> (r: Result<(i32, usize), ParseError>)
    ensures
        match (r, zone_at(s@, pos0 as int, lenient)) {
            (Ok(a), Ok(b)) => a.0 as int == b.0 && a.1 as int == b.1,
            (Err(a), Err(b)) => a == b,
            _ => false,
        },
{
    let pos = if lenient { skip_spaces(s, pos0) } else { pos0 };
    if pos >= s.len() {
        return Err(ParseError::NotEnough);
    }
    let c = s[pos];
    if is_letter(c, 90) {
        Ok((0, pos + 1))
    } else if s.len() - pos > 2 && is_letter(c, 85) && is_letter(s[pos + 1], 84) && is_letter(
        s[pos + 2],
        67,
    ) {
        Ok((0, pos + 3))
    } else if c == 43 || c == 45 {
        let (hh, at1) = match read_num(s, pos + 1, 2, 2) {
            Ok(v) => v,
            Err(x) => return Err(x),
        };
        let at2 = match read_lit(s, at1, 58) {
            Ok(v) => v,
            Err(x) => return Err(x),
        };
        let (mm, at3) = match read_num(s, at2, 2, 2) {
            Ok(v) => v,
            Err(x) => return Err(x),
        };
        proof {
            reveal_with_fuel(pow10, 3);
        }
        let a: i32 = (hh * 3600 + mm * 60) as i32;
        if c == 45 {
            Ok((-a, at3))
        } else {
            Ok((a, at3))
        }
    } else {
        Err(ParseError::Invalid)
    }
}

fn read_end(s: &[u8], pos: usize, lenient: bool) -> (r: Result<(), ParseError>)
    ensures
        r == end_at(s@, pos as int, lenient),
{
    let e = if lenient { skip_spaces(s, pos) } else { pos };
    if e == s.len() {
        Ok(())
    } else {
        Err(ParseError::TooLong)
    }
}

fn read_rfc3339_date(s: &[u8], lenient: bool) -> (r: Result<(u32, u32, u32, usize), ParseError>)
    ensures
        match (r, rfc3339_date(s@, lenient)) {
            (Ok(a), Ok(b)) => a.0 as nat == b.0 && a.1 as nat == b.1 && a.2 as nat == b.2 && a.3 as int
                == b.3,
            (Err(a), Err(b)) => a == b,
            _ => false,
        },
{
    let (ymin, fmin): (usize, usize) = if lenient { (1, 1) } else { (4, 2) };
    let (y, at1) = match read_num(s, 0, ymin, 4) {
        Ok(v) => v,
        Err(x) => return Err(x),
    };
    let at2 = match read_lit(s, at1, 45) {
        Ok(v) => v,
        Err(x) => return Err(x),
    };
    let (mo, at3) = match read_num(s, at2, fmin, 2) {
        Ok(v) => v,
        Err(x) => return Err(x),
    };
    let at4 = match read_lit(s, at3, 45) {
        Ok(v) => v,
        Err(x) => return Err(x),
    };
    let (d, at5) = match read_num(s, at4, fmin, 2) {
        Ok(v) => v,
        Err(x) => return Err(x),
    };
    Ok((y, mo, d, at5))
}

fn read_rfc3339_time(s: &[u8], pos: usize, lenient: bool) -> (r: Result<(u32, u32, u32, u32, usize), ParseError>)
    ensures
        match (r, rfc3339_time(s@, pos as int, lenient)) {
            (Ok(a), Ok(b)) => a.0 as nat == b.0 && a.1 as nat == b.1 && a.2 as nat == b.2 && a.3 as nat
                == b.3 && a.4 as int == b.4,
            (Err(a), Err(b)) => a == b,
            _ => false,
        },
{
    let fmin: usize = if lenient { 1 } else { 2 };
    if pos >= s.len() {
        return Err(ParseError::TooShort);
    }
    if !(is_letter(s[pos], 84) || s[pos] == 32) {
        return Err(ParseError::Invalid);
    }
    let (h, at6) = match read_num(s, pos + 1, fmin, 2) {
        Ok(v) => v,
        Err(x) => return Err(x),
    };
    let at7 = match read_lit(s, at6, 58) {
        Ok(v) => v,
        Err(x) => return Err(x),
    };
    let (mi, at8) = match read_num(s, at7, fmin, 2) {
        Ok(v) => v,
        Err(x) => return Err(x),
    };
    let at9 = match read_lit(s, at8, 58) {
        Ok(v) => v,
        Err(x) => return Err(x),
    };
    let (sec, at10) = match read_num(s, at9, fmin, 2) {
        Ok(v) => v,
        Err(x) => return Err(x),
    };
    let (f, at11) = match read_frac(s, at10) {
        Ok(v) => v,
        Err(x) => return Err(x),
    };
    Ok((h, mi, sec, f, at11))
}

/// Reads the fields of RFC 3339 text.
pub fn read_rfc3339_fields(s: &[u8], lenient: bool) -> (r: Result<Fields, ParseError>)
    ensures
        r == rfc3339_fields(s@, lenient),
{
    let (y, mo, d, at5) = match read_rfc3339_date(s, lenient) {
        Ok(v) => v,
        Err(x) => return Err(x),
    };
    let (h, mi, sec, f, at11) = match read_rfc3339_time(s, at5, lenient) {
        Ok(v) => v,
        Err(x) => return Err(x),
    };
    let (off, at12) = match read_zone(s, at11, lenient) {
        Ok(v) => v,
        Err(x) => return Err(x),
    };
    match read_end(s, at12, lenient) {
        Ok(_) => {},
        Err(x) => return Err(x),
    }
    Ok(
        Fields {
            year: Some(y as i64),
            month: Some(mo),
            day: Some(d),
            weekday: None,
            hour: Some(h),
            minute: Some(mi),
            second: Some(sec),
            nanosecond: Some(f),
            offset: Some(off),
        },
    )
}

/// `c` in lower case, where it is an ASCII letter.
pub open spec fn lower(c: u8) -> u8 {
    if 65 <= c <= 90 {
        (c + 32) as u8
    } else {
        c
    }
}

/// Whether the three bytes from `pos` spell `a b c` (given in lower case)
/// in any case.
pub open spec fn word3_at(s: Seq<u8>, pos: int, a: u8, b: u8, c: u8) -> bool {
    0 <= pos && pos + 3 <= s.len() && lower(s[pos]) == a && lower(s[pos + 1]) == b && lower(
        s[pos + 2],
    ) == c
}

pub open spec fn is_letter_byte(c: u8) -> bool {
    (65 <= c <= 90) || (97 <= c <= 122)
}

/// Number of letters in a row from `pos`.
pub open spec fn letter_run(s: Seq<u8>, pos: int) -> nat
    decreases s.len() - pos,
{
    if pos < 0 || pos >= s.len() || !is_letter_byte(s[pos]) {
        0
    } else {
        1 + letter_run(s, pos + 1)
    }
}

/// The weekday (0 for Monday) whose English abbreviation stands at `pos`.
pub open spec fn weekday_word(s: Seq<u8>, pos: int) -> Option<u32> {
    if word3_at(s, pos, 109, 111, 110) {
        Some(0)
    } else if word3_at(s, pos, 116, 117, 101) {
        Some(1)
    } else if word3_at(s, pos, 119, 101, 100) {
        Some(2)
    } else if word3_at(s, pos, 116, 104, 117) {
        Some(3)
    } else if word3_at(s, pos, 102, 114, 105) {
        Some(4)
    } else if word3_at(s, pos, 115, 97, 116) {
        Some(5)
    } else if word3_at(s, pos, 115, 117, 110) {
        Some(6)
    } else {
        None
    }
}

/// The month (1 to 12) whose English abbreviation stands at `pos`.
pub open spec fn month_word(s: Seq<u8>, pos: int) -> Option<u32> {
    if word3_at(s, pos, 106, 97, 110) {
        Some(1)
    } else if word3_at(s, pos, 102, 101, 98) {
        Some(2)
    } else if word3_at(s, pos, 109, 97, 114) {
        Some(3)
    } else if word3_at(s, pos, 97, 112, 114) {
        Some(4)
    } else if word3_at(s, pos, 109, 97, 121) {
        Some(5)
    } else if word3_at(s, pos, 106, 117, 110) {
        Some(6)
    } else if word3_at(s, pos, 106, 117, 108) {
        Some(7)
    } else if word3_at(s, pos, 97, 117, 103) {
        Some(8)
    } else if word3_at(s, pos, 115, 101, 112) {
        Some(9)
    } else if word3_at(s, pos, 111, 99, 116) {
        Some(10)
    } else if word3_at(s, pos, 110, 111, 118) {
        Some(11)
    } else if word3_at(s, pos, 100, 101, 99) {
        Some(12)
    } else {
        None
    }
}

/// At least one space from `pos`; where the spaces end.
pub open spec fn spaces1(s: Seq<u8>, pos: int) -> Result<int, ParseError> {
    if space_run(s, pos) == 0 {
        if pos >= s.len() {
            Err(ParseError::TooShort)
        } else {
            Err(ParseError::Invalid)
        }
    } else {
        Ok(pos + space_run(s, pos))
    }
}

/// A year of two to four digits; two digits stand for 1950 to 2049, three
/// for years from 1900.
pub open spec fn full_year(v: nat, digits: int) -> nat {
    if digits == 2 {
        if v < 50 {
            v + 2000
        } else {
            v + 1900
        }
    } else if digits == 3 {
        v + 1900
    } else {
        v
    }
}

/// The optional weekday, the day, the month and the year of RFC 2822 text,
/// and where they end.
pub open spec fn rfc2822_date(s: Seq<u8>) -> Result<(Option<u32>, nat, u32, nat, int), ParseError> {
    let at0 = space_run(s, 0) as int;
    let (wd, at1): (Option<u32>, Result<int, ParseError>) = if at0 < s.len() && is_letter_byte(s[at0]) {
        match weekday_word(s, at0) {
            None => (None, Err(ParseError::Invalid)),
            Some(w) => match lit(s, at0 + 3, 44) {
                Ok(p) => (Some(w), Ok(p + space_run(s, p))),
                Err(x) => (None, Err(x)),
            },
        }
    } else {
        (None, Ok(at0))
    };
    match at1 {
        Err(x) => Err(x),
        Ok(at1) => match num(s, at1, 1, 2) {
            Err(x) => Err(x),
            Ok((d, at2)) => match spaces1(s, at2) {
                Err(x) => Err(x),
                Ok(at3) => match month_word(s, at3) {
                    None => if at3 >= s.len() {
                        Err(ParseError::TooShort)
                    } else {
                        Err(ParseError::Invalid)
                    },
                    Some(m) => match spaces1(s, at3 + 3) {
                        Err(x) => Err(x),
                        Ok(at4) => match num(s, at4, 2, 4) {
                            Err(x) => Err(x),
                            Ok((y, at5)) => Ok((wd, d, m, full_year(y, at5 - at4), at5)),
                        },
                    },
                },
            },
        },
    }
}

/// The offset a zone name of RFC 2822 gives: `UT`, `GMT`, the North
/// American zones, and the military letters (taken as zero).
pub open spec fn zone_name_offset(s: Seq<u8>, pos: int, n: int) -> Option<int> {
    if n == 1 {
        Some(0)
    } else if n == 2 && lower(s[pos]) == 117 && lower(s[pos + 1]) == 116 {
        Some(0)
    } else if n == 3 && word3_at(s, pos, 103, 109, 116) {
        Some(0)
    } else if n == 3 && word3_at(s, pos, 101, 115, 116) {
        Some(-5 * 3600)
    } else if n == 3 && word3_at(s, pos, 101, 100, 116) {
        Some(-4 * 3600)
    } else if n == 3 && word3_at(s, pos, 99, 115, 116) {
        Some(-6 * 3600)
    } else if n == 3 && word3_at(s, pos, 99, 100, 116) {
        Some(-5 * 3600)
    } else if n == 3 && word3_at(s, pos, 109, 115, 116) {
        Some(-7 * 3600)
    } else if n == 3 && word3_at(s, pos, 109, 100, 116) {
        Some(-6 * 3600)
    } else if n == 3 && word3_at(s, pos, 112, 115, 116) {
        Some(-8 * 3600)
    } else if n == 3 && word3_at(s, pos, 112, 100, 116) {
        Some(-7 * 3600)
    } else {
        None
    }
}

/// A zone of RFC 2822 text: `+hhmm`, `-hhmm` or a zone name.
pub open spec fn rfc2822_zone(s: Seq<u8>, pos: int) -> Result<(int, int), ParseError> {
    if pos < 0 || pos >= s.len() {
        Err(ParseError::NotEnough)
    } else if s[pos] == 43 || s[pos] == 45 {
        match num(s, pos + 1, 4, 4) {
            Err(x) => Err(x),
            Ok((v, e)) => {
                let a = (v / 100) * 3600 + (v % 100) * 60;
                Ok((if s[pos] == 45 { -a } else { a as int }, e))
            },
        }
    } else {
        let n = letter_run(s, pos) as int;
        match zone_name_offset(s, pos, n) {
            Some(o) => Ok((o, pos + n)),
            None => Err(ParseError::Invalid),
        }
    }
}

/// Hour, minute, optional second and offset of RFC 2822 text from `pos`.
pub open spec fn rfc2822_time(s: Seq<u8>, pos: int) -> Result<(nat, nat, nat, int), ParseError> {
    match num(s, pos, 2, 2) {
        Err(x) => Err(x),
        Ok((h, at1)) => match lit(s, at1, 58) {
            Err(x) => Err(x),
            Ok(at2) => match num(s, at2, 2, 2) {
                Err(x) => Err(x),
                Ok((mi, at3)) => {
                    let (sec, at4): (Result<nat, ParseError>, int) = if at3 < s.len() && s[at3] == 58 {
                        match num(s, at3 + 1, 2, 2) {
                            Ok((v, e)) => (Ok(v), e),
                            Err(x) => (Err(x), at3),
                        }
                    } else {
                        (Ok(0), at3)
                    };
                    match sec {
                        Err(x) => Err(x),
                        Ok(sec) => match spaces1(s, at4) {
                            Err(x) => Err(x),
                            Ok(at5) => match rfc2822_zone(s, at5) {
                                Err(x) => Err(x),
                                Ok((off, at6)) => match end_at(s, at6, true) {
                                    Err(x) => Err(x),
                                    Ok(_) => Ok((h, mi, sec, off)),
                                },
                            },
                        },
                    }
                },
            },
        },
    }
}

/// The fields of RFC 2822 text.
pub open spec fn rfc2822_fields(s: Seq<u8>) -> Result<Fields, ParseError> {
    match rfc2822_date(s) {
        Err(x) => Err(x),
        Ok((wd, d, m, y, p)) => match spaces1(s, p) {
            Err(x) => Err(x),
            Ok(at1) => match rfc2822_time(s, at1) {
                Err(x) => Err(x),
                Ok((h, mi, sec, off)) => Ok(
                    Fields {
                        year: Some(y as i64),
                        month: Some(m),
                        day: Some(d as u32),
                        weekday: wd,
                        hour: Some(h as u32),
                        minute: Some(mi as u32),
                        second: Some(sec as u32),
                        nanosecond: None,
                        offset: Some(off as i32),
                    },
                ),
            },
        },
    }
}

fn lower_byte(c: u8) -> (r: u8)
    ensures
        r == lower(c),
{
    if 65 <= c && c <= 90 {
        c + 32
    } else {
        c
    }
}

fn word3(s: &[u8], pos: usize, a: u8, b: u8, c: u8) -> (r: bool)
    ensures
        r == word3_at(s@, pos as int, a, b, c),
{
    pos <= s.len() && s.len() - pos >= 3 && lower_byte(s[pos]) == a && lower_byte(s[pos + 1]) == b
        && lower_byte(s[pos + 2]) == c
}

fn read_weekday_word(s: &[u8], pos: usize) -> (r: Option<u32>)
    ensures
        r == weekday_word(s@, pos as int),
{
    if word3(s, pos, 109, 111, 110) {
        Some(0)
    } else if word3(s, pos, 116, 117, 101) {
        Some(1)
    } else if word3(s, pos, 119, 101, 100) {
        Some(2)
    } else if word3(s, pos, 116, 104, 117) {
        Some(3)
    } else if word3(s, pos, 102, 114, 105) {
        Some(4)
    } else if word3(s, pos, 115, 97, 116) {
        Some(5)
    } else if word3(s, pos, 115, 117, 110) {
        Some(6)
    } else {
        None
    }
}

fn read_month_word(s: &[u8], pos: usize) -> (r: Option<u32>)
    ensures
        r == month_word(s@, pos as int),
{
    if word3(s, pos, 106, 97, 110) {
        Some(1)
    } else if word3(s, pos, 102, 101, 98) {
        Some(2)
    } else if word3(s, pos, 109, 97, 114) {
        Some(3)
    } else if word3(s, pos, 97, 112, 114) {
        Some(4)
    } else if word3(s, pos, 109, 97, 121) {
        Some(5)
    } else if word3(s, pos, 106, 117, 110) {
        Some(6)
    } else if word3(s, pos, 106, 117, 108) {
        Some(7)
    } else if word3(s, pos, 97, 117, 103) {
        Some(8)
    } else if word3(s, pos, 115, 101, 112) {
        Some(9)
    } else if word3(s, pos, 111, 99, 116) {
        Some(10)
    } else if word3(s, pos, 110, 111, 118) {
        Some(11)
    } else if word3(s, pos, 100, 101, 99) {
        Some(12)
    } else {
        None
    }
}

fn read_spaces1(s: &[u8], pos: usize) -> (r: Result<usize, ParseError>)
    ensures
        match (r, spaces1(s@, pos as int)) {
            (Ok(a), Ok(b)) => a as int == b,
            (Err(a), Err(b)) => a == b,
            _ => false,
        },
{
    let e = skip_spaces(s, pos);
    if e == pos {
        if pos >= s.len() {
            Err(ParseError::TooShort)
        } else {
            Err(ParseError::Invalid)
        }
    } else {
        Ok(e)
    }
}

fn skip_letters(s: &[u8], pos: usize) -> (r: usize)
    ensures
        r == pos + letter_run(s@, pos as int),
        r <= s.len() || r == pos,
{
    let mut i: usize = pos;
    while i < s.len() && ((65 <= s[i] && s[i] <= 90) || (97 <= s[i] && s[i] <= 122))
        invariant
            pos <= i,
            i <= s.len() || i == pos,
            letter_run(s@, pos as int) == (i - pos) + letter_run(s@, i as int),
        decreases s.len() - i,
    {
        i = i + 1;
    }
    i
}

#[verifier::rlimit(50)]
fn read_rfc2822_date(s: &[u8]) -> (r: Result<(Option<u32>, u32, u32, u32, usize), ParseError>)
    ensures
        match (r, rfc2822_date(s@)) {
            (Ok(a), Ok(b)) => a.0 == b.0 && a.1 as nat == b.1 && a.2 == b.2 && a.3 as nat == b.3
                && a.4 as int == b.4,
            (Err(a), Err(b)) => a == b,
            _ => false,
        },
{
    let at0 = skip_spaces(s, 0);
    let mut wd: Option<u32> = None;
    let mut at1: usize = at0;
    if at0 < s.len() && ((65 <= s[at0] && s[at0] <= 90) || (97 <= s[at0] && s[at0] <= 122)) {
        match read_weekday_word(s, at0) {
            None => return Err(ParseError::Invalid),
            Some(w) => {
                let p = match read_lit(s, at0 + 3, 44) {
                    Ok(v) => v,
                    Err(x) => return Err(x),
                };
                wd = Some(w);
                at1 = skip_spaces(s, p);
            },
        }
    }
    let (d, at2) = match read_num(s, at1, 1, 2) {
        Ok(v) => v,
        Err(x) => return Err(x),
    };
    let at3 = match read_spaces1(s, at2) {
        Ok(v) => v,
        Err(x) => return Err(x),
    };
    let m = match read_month_word(s, at3) {
        Some(m) => m,
        None => return if at3 >= s.len() {
            Err(ParseError::TooShort)
        } else {
            Err(ParseError::Invalid)
        },
    };
    let at4 = match read_spaces1(s, at3 + 3) {
        Ok(v) => v,
        Err(x) => return Err(x),
    };
    let (y, at5) = match read_num(s, at4, 2, 4) {
        Ok(v) => v,
        Err(x) => return Err(x),
    };
    proof {
        reveal_with_fuel(pow10, 5);
    }
    let digits = at5 - at4;
    let year: u32 = if digits == 2 {
        if y < 50 {
            y + 2000
        } else {
            y + 1900
        }
    } else if digits == 3 {
        y + 1900
    } else {
        y
    };
    Ok((wd, d, m, year, at5))
}

fn read_rfc2822_zone(s: &[u8], pos: usize) -> (r: Result<(i32, usize), ParseError>)
    ensures
        match (r, rfc2822_zone(s@, pos as int)) {
            (Ok(a), Ok(b)) => a.0 as int == b.0 && a.1 as int == b.1,
            (Err(a), Err(b)) => a == b,
            _ => false,
        },
{
    if pos >= s.len() {
        return Err(ParseError::NotEnough);
    }
    let c = s[pos];
    if c == 43 || c == 45 {
        let (v, e) = match read_num(s, pos + 1, 4, 4) {
            Ok(v) => v,
            Err(x) => return Err(x),
        };
        proof {
            reveal_with_fuel(pow10, 5);
        }
        let a: i32 = ((v / 100) * 3600 + (v % 100) * 60) as i32;
        if c == 45 {
            Ok((-a, e))
        } else {
            Ok((a, e))
        }
    } else {
        let e = skip_letters(s, pos);
        let n = e - pos;
        let o: Option<i32> = if n == 1 {
            Some(0)
        } else if n == 2 && lower_byte(s[pos]) == 117 && lower_byte(s[pos + 1]) == 116 {
            Some(0)
        } else if n == 3 && word3(s, pos, 103, 109, 116) {
            Some(0)
        } else if n == 3 && word3(s, pos, 101, 115, 116) {
            Some(-5 * 3600)
        } else if n == 3 && word3(s, pos, 101, 100, 116) {
            Some(-4 * 3600)
        } else if n == 3 && word3(s, pos, 99, 115, 116) {
            Some(-6 * 3600)
        } else if n == 3 && word3(s, pos, 99, 100, 116) {
            Some(-5 * 3600)
        } else if n == 3 && word3(s, pos, 109, 115, 116) {
            Some(-7 * 3600)
        } else if n == 3 && word3(s, pos, 109, 100, 116) {
            Some(-6 * 3600)
        } else if n == 3 && word3(s, pos, 112, 115, 116) {
            Some(-8 * 3600)
        } else if n == 3 && word3(s, pos, 112, 100, 116) {
            Some(-7 * 3600)
        } else {
            None
        };
        match o {
            Some(o) => Ok((o, e)),
            None => Err(ParseError::Invalid),
        }
    }
}

#[verifier::rlimit(50)]
fn read_rfc2822_time(s: &[u8], pos: usize) -> (r: Result<(u32, u32, u32, i32), ParseError>)
    ensures
        match (r, rfc2822_time(s@, pos as int)) {
            (Ok(a), Ok(b)) => a.0 as nat == b.0 && a.1 as nat == b.1 && a.2 as nat == b.2 && a.3 as int
                == b.3,
            (Err(a), Err(b)) => a == b,
            _ => false,
        },
{
    let (h, at1) = match read_num(s, pos, 2, 2) {
        Ok(v) => v,
        Err(x) => return Err(x),
    };
    let at2 = match read_lit(s, at1, 58) {
        Ok(v) => v,
        Err(x) => return Err(x),
    };
    let (mi, at3) = match read_num(s, at2, 2, 2) {
        Ok(v) => v,
        Err(x) => return Err(x),
    };
    let (sec, at4): (u32, usize) = if at3 < s.len() && s[at3] == 58 {
        match read_num(s, at3 + 1, 2, 2) {
            Ok(v) => v,
            Err(x) => return Err(x),
        }
    } else {
        (0, at3)
    };
    let at5 = match read_spaces1(s, at4) {
        Ok(v) => v,
        Err(x) => return Err(x),
    };
    let (off, at6) = match read_rfc2822_zone(s, at5) {
        Ok(v) => v,
        Err(x) => return Err(x),
    };
    match read_end(s, at6, true) {
        Ok(_) => {},
        Err(x) => return Err(x),
    }
    Ok((h, mi, sec, off))
}

/// Reads the fields of RFC 2822 text.
pub fn read_rfc2822_fields(s: &[u8]) -> (r: Result<Fields, ParseError>)
    ensures
        r == rfc2822_fields(s@),
{
    let (wd, d, m, y, p) = match read_rfc2822_date(s) {
        Ok(v) => v,
        Err(x) => return Err(x),
    };
    let at1 = match read_spaces1(s, p) {
        Ok(v) => v,
        Err(x) => return Err(x),
    };
    let (h, mi, sec, off) = match read_rfc2822_time(s, at1) {
        Ok(v) => v,
        Err(x) => return Err(x),
    };
    Ok(
        Fields {
            year: Some(y as i64),
            month: Some(m),
            day: Some(d),
            weekday: wd,
            hour: Some(h),
            minute: Some(mi),
            second: Some(sec),
            nanosecond: None,
            offset: Some(off),
        },
    )
}

/// An offset written `+hhmm` or `+hh:mm`, and where it ends.
pub open spec fn offset_at(s: Seq<u8>, pos: int) -> Result<(int, int), ParseError> {
    if pos < 0 || pos >= s.len() {
        Err(ParseError::TooShort)
    } else if s[pos] == 43 || s[pos] == 45 {
        match num(s, pos + 1, 2, 2) {
            Err(x) => Err(x),
            Ok((hh, at1)) => {
                let at2 = if at1 < s.len() && s[at1] == 58 { at1 + 1 } else { at1 };
                match num(s, at2, 2, 2) {
                    Err(x) => Err(x),
                    Ok((mm, at3)) => {
                        let a = hh * 3600 + mm * 60;
                        Ok((if s[pos] == 45 { -a } else { a as int }, at3))
                    },
                }
            },
        }
    } else {
        Err(ParseError::Invalid)
    }
}

/// A word of three letters read by `word`, and where it ends.
pub open spec fn word_field(s: Seq<u8>, pos: int, word: Option<u32>) -> Result<(u32, int), ParseError> {
    match word {
        Some(w) => Ok((w, pos + 3)),
        None => if pos >= s.len() {
            Err(ParseError::TooShort)
        } else {
            Err(ParseError::Invalid)
        },
    }
}

/// One step of reading text `s` against format `fmt`: the directive or byte
/// of `fmt` at `fi` read from `s` at `si`. Where both go on, and the fields.
pub open spec fn scan_step(fmt: Seq<u8>, s: Seq<u8>, fi: int, si: int, acc: Fields) -> Result<
    (int, int, Fields),
    ParseError,
> {
    let c = fmt[fi];
    if c == 37 {
        if fi + 1 >= fmt.len() {
            Err(ParseError::BadFormat)
        } else {
            let d = fmt[fi + 1];
            if d == 89 {
                match num(s, si, 1, 4) {
                    Ok((v, e)) => Ok((fi + 2, e, Fields { year: Some(v as i64), ..acc })),
                    Err(x) => Err(x),
                }
            } else if d == 109 {
                match num(s, si, 1, 2) {
                    Ok((v, e)) => Ok((fi + 2, e, Fields { month: Some(v as u32), ..acc })),
                    Err(x) => Err(x),
                }
            } else if d == 100 {
                match num(s, si, 1, 2) {
                    Ok((v, e)) => Ok((fi + 2, e, Fields { day: Some(v as u32), ..acc })),
                    Err(x) => Err(x),
                }
            } else if d == 72 {
                match num(s, si, 1, 2) {
                    Ok((v, e)) => Ok((fi + 2, e, Fields { hour: Some(v as u32), ..acc })),
                    Err(x) => Err(x),
                }
            } else if d == 77 {
                match num(s, si, 1, 2) {
                    Ok((v, e)) => Ok((fi + 2, e, Fields { minute: Some(v as u32), ..acc })),
                    Err(x) => Err(x),
                }
            } else if d == 83 {
                match num(s, si, 1, 2) {
                    Ok((v, e)) => Ok((fi + 2, e, Fields { second: Some(v as u32), ..acc })),
                    Err(x) => Err(x),
                }
            } else if d == 122 {
                match offset_at(s, si) {
                    Ok((o, e)) => Ok((fi + 2, e, Fields { offset: Some(o as i32), ..acc })),
                    Err(x) => Err(x),
                }
            } else if d == 97 {
                match word_field(s, si, weekday_word(s, si)) {
                    Ok((w, e)) => Ok((fi + 2, e, Fields { weekday: Some(w), ..acc })),
                    Err(x) => Err(x),
                }
            } else if d == 98 {
                match word_field(s, si, month_word(s, si)) {
                    Ok((m, e)) => Ok((fi + 2, e, Fields { month: Some(m), ..acc })),
                    Err(x) => Err(x),
                }
            } else if d == 37 {
                match lit(s, si, 37) {
                    Ok(e) => Ok((fi + 2, e, acc)),
                    Err(x) => Err(x),
                }
            } else {
                Err(ParseError::BadFormat)
            }
        }
    } else if c == 32 {
        Ok((fi + 1, si + space_run(s, si), acc))
    } else {
        match lit(s, si, c) {
            Ok(e) => Ok((fi + 1, e, acc)),
            Err(x) => Err(x),
        }
    }
}

/// The fields of text `s` read against format `fmt` from `fi` and `si` on,
/// with `acc` read so far. A space in the format matches any run of spaces;
/// `%Y %m %d %H %M %S %z %a %b %%` read fields; other bytes stand for
/// themselves.
pub open spec fn scan(fmt: Seq<u8>, s: Seq<u8>, fi: int, si: int, acc: Fields) -> Result<
    Fields,
    ParseError,
>
    decreases fmt.len() - fi,
{
    if fi < 0 || fi >= fmt.len() {
        if si == s.len() {
            Ok(acc)
        } else {
            Err(ParseError::TooLong)
        }
    } else {
        match scan_step(fmt, s, fi, si, acc) {
            Err(x) => Err(x),
            Ok((fi2, si2, acc2)) => if fi2 > fi {
                scan(fmt, s, fi2, si2, acc2)
            } else {
                Err(ParseError::Invalid)
            },
        }
    }
}

fn read_offset(s: &[u8], pos: usize) -> (r: Result<(i32, usize), ParseError>)
    ensures
        match (r, offset_at(s@, pos as int)) {
            (Ok(a), Ok(b)) => a.0 as int == b.0 && a.1 as int == b.1,
            (Err(a), Err(b)) => a == b,
            _ => false,
        },
{
    if pos >= s.len() {
        return Err(ParseError::TooShort);
    }
    let c = s[pos];
    if c == 43 || c == 45 {
        let (hh, at1) = match read_num(s, pos + 1, 2, 2) {
            Ok(v) => v,
            Err(x) => return Err(x),
        };
        let at2 = if at1 < s.len() && s[at1] == 58 { at1 + 1 } else { at1 };
        let (mm, at3) = match read_num(s, at2, 2, 2) {
            Ok(v) => v,
            Err(x) => return Err(x),
        };
        proof {
            reveal_with_fuel(pow10, 3);
        }
        let a: i32 = (hh * 3600 + mm * 60) as i32;
        if c == 45 {
            Ok((-a, at3))
        } else {
            Ok((a, at3))
        }
    } else {
        Err(ParseError::Invalid)
    }
}

fn read_word(s: &[u8], pos: usize, word: Option<u32>) -> (r: Result<(u32, usize), ParseError>)
    requires
        word is Some ==> pos + 3 <= s.len(),
    ensures
        match (r, word_field(s@, pos as int, word)) {
            (Ok(a), Ok(b)) => a.0 == b.0 && a.1 as int == b.1,
            (Err(a), Err(b)) => a == b,
            _ => false,
        },
{
    match word {
        Some(w) => Ok((w, pos + 3)),
        None => if pos >= s.len() {
            Err(ParseError::TooShort)
        } else {
            Err(ParseError::Invalid)
        },
    }
}

#[verifier::rlimit(80)]
fn read_scan_step(fmt: &[u8], s: &[u8], fi: usize, si: usize, acc: Fields) -> (r: Result<
    (usize, usize, Fields),
    ParseError,
>)
    requires
        fi < fmt@.len(),
    ensures
        match (r, scan_step(fmt@, s@, fi as int, si as int, acc)) {
            (Ok(a), Ok(b)) => a.0 as int == b.0 && a.1 as int == b.1 && a.2 == b.2,
            (Err(a), Err(b)) => a == b,
            _ => false,
        },
        r matches Ok(a) ==> a.0 > fi,
{
    let c = fmt[fi];
    if c == 37 {
        if fi + 1 >= fmt.len() {
            return Err(ParseError::BadFormat);
        }
        let d = fmt[fi + 1];
        if d == 89 || d == 109 || d == 100 || d == 72 || d == 77 || d == 83 {
            let max: usize = if d == 89 { 4 } else { 2 };
            let (v, e) = match read_num(s, si, 1, max) {
                Ok(v) => v,
                Err(x) => return Err(x),
            };
            let f = if d == 89 {
                Fields { year: Some(v as i64), ..acc }
            } else if d == 109 {
                Fields { month: Some(v), ..acc }
            } else if d == 100 {
                Fields { day: Some(v), ..acc }
            } else if d == 72 {
                Fields { hour: Some(v), ..acc }
            } else if d == 77 {
                Fields { minute: Some(v), ..acc }
            } else {
                Fields { second: Some(v), ..acc }
            };
            Ok((fi + 2, e, f))
        } else if d == 122 {
            match read_offset(s, si) {
                Ok((o, e)) => Ok((fi + 2, e, Fields { offset: Some(o), ..acc })),
                Err(x) => Err(x),
            }
        } else if d == 97 {
            match read_word(s, si, read_weekday_word(s, si)) {
                Ok((w, e)) => Ok((fi + 2, e, Fields { weekday: Some(w), ..acc })),
                Err(x) => Err(x),
            }
        } else if d == 98 {
            match read_word(s, si, read_month_word(s, si)) {
                Ok((m, e)) => Ok((fi + 2, e, Fields { month: Some(m), ..acc })),
                Err(x) => Err(x),
            }
        } else if d == 37 {
            match read_lit(s, si, 37) {
                Ok(e) => Ok((fi + 2, e, acc)),
                Err(x) => Err(x),
            }
        } else {
            Err(ParseError::BadFormat)
        }
    } else if c == 32 {
        Ok((fi + 1, skip_spaces(s, si), acc))
    } else {
        match read_lit(s, si, c) {
            Ok(e) => Ok((fi + 1, e, acc)),
            Err(x) => Err(x),
        }
    }
}

/// Reads the fields of text `s` against format `fmt`.
pub fn read_format_fields(s: &[u8], fmt: &[u8]) -> (r: Result<Fields, ParseError>)
    ensures
        r == scan(fmt@, s@, 0, 0, no_fields()),
{
    let mut fi: usize = 0;
    let mut si: usize = 0;
    let mut acc = Fields {
        year: None,
        month: None,
        day: None,
        weekday: None,
        hour: None,
        minute: None,
        second: None,
        nanosecond: None,
        offset: None,
    };
    while fi < fmt.len()
        invariant
            fi <= fmt@.len(),
            scan(fmt@, s@, fi as int, si as int, acc) == scan(fmt@, s@, 0, 0, no_fields()),
        decreases fmt@.len() - fi,
    {
        match read_scan_step(fmt, s, fi, si, acc) {
            Ok((a, b, c)) => {
                fi = a;
                si = b;
                acc = c;
            },
            Err(x) => return Err(x),
        }
    }
    if si == s.len() {
        Ok(acc)
    } else {
        Err(ParseError::TooLong)
    }
}

/// The wall-clock reading the fields give, or why they give none. A
/// missing second or fraction counts as zero; second 60 is a leap second.
pub open spec fn fields_local(f: Fields) -> Result<(int, int, int), ParseError> {
    if f.year is None || f.month is None || f.day is None || f.hour is None || f.minute is None {
        Err(ParseError::NotEnough)
    } else {
        let y = f.year->Some_0 as int;
        let mo = f.month->Some_0 as int;
        let d = f.day->Some_0 as int;
        let h = f.hour->Some_0 as int;
        let mi = f.minute->Some_0 as int;
        let sec: int = match f.second {
            Some(x) => x as int,
            None => 0,
        };
        let nano: int = match f.nanosecond {
            Some(x) => x as int,
            None => 0,
        };
        if !valid_ymd(y, mo, d) || h >= 24 || mi >= 60 || sec > 60 || nano >= 1_000_000_000 {
            Err(ParseError::OutOfRange)
        } else if f.weekday matches Some(w) && w != weekday_of(day_number(y, mo, d)) {
            Err(ParseError::Impossible)
        } else if sec == 60 {
            Ok((day_number(y, mo, d), h * 3600 + mi * 60 + 59, nano + 1_000_000_000))
        } else {
            Ok((day_number(y, mo, d), h * 3600 + mi * 60 + sec, nano))
        }
    }
}

/// The instant the fields give, as its UTC reading and offset; `default`
/// stands in for a missing offset.
pub open spec fn fields_instant(f: Fields, default: Option<int>) -> Result<((int, int, int), int), ParseError> {
    match fields_local(f) {
        Err(x) => Err(x),
        Ok(l) => {
            let off: Option<int> = match f.offset {
                Some(o) => Some(o as int),
                None => default,
            };
            match off {
                None => Err(ParseError::NotEnough),
                Some(o) => if !offset_valid(o) || !date_in_range(utc_of(l, o).0) {
                    Err(ParseError::OutOfRange)
                } else {
                    Ok((utc_of(l, o), o))
                },
            }
        },
    }
}

/// Whether `r` is the instant `spec` describes, or the same error.
pub open spec fn parsed_as<Tz: TimeZone>(
    r: Result<DateTime<Tz>, ParseError>,
    spec: Result<((int, int, int), int), ParseError>,
) -> bool {
    match (r, spec) {
        (Ok(dt), Ok((u, o))) => dt@ == u && dt.spec_offset() == o,
        (Err(a), Err(b)) => a == b,
        _ => false,
    }
}

/// The instant the fields give, at the offset they hold or at `default`.
pub fn fields_to_datetime(f: &Fields, default: Option<i32>) -> (r: Result<DateTime<FixedOffset>, ParseError>)
    ensures
        parsed_as(
            r,
            fields_instant(
                *f,
                match default {
                    Some(o) => Some(o as int),
                    None => None,
                },
            ),
        ),
        r matches Ok(dt) ==> dt.spec_tz()@ == dt.spec_offset(),
{
    let (y, mo, d, h, mi) = match (f.year, f.month, f.day, f.hour, f.minute) {
        (Some(y), Some(mo), Some(d), Some(h), Some(mi)) => (y, mo, d, h, mi),
        _ => return Err(ParseError::NotEnough),
    };
    let sec: u32 = match f.second {
        Some(x) => x,
        None => 0,
    };
    let nano: u32 = match f.nanosecond {
        Some(x) => x,
        None => 0,
    };
    if y < -262144 || y > MAX_YEAR as i64 {
        return Err(ParseError::OutOfRange);
    }
    let date = match NaiveDate::from_ymd_opt(y as i32, mo, d) {
        Some(v) => v,
        None => return Err(ParseError::OutOfRange),
    };
    if h >= 24 || mi >= 60 || sec > 60 || nano >= 1_000_000_000 {
        return Err(ParseError::OutOfRange);
    }
    match f.weekday {
        Some(w) => {
            if w != date.weekday() {
                return Err(ParseError::Impossible);
            }
        },
        None => {},
    }
    let time = if sec == 60 {
        NaiveTime::from_hms_nano_opt(h, mi, 59, nano + 1_000_000_000)
    } else {
        NaiveTime::from_hms_nano_opt(h, mi, sec, nano)
    };
    let time = match time {
        Some(t) => t,
        None => return Err(ParseError::OutOfRange),
    };
    let local = date.and_time(time);
    let off: i32 = match f.offset {
        Some(o) => o,
        None => match default {
            Some(o) => o,
            None => return Err(ParseError::NotEnough),
        },
    };
    let offset = match FixedOffset::east_opt(off) {
        Some(o) => o,
        None => return Err(ParseError::OutOfRange),
    };
    match local.checked_add_secs_keep_frac(-(off as i64)) {
        Some(_) => Ok(DateTime::from_local(local, offset)),
        None => Err(ParseError::OutOfRange),
    }
}

impl DateTime<FixedOffset> {
    /// Reads RFC 3339 text: `YYYY-MM-DDThh:mm:ss`, a fraction of up to nine
    /// digits, and `Z` or `+hh:mm`.
    pub fn parse_from_rfc3339(s: &str) -> (r: Result<DateTime<FixedOffset>, ParseError>)
        ensures
            parsed_as(
                r,
                match rfc3339_fields(s.spec_bytes(), false) {
                    Ok(f) => fields_instant(f, None),
                    Err(x) => Err(x),
                },
            ),
    {
        match read_rfc3339_fields(s.as_bytes(), false) {
            Ok(f) => fields_to_datetime(&f, None),
            Err(x) => Err(x),
        }
    }

    /// Reads RFC 3339 text leniently: fields may have fewer digits, and
    /// the zone may be `UTC` with spaces around it.
    pub fn parse_lenient(s: &str) -> (r: Result<DateTime<FixedOffset>, ParseError>)
        ensures
            parsed_as(
                r,
                match rfc3339_fields(s.spec_bytes(), true) {
                    Ok(f) => fields_instant(f, None),
                    Err(x) => Err(x),
                },
            ),
    {
        match read_rfc3339_fields(s.as_bytes(), true) {
            Ok(f) => fields_to_datetime(&f, None),
            Err(x) => Err(x),
        }
    }
}

impl DateTime<FixedOffset> {
    /// Reads RFC 2822 text: an optional weekday, day, month name, year,
    /// `hh:mm[:ss]` and a numeric or named zone. Second 60 is a leap second.
    pub fn parse_from_rfc2822(s: &str) -> (r: Result<DateTime<FixedOffset>, ParseError>)
        ensures
            parsed_as(
                r,
                match rfc2822_fields(s.spec_bytes()) {
                    Ok(f) => fields_instant(f, None),
                    Err(x) => Err(x),
                },
            ),
    {
        match read_rfc2822_fields(s.as_bytes()) {
            Ok(f) => fields_to_datetime(&f, None),
            Err(x) => Err(x),
        }
    }
}

impl DateTime<FixedOffset> {
    /// Reads text against a format of directives; the text must give an
    /// offset.
    pub fn parse_from_str(s: &str, fmt: &str) -> (r: Result<DateTime<FixedOffset>, ParseError>)
        ensures
            parsed_as(
                r,
                match scan(fmt.spec_bytes(), s.spec_bytes(), 0, 0, no_fields()) {
                    Ok(f) => fields_instant(f, None),
                    Err(x) => Err(x),
                },
            ),
    {
        match read_format_fields(s.as_bytes(), fmt.as_bytes()) {
            Ok(f) => fields_to_datetime(&f, None),
            Err(x) => Err(x),
        }
    }
}

impl Utc {
    /// Reads text against a format of directives as a UTC instant; an offset
    /// the text gives must be zero.
    pub fn datetime_from_str(&self, s: &str, fmt: &str) -> (r: Result<DateTime<Utc>, ParseError>)
        ensures
            match scan(fmt.spec_bytes(), s.spec_bytes(), 0, 0, no_fields()) {
                Err(x) => r == Err::<DateTime<Utc>, ParseError>(x),
                Ok(f) => if f.offset matches Some(o) && o != 0 {
                    r == Err::<DateTime<Utc>, ParseError>(ParseError::Impossible)
                } else {
                    match (r, fields_instant(f, Some(0))) {
                        (Ok(dt), Ok((u, _o))) => dt@ == u,
                        (Err(a), Err(b)) => a == b,
                        _ => false,
                    }
                },
            },
    {
        match read_format_fields(s.as_bytes(), fmt.as_bytes()) {
            Ok(f) => {
                match f.offset {
                    Some(o) => {
                        if o != 0 {
                            return Err(ParseError::Impossible);
                        }
                    },
                    None => {},
                }
                match fields_to_datetime(&f, Some(0)) {
                    Ok(dt) => Ok(dt.to_utc()),
                    Err(x) => Err(x),
                }
            },
            Err(x) => Err(x),
        }
    }
}

impl core::str::FromStr for DateTime<FixedOffset> {
    type Err = ParseError;

    fn from_str(s: &str) -> Result<DateTime<FixedOffset>, ParseError> {
        DateTime::<FixedOffset>::parse_lenient(s)
    }
}

impl DateTime<Utc> {
    /// Reads RFC 3339 text leniently and gives the instant in UTC.
    pub fn parse_lenient(s: &str) -> (r: Result<DateTime<Utc>, ParseError>)
        ensures
            match (
                r,
                match rfc3339_fields(s.spec_bytes(), true) {
                    Ok(f) => fields_instant(f, None),
                    Err(x) => Err(x),
                },
            ) {
                (Ok(dt), Ok((u, _o))) => dt@ == u,
                (Err(a), Err(b)) => a == b,
                _ => false,
            },
    {
        match DateTime::<FixedOffset>::parse_lenient(s) {
            Ok(dt) => Ok(dt.to_utc()),
            Err(x) => Err(x),
        }
    }
}

impl core::str::FromStr for DateTime<Utc> {
    type Err = ParseError;

    fn from_str(s: &str) -> Result<DateTime<Utc>, ParseError> {
        DateTime::<Utc>::parse_lenient(s)
    }
}

/// `dec(n, w)` is `w` digits when `n` has at most `w` digits.
proof fn lemma_dec_digits(n: nat, w: nat)
    requires
        1 <= w,
        n < pow10(w),
    ensures
        dec(n, w).len() == w,
        forall|i: int| 0 <= i && i < w ==> is_digit(#[trigger] dec(n, w)[i]),
    decreases w,
{
    if w == 1 {
        assert(pow10(1) == 10 * pow10(0));
    } else {
        let w1 = (w - 1) as nat;
        assert(pow10(w) == 10 * pow10(w1));
        assert(n / 10 < pow10(w1)) by (nonlinear_arith)
            requires
                n < 10 * pow10(w1),
        ;
        lemma_dec_digits(n / 10, w1);
        let t = dec(n / 10, w1);
        assert(dec(n, w) == t + seq![digit((n % 10) as int)]);
        assert forall|i: int| 0 <= i && i < w implies is_digit(#[trigger] dec(n, w)[i]) by {
            if i < w1 {
                assert(dec(n, w)[i] == t[i]);
            }
        }
    }
}

/// Reading `w` digits where `dec(n, w)` stands gives `n`.
proof fn lemma_value_dec(s: Seq<u8>, pos: int, n: nat, w: nat)
    requires
        1 <= w,
        n < pow10(w),
        0 <= pos,
        pos + w <= s.len(),
        s.subrange(pos, pos + w) == dec(n, w),
    ensures
        digits_value(s, pos, w) == n,
    decreases w,
{
    lemma_dec_digits(n, w);
    let w1 = (w - 1) as nat;
    let last = s[pos + w - 1];
    assert(last == s.subrange(pos, pos + w)[w - 1]);
    if w == 1 {
        assert(pow10(1) == 10 * pow10(0));
        assert(n < 10);
        assert(dec(n, w) == seq![digit(n as int)]);
        assert(digits_value(s, pos, w) == digits_value(s, pos, 0) * 10 + (last - 48) as nat);
    } else {
        assert(pow10(w) == 10 * pow10(w1));
        assert(n / 10 < pow10(w1)) by (nonlinear_arith)
            requires
                n < 10 * pow10(w1),
        ;
        let t = dec(n / 10, w1);
        assert(dec(n, w) == t + seq![digit((n % 10) as int)]);
        lemma_dec_digits(n / 10, w1);
        assert(s.subrange(pos, pos + w1) =~= t) by {
            assert forall|i: int| 0 <= i && i < w1 implies s.subrange(pos, pos + w1)[i] == t[i] by {
                assert(s.subrange(pos, pos + w1)[i] == s.subrange(pos, pos + w)[i]);
            }
        }
        lemma_value_dec(s, pos, n / 10, w1);
        assert(last == digit((n % 10) as int));
        assert(n == (n / 10) * 10 + n % 10) by (nonlinear_arith);
    }
}

/// Digits on all of `[pos, pos + w)` make a run of `w`.
proof fn lemma_run_dec(s: Seq<u8>, pos: int, n: nat, w: nat)
    requires
        1 <= w,
        n < pow10(w),
        0 <= pos,
        pos + w <= s.len(),
        s.subrange(pos, pos + w) == dec(n, w),
    ensures
        digit_run(s, pos, w) == w,
{
    lemma_dec_digits(n, w);
    assert forall|i: int| pos <= i && i < pos + w implies is_digit(#[trigger] s[i]) by {
        assert(s[i] == s.subrange(pos, pos + w)[i - pos]);
    }
    lemma_run_all(s, pos, w);
}

proof fn lemma_run_all(s: Seq<u8>, pos: int, w: nat)
    requires
        0 <= pos,
        pos + w <= s.len(),
        forall|i: int| pos <= i && i < pos + w ==> is_digit(#[trigger] s[i]),
    ensures
        digit_run(s, pos, w) == w,
    decreases w,
{
    if w > 0 {
        assert(is_digit(s[pos]));
        assert forall|i: int| pos + 1 <= i && i < pos + 1 + (w - 1) as nat implies is_digit(
            #[trigger] s[i],
        ) by {
            assert(pos <= i && i < pos + w);
        }
        lemma_run_all(s, pos + 1, (w - 1) as nat);
    }
}

/// A run of `w` digits followed by a non-digit, with room for more.
proof fn lemma_run_stop(s: Seq<u8>, pos: int, w: nat, max: nat)
    requires
        w < max,
        0 <= pos,
        pos + w <= s.len(),
        forall|i: int| pos <= i && i < pos + w ==> is_digit(#[trigger] s[i]),
        pos + w == s.len() || !is_digit(s[pos + w]),
    ensures
        digit_run(s, pos, max) == w,
    decreases w,
{
    if w > 0 {
        assert(is_digit(s[pos]));
        assert forall|i: int| pos + 1 <= i && i < pos + 1 + (w - 1) as nat implies is_digit(
            #[trigger] s[i],
        ) by {
            assert(pos <= i && i < pos + w);
        }
        lemma_run_stop(s, pos + 1, (w - 1) as nat, (max - 1) as nat);
    }
}

/// Where `dec(n, w)` stands before a non-digit, a number of `min` to `max`
/// digits reads as `n`.
proof fn lemma_num_dec_stop(s: Seq<u8>, pos: int, n: nat, w: nat, min: nat, max: nat)
    requires
        1 <= w < max,
        min <= w,
        n < pow10(w),
        0 <= pos,
        pos + w < s.len(),
        !is_digit(s[pos + w]),
        s.subrange(pos, pos + w) == dec(n, w),
    ensures
        num(s, pos, min, max) == Ok::<(nat, int), ParseError>((n, pos + w)),
{
    lemma_dec_digits(n, w);
    assert forall|i: int| pos <= i && i < pos + w implies is_digit(#[trigger] s[i]) by {
        assert(s[i] == s.subrange(pos, pos + w)[i - pos]);
    }
    lemma_run_stop(s, pos, w, max);
    lemma_value_dec(s, pos, n, w);
}

/// Where `dec(n, w)` stands, a number of `min` to `w` digits reads as `n`.
pub proof fn lemma_num_dec(s: Seq<u8>, pos: int, n: nat, w: nat, min: nat)
    requires
        1 <= w,
        min <= w,
        n < pow10(w),
        0 <= pos,
        pos + w <= s.len(),
        s.subrange(pos, pos + w) == dec(n, w),
    ensures
        num(s, pos, min, w) == Ok::<(nat, int), ParseError>((n, pos + w)),
{
    lemma_run_dec(s, pos, n, w);
    lemma_value_dec(s, pos, n, w);
}

/// Hours, minutes and seconds of a time of day written as such.
proof fn lemma_hms_split(h: int, mi: int, sec: int)
    requires
        0 <= h < 24,
        0 <= mi < 60,
        0 <= sec < 60,
    ensures
        (h * 3600 + mi * 60 + sec) / 3600 == h,
        ((h * 3600 + mi * 60 + sec) / 60) % 60 == mi,
        (h * 3600 + mi * 60 + sec) % 60 == sec,
{
    let t = h * 3600 + mi * 60 + sec;
    lemma_fundamental_div_mod_converse(t, 3600, h, mi * 60 + sec);
    lemma_fundamental_div_mod_converse(t, 60, h * 60 + mi, sec);
    lemma_fundamental_div_mod_converse(h * 60 + mi, 60, h, mi);
}

/// An offset of whole minutes is its hours and minutes.
proof fn lemma_offset_split(a: int)
    requires
        0 <= a < 86400,
        a % 60 == 0,
    ensures
        (a / 3600) * 3600 + ((a / 60) % 60) * 60 == a,
        0 <= a / 3600 < 24,
        0 <= (a / 60) % 60 < 60,
{
    lemma_fundamental_div_mod(a, 60);
    let q = a / 60;
    lemma_fundamental_div_mod(q, 60);
    lemma_fundamental_div_mod_converse(a, 3600, q / 60, 60 * (q % 60));
}

/// Every offset text of RFC 3339 reads back as its offset.
proof fn lemma_zone_round_trip(s: Seq<u8>, pos: int, o: int, use_z: bool)
    requires
        -86400 < o < 86400,
        o % 60 == 0,
        0 <= pos < s.len(),
        s.subrange(pos, s.len() as int) == (if use_z && o == 0 {
            seq!['Z' as u8]
        } else {
            offset_text(o, true)
        }),
    ensures
        zone_at(s, pos, false) == Ok::<(int, int), ParseError>((o, s.len() as int)),
{
    let z = s.subrange(pos, s.len() as int);
    assert(s[pos] == z[0]);
    if use_z && o == 0 {
    } else {
        let a = if o < 0 { -o } else { o };
        lemma_offset_split(a);
        reveal_with_fuel(pow10, 3);
        let hh = (a / 3600) as nat;
        let mm = ((a / 60) % 60) as nat;
        lemma_dec_digits(hh, 2);
        lemma_dec_digits(mm, 2);
        assert(z.len() == 6);
        assert(z.subrange(1, 3) =~= dec(hh, 2));
        assert(z.subrange(4, 6) =~= dec(mm, 2));
        assert(s[pos + 3] == z[3]);
        lemma_num_in(s, pos, z, 1, hh, 2, 2);
        lemma_num_in(s, pos, z, 4, mm, 2, 2);
    }
}

/// Where `d` stands at `pos`, a number of `min` to `w` digits reads as `n`.
proof fn lemma_num_in(s: Seq<u8>, start: int, part: Seq<u8>, off: int, n: nat, w: nat, min: nat)
    requires
        1 <= w,
        min <= w,
        n < pow10(w),
        0 <= start,
        start + part.len() <= s.len(),
        s.subrange(start, start + part.len()) == part,
        0 <= off,
        off + w <= part.len(),
        part.subrange(off, off + w) == dec(n, w),
    ensures
        num(s, start + off, min, w) == Ok::<(nat, int), ParseError>((n, start + off + w)),
{
    assert(s.subrange(start + off, start + off + w) =~= dec(n, w)) by {
        assert forall|i: int| 0 <= i && i < w implies s.subrange(start + off, start + off + w)[i]
            == dec(n, w)[i] by {
            assert(s[start + off + i] == part[off + i]);
            assert(part[off + i] == part.subrange(off, off + w)[i]);
        }
    }
    lemma_num_dec(s, start + off, n, w, min);
}

/// The date of RFC 3339 text written from valid fields reads back.
#[verifier::rlimit(60)]
proof fn lemma_rfc3339_date_read(t: Seq<u8>, y: nat, m: nat, d: nat)
    requires
        y < 10000,
        m < 100,
        d < 100,
        t.len() >= 10,
        t.subrange(0, 10) == dec(y, 4) + seq!['-' as u8] + dec(m, 2) + seq!['-' as u8] + dec(d, 2),
    ensures
        rfc3339_date(t, false) == Ok::<(nat, nat, nat, int), ParseError>((y, m, d, 10)),
{
    reveal_with_fuel(pow10, 5);
    lemma_dec_digits(y, 4);
    lemma_dec_digits(m, 2);
    lemma_dec_digits(d, 2);
    let part = t.subrange(0, 10);
    assert(part.subrange(0, 4) =~= dec(y, 4));
    assert(part.subrange(5, 7) =~= dec(m, 2));
    assert(part.subrange(8, 10) =~= dec(d, 2));
    assert(t[4] == part[4]);
    assert(t[7] == part[7]);
    lemma_num_in(t, 0, part, 0, y, 4, 4);
    lemma_num_in(t, 0, part, 5, m, 2, 2);
    lemma_num_in(t, 0, part, 8, d, 2, 2);
}

/// Digits of the fraction `frac` shows in `form`, and their value.
pub open spec fn frac_digits(frac: int, form: SecondsFormat) -> (nat, nat) {
    let f = frac % 1_000_000_000;
    match form {
        SecondsFormat::Secs => (0, 0),
        SecondsFormat::Millis => (3, (f / 1_000_000) as nat),
        SecondsFormat::Micros => (6, (f / 1_000) as nat),
        SecondsFormat::Nanos => (9, f as nat),
        SecondsFormat::AutoSi => if f == 0 {
            (0, 0)
        } else if f % 1_000_000 == 0 {
            (3, (f / 1_000_000) as nat)
        } else if f % 1_000 == 0 {
            (6, (f / 1_000) as nat)
        } else {
            (9, f as nat)
        },
    }
}

/// Whether `form` shows the fraction of `frac` without losing digits.
pub open spec fn frac_exact(frac: int, form: SecondsFormat) -> bool {
    let f = frac % 1_000_000_000;
    match form {
        SecondsFormat::Secs => f == 0,
        SecondsFormat::Millis => f % 1_000_000 == 0,
        SecondsFormat::Micros => f % 1_000 == 0,
        _ => true,
    }
}

/// The shape of a fraction's text, and what its digits are worth.
proof fn lemma_frac_shape(frac: int, form: SecondsFormat)
    requires
        0 <= frac < 2_000_000_000,
    ensures
        ({
            let (k, v) = frac_digits(frac, form);
            &&& k == 0 || k == 3 || k == 6 || k == 9
            &&& k == 0 ==> v == 0 && frac_text(frac, form) == Seq::<u8>::empty()
            &&& k > 0 ==> frac_text(frac, form) == seq!['.' as u8] + dec(v, k)
            &&& v < pow10(k)
            &&& frac_exact(frac, form) ==> v * pow10((9 - k) as nat) == frac % 1_000_000_000
        }),
{
    reveal_with_fuel(pow10, 10);
    let f = frac % 1_000_000_000;
    assert(f == (f / 1_000_000) * 1_000_000 + f % 1_000_000) by (nonlinear_arith)
        requires
            f >= 0,
    ;
    assert(f == (f / 1_000) * 1_000 + f % 1_000) by (nonlinear_arith)
        requires
            f >= 0,
    ;
    assert(f / 1_000_000 < 1000 && f / 1_000 < 1_000_000) by (nonlinear_arith)
        requires
            0 <= f < 1_000_000_000,
    ;
    assert(pow10(0) == 1 && pow10(3) == 1000 && pow10(6) == 1_000_000 && pow10(9) == 1_000_000_000);
    let v3 = (f / 1_000_000) as nat;
    let v6 = (f / 1_000) as nat;
    let v9 = f as nat;
    assert(f % 1_000_000 == 0 ==> v3 * pow10(6) == f);
    assert(f % 1_000 == 0 ==> v6 * pow10(3) == f);
    assert(v9 * pow10(0) == f);
    assert(v3 < pow10(3) && v6 < pow10(6) && v9 < pow10(9));
    assert(frac_text(frac, SecondsFormat::Secs) =~= Seq::<u8>::empty());
}

/// The time of day of RFC 3339 text written from valid fields reads back,
/// with a fraction of `k` digits worth `v`.
#[verifier::rlimit(100)]
#[verifier::spinoff_prover]
proof fn lemma_rfc3339_time_read(t: Seq<u8>, h: nat, mi: nat, sf: nat, fr: Seq<u8>, k: nat, v: nat)
    requires
        h < 100,
        mi < 100,
        sf < 100,
        k == 0 || k == 3 || k == 6 || k == 9,
        v < pow10(k),
        k == 0 ==> v == 0 && fr == Seq::<u8>::empty(),
        k > 0 ==> fr == seq!['.' as u8] + dec(v, k),
        t.len() > 19 + fr.len(),
        !is_digit(t[19 + fr.len() as int]),
        t[19 + fr.len() as int] != 46,
        t.subrange(10, 19 + fr.len() as int) == seq!['T' as u8] + (dec(h, 2) + seq![':' as u8] + dec(
            mi,
            2,
        ) + seq![':' as u8] + dec(sf, 2)) + fr,
    ensures
        rfc3339_time(t, 10, false) == Ok::<(nat, nat, nat, nat, int), ParseError>(
            (h, mi, sf, v * pow10((9 - k) as nat), 19 + fr.len() as int),
        ),
{
    reveal_with_fuel(pow10, 10);
    lemma_dec_digits(h, 2);
    lemma_dec_digits(mi, 2);
    lemma_dec_digits(sf, 2);
    let part = t.subrange(10, 19 + fr.len() as int);
    assert(part.subrange(1, 3) =~= dec(h, 2));
    assert(part.subrange(4, 6) =~= dec(mi, 2));
    assert(part.subrange(7, 9) =~= dec(sf, 2));
    assert(t[10] == part[0]);
    assert(t[13] == part[3]);
    assert(t[16] == part[6]);
    lemma_num_in(t, 10, part, 1, h, 2, 2);
    lemma_num_in(t, 10, part, 4, mi, 2, 2);
    lemma_num_in(t, 10, part, 7, sf, 2, 2);
    if k == 0 {
        assert(frac_at(t, 19) == Ok::<(nat, int), ParseError>((0, 19)));
    } else {
        lemma_dec_digits(v, k);
        assert(part[9] == 46);
        assert(t[19] == 46);
        assert(t.subrange(20, 20 + k as int) =~= dec(v, k)) by {
            assert forall|i: int| 0 <= i && i < k implies t.subrange(20, 20 + k as int)[i] == dec(v, k)[i] by {
                assert(t[20 + i] == part[10 + i]);
            }
        }
        if k < 9 {
            lemma_num_dec_stop(t, 20, v, k, 1, 9);
        } else {
            lemma_num_dec(t, 20, v, 9, 1);
        }
        assert(frac_at(t, 19) == Ok::<(nat, int), ParseError>(
            (v * pow10((9 - k) as nat), 20 + k as int),
        ));
    }
}

/// The two parts of a concatenation.
proof fn lemma_parts(a: Seq<u8>, b: Seq<u8>)
    ensures
        (a + b).subrange(0, a.len() as int) == a,
        (a + b).subrange(a.len() as int, (a + b).len() as int) == b,
{
    assert((a + b).subrange(0, a.len() as int) =~= a);
    assert((a + b).subrange(a.len() as int, (a + b).len() as int) =~= b);
}

/// The fields read from RFC 3339 text in `form`, written from day `n`
/// (which is `y-m-d`), time of day `secs` (which is `h:mi:sec`) with `frac`,
/// and offset `o`.
#[verifier::rlimit(100)]
#[verifier::spinoff_prover]
proof fn lemma_rfc3339_text_fields(
    n: int,
    y: int,
    m: int,
    d: int,
    secs: int,
    h: int,
    mi: int,
    sec: int,
    frac: int,
    o: int,
    form: SecondsFormat,
    use_z: bool,
)
    requires
        ymd_of(n) == (y, m, d),
        1 <= m <= 12,
        1 <= d <= 31,
        0 <= y <= 9999,
        0 <= h < 24,
        0 <= mi < 60,
        0 <= sec < 60,
        secs / 3600 == h,
        (secs / 60) % 60 == mi,
        secs % 60 == sec,
        0 <= frac < 2_000_000_000,
        frac_exact(frac, form),
        -86400 < o < 86400,
        o % 60 == 0,
    ensures
        rfc3339_fields(rfc3339_text((n, secs, frac), o, form, use_z), false)
            == Ok::<Fields, ParseError>(
            Fields {
                year: Some(y as i64),
                month: Some(m as u32),
                day: Some(d as u32),
                weekday: None,
                hour: Some(h as u32),
                minute: Some(mi as u32),
                second: Some(second_field(secs, frac) as u32),
                nanosecond: Some((frac % 1_000_000_000) as u32),
                offset: Some(o as i32),
            },
        ),
{
    let t = rfc3339_text((n, secs, frac), o, form, use_z);
    reveal_with_fuel(pow10, 10);
    let sf = second_field(secs, frac);
    assert(0 <= sf <= 60);
    lemma_dec_digits(y as nat, 4);
    lemma_dec_digits(m as nat, 2);
    lemma_dec_digits(d as nat, 2);
    lemma_dec_digits(h as nat, 2);
    lemma_dec_digits(mi as nat, 2);
    lemma_dec_digits(sf as nat, 2);
    lemma_frac_shape(frac, form);
    let (k, v) = frac_digits(frac, form);
    if k > 0 {
        lemma_dec_digits(v, k);
    }
    let z = if use_z && o == 0 {
        seq!['Z' as u8]
    } else {
        offset_text(o, true)
    };
    let dt = date_text(n);
    let hms = hms_text(secs, frac);
    let fr = frac_text(frac, form);
    assert(fr.len() == (if k == 0 { 0 } else { k + 1 }));
    assert(dt == dec(y as nat, 4) + seq!['-' as u8] + dec(m as nat, 2) + seq!['-' as u8] + dec(d as nat, 2));
    assert(hms == dec(h as nat, 2) + seq![':' as u8] + dec(mi as nat, 2) + seq![':' as u8] + dec(sf as nat, 2));
    assert(t == dt + seq!['T' as u8] + hms + fr + z);
    lemma_layout(t, dt, hms, fr, z);
    let zp = 19 + fr.len();
    if use_z && o == 0 {
    } else {
        let aa = if o < 0 { -o } else { o };
        lemma_offset_split(aa);
        lemma_dec_digits((aa / 3600) as nat, 2);
        lemma_dec_digits(((aa / 60) % 60) as nat, 2);
    }
    assert(z.len() >= 1);
    assert(t[zp as int] == z[0]);
    lemma_rfc3339_date_read(t, y as nat, m as nat, d as nat);
    lemma_rfc3339_time_read(t, h as nat, mi as nat, sf as nat, fr, k, v);
    lemma_zone_round_trip(t, zp as int, o, use_z);
    assert(end_at(t, t.len() as int, false) == Ok::<(), ParseError>(()));
}

/// Where the parts of RFC 3339 text stand.
proof fn lemma_layout(t: Seq<u8>, dt: Seq<u8>, hms: Seq<u8>, fr: Seq<u8>, z: Seq<u8>)
    requires
        dt.len() == 10,
        hms.len() == 8,
        t == dt + seq!['T' as u8] + hms + fr + z,
    ensures
        t.len() == 19 + fr.len() + z.len(),
        t.subrange(0, 10) == dt,
        t.subrange(10, 19 + fr.len() as int) == seq!['T' as u8] + hms + fr,
        t.subrange(19 + fr.len() as int, t.len() as int) == z,
{
    let p = dt + seq!['T' as u8] + hms + fr;
    lemma_parts(p, z);
    assert(p.subrange(0, 10) =~= dt);
    assert(p.subrange(10, 19 + fr.len() as int) =~= seq!['T' as u8] + hms + fr);
    assert(t.subrange(0, 10) =~= p.subrange(0, 10));
    assert(t.subrange(10, 19 + fr.len() as int) =~= p.subrange(10, 19 + fr.len() as int));
}

/// The instant of the fields that RFC 3339 text holds.
#[verifier::rlimit(100)]
proof fn lemma_fields_instant_rfc3339(
    n: int,
    y: int,
    m: int,
    d: int,
    secs: int,
    h: int,
    mi: int,
    sec: int,
    frac: int,
    o: int,
)
    requires
        valid_ymd(y, m, d),
        day_number(y, m, d) == n,
        0 <= y <= 9999,
        0 <= h < 24,
        0 <= mi < 60,
        0 <= sec < 60,
        h * 3600 + mi * 60 + sec == secs,
        secs % 60 == sec,
        0 <= frac < 2_000_000_000,
        frac >= 1_000_000_000 ==> sec == 59,
        -86400 < o < 86400,
        date_in_range(utc_of((n, secs, frac), o).0),
    ensures
        fields_instant(
            Fields {
                year: Some(y as i64),
                month: Some(m as u32),
                day: Some(d as u32),
                weekday: None,
                hour: Some(h as u32),
                minute: Some(mi as u32),
                second: Some(second_field(secs, frac) as u32),
                nanosecond: Some((frac % 1_000_000_000) as u32),
                offset: Some(o as i32),
            },
            None,
        ) == Ok::<((int, int, int), int), ParseError>((utc_of((n, secs, frac), o), o)),
{
    let f = Fields {
        year: Some(y as i64),
        month: Some(m as u32),
        day: Some(d as u32),
        weekday: None,
        hour: Some(h as u32),
        minute: Some(mi as u32),
        second: Some(second_field(secs, frac) as u32),
        nanosecond: Some((frac % 1_000_000_000) as u32),
        offset: Some(o as i32),
    };
    assert(fields_local(f) == Ok::<(int, int, int), ParseError>((n, secs, frac)));
}

/// RFC 3339 text reads back as the instant it was written from, at every
/// precision that shows its fraction exactly: for every date of years 0 to
/// 9999, time of day (a leap second only in the last second of a minute),
/// and offset of whole minutes under which the instant is representable.
#[verifier::rlimit(100)]
#[verifier::spinoff_prover]
pub proof fn lemma_rfc3339_round_trip(
    y: int,
    m: int,
    d: int,
    h: int,
    mi: int,
    sec: int,
    frac: int,
    o: int,
    form: SecondsFormat,
    use_z: bool,
)
    requires
        valid_ymd(y, m, d),
        0 <= y <= 9999,
        0 <= h < 24,
        0 <= mi < 60,
        0 <= sec < 60,
        0 <= frac < 2_000_000_000,
        frac >= 1_000_000_000 ==> sec == 59,
        frac_exact(frac, form),
        -86400 < o < 86400,
        o % 60 == 0,
        date_in_range(utc_of((day_number(y, m, d), h * 3600 + mi * 60 + sec, frac), o).0),
    ensures
        ({
            let l = (day_number(y, m, d), h * 3600 + mi * 60 + sec, frac);
            match rfc3339_fields(rfc3339_text(l, o, form, use_z), false) {
                Ok(f) => fields_instant(f, None) == Ok::<((int, int, int), int), ParseError>(
                    (utc_of(l, o), o),
                ),
                Err(_) => false,
            }
        }),
{
    let n = day_number(y, m, d);
    let secs = h * 3600 + mi * 60 + sec;
    let w = (y, m, d);
    assert(valid_ymd(w.0, w.1, w.2) && day_number(w.0, w.1, w.2) == n);
    lemma_ymd_unique(ymd_of(n), (y, m, d));
    lemma_hms_split(h, mi, sec);
    lemma_rfc3339_text_fields(n, y, m, d, secs, h, mi, sec, frac, o, form, use_z);
    lemma_fields_instant_rfc3339(n, y, m, d, secs, h, mi, sec, frac, o);
    let t = rfc3339_text((n, secs, frac), o, form, use_z);
    let f = rfc3339_fields(t, false)->Ok_0;
    assert(fields_instant(f, None) == Ok::<((int, int, int), int), ParseError>(
        (utc_of((n, secs, frac), o), o),
    ));
}

/// Two two-digit numbers side by side are the four digits of one.
proof fn lemma_dec_pair(a: nat, b: nat)
    requires
        a < 100,
        b < 100,
    ensures
        dec(a, 2) + dec(b, 2) == dec(a * 100 + b, 4),
{
    let n = a * 100 + b;
    assert(n / 10 == a * 10 + b / 10) by (nonlinear_arith)
        requires
            n == a * 100 + b,
            b < 100,
    ;
    assert(n % 10 == b % 10) by (nonlinear_arith)
        requires
            n == a * 100 + b,
    ;
    let n1 = n / 10;
    assert(n1 / 10 == a) by (nonlinear_arith)
        requires
            n1 == a * 10 + b / 10,
            b < 100,
    ;
    assert(n1 % 10 == b / 10) by (nonlinear_arith)
        requires
            n1 == a * 10 + b / 10,
            b < 100,
    ;
    assert(dec(b, 2) == dec(b / 10, 1) + seq![digit((b % 10) as int)]);
    assert(dec(b / 10, 1) == seq![digit((b / 10) as int)]);
    assert(dec(n, 4) == dec(n1, 3) + seq![digit((n % 10) as int)]);
    assert(dec(n1, 3) == dec(a, 2) + seq![digit((n1 % 10) as int)]);
    assert(dec(a, 2) + dec(b, 2) =~= dec(n, 4));
}

/// The weekday name at the start of RFC 2822 text reads back.
proof fn lemma_weekday_word(s: Seq<u8>, w: int)
    requires
        0 <= w < 7,
        s.len() >= 3,
        s.subrange(0, 3) == weekday_abbr(w),
    ensures
        weekday_word(s, 0) == Some(w as u32),
{
    assert(s[0] == weekday_abbr(w)[0]);
    assert(s[1] == weekday_abbr(w)[1]);
    assert(s[2] == weekday_abbr(w)[2]);
}

/// The month name at `pos` of RFC 2822 text reads back.
proof fn lemma_month_word(s: Seq<u8>, pos: int, m: int)
    requires
        1 <= m <= 12,
        0 <= pos,
        pos + 3 <= s.len(),
        s.subrange(pos, pos + 3) == month_abbr(m),
    ensures
        month_word(s, pos) == Some(m as u32),
{
    assert(s[pos] == month_abbr(m)[0]);
    assert(s[pos + 1] == month_abbr(m)[1]);
    assert(s[pos + 2] == month_abbr(m)[2]);
}

/// The date of RFC 2822 text written from valid fields reads back.
#[verifier::rlimit(100)]
#[verifier::spinoff_prover]
proof fn lemma_rfc2822_date_read(t: Seq<u8>, w: int, d: nat, m: int, y: nat)
    requires
        0 <= w < 7,
        1 <= m <= 12,
        d < 100,
        y < 10000,
        t.len() >= 17,
        t[16] == 32,
        t.subrange(0, 16) == weekday_abbr(w) + seq![',' as u8, ' ' as u8] + dec(d, 2) + seq![
            ' ' as u8,
        ] + month_abbr(m) + seq![' ' as u8] + dec(y, 4),
    ensures
        rfc2822_date(t) == Ok::<(Option<u32>, nat, u32, nat, int), ParseError>(
            (Some(w as u32), d, m as u32, y, 16),
        ),
{
    reveal_with_fuel(pow10, 5);
    lemma_dec_digits(d, 2);
    lemma_dec_digits(y, 4);
    let part = t.subrange(0, 16);
    assert(part.subrange(0, 3) =~= weekday_abbr(w));
    assert(t.subrange(0, 3) =~= part.subrange(0, 3));
    assert(part.subrange(5, 7) =~= dec(d, 2));
    assert(part.subrange(8, 11) =~= month_abbr(m));
    assert(t.subrange(8, 11) =~= part.subrange(8, 11));
    assert(part.subrange(12, 16) =~= dec(y, 4));
    assert(t[0] == part[0]);
    assert(t[3] == part[3]);
    assert(t[4] == part[4]);
    assert(t[5] == part[5]);
    assert(t[7] == part[7]);
    assert(t[8] == part[8]);
    assert(t[11] == part[11]);
    assert(t[12] == part[12]);
    lemma_weekday_word(t, w);
    lemma_month_word(t, 8, m);
    lemma_num_in(t, 0, part, 5, d, 2, 1);
    lemma_num_in(t, 0, part, 12, y, 4, 2);
    assert(space_run(t, 0) == 0);
    assert(space_run(t, 5) == 0);
    assert(space_run(t, 4) == 1);
    assert(space_run(t, 8) == 0);
    assert(space_run(t, 7) == 1);
    assert(space_run(t, 12) == 0);
    assert(space_run(t, 11) == 1);
}

/// The time of day and zone of RFC 2822 text written from valid fields
/// read back.
#[verifier::rlimit(100)]
#[verifier::spinoff_prover]
proof fn lemma_rfc2822_time_read(t: Seq<u8>, h: nat, mi: nat, sf: nat, o: int)
    requires
        h < 100,
        mi < 100,
        sf < 100,
        -86400 < o < 86400,
        o % 60 == 0,
        t.len() == 31,
        t.subrange(17, 31) == dec(h, 2) + seq![':' as u8] + dec(mi, 2) + seq![':' as u8] + dec(sf, 2)
            + seq![' ' as u8] + offset_text(o, false),
    ensures
        rfc2822_time(t, 17) == Ok::<(nat, nat, nat, int), ParseError>((h, mi, sf, o)),
{
    reveal_with_fuel(pow10, 5);
    lemma_dec_digits(h, 2);
    lemma_dec_digits(mi, 2);
    lemma_dec_digits(sf, 2);
    let a = if o < 0 { -o } else { o };
    lemma_offset_split(a);
    let hh = (a / 3600) as nat;
    let mm = ((a / 60) % 60) as nat;
    lemma_dec_digits(hh, 2);
    lemma_dec_digits(mm, 2);
    lemma_dec_pair(hh, mm);
    let v = hh * 100 + mm;
    assert(offset_text(o, false) == seq![if o < 0 { '-' as u8 } else { '+' as u8 }] + (dec(hh, 2) + dec(mm, 2)));
    let part = t.subrange(17, 31);
    assert(part.subrange(0, 2) =~= dec(h, 2));
    assert(part.subrange(3, 5) =~= dec(mi, 2));
    assert(part.subrange(6, 8) =~= dec(sf, 2));
    assert(part.subrange(10, 14) =~= dec(v, 4));
    assert(t[19] == part[2]);
    assert(t[22] == part[5]);
    assert(t[25] == part[8]);
    assert(t[26] == part[9]);
    assert(t[27] == part[10]);
    lemma_num_in(t, 17, part, 0, h, 2, 2);
    lemma_num_in(t, 17, part, 3, mi, 2, 2);
    lemma_num_in(t, 17, part, 6, sf, 2, 2);
    lemma_num_in(t, 17, part, 10, v, 4, 4);
    assert(v / 100 == hh && v % 100 == mm) by (nonlinear_arith)
        requires
            v == hh * 100 + mm,
            mm < 100,
    ;
    assert(space_run(t, 26) == 0);
    assert(space_run(t, 25) == 1);
    assert(space_run(t, 31) == 0);
    assert(rfc2822_zone(t, 26) == Ok::<(int, int), ParseError>((o, 31)));
}

/// Where the parts of RFC 2822 text stand.
proof fn lemma_layout_rfc2822(t: Seq<u8>, a: Seq<u8>, hms: Seq<u8>, z: Seq<u8>)
    requires
        a.len() == 16,
        hms.len() == 8,
        z.len() == 5,
        t == a + seq![' ' as u8] + hms + seq![' ' as u8] + z,
    ensures
        t.len() == 31,
        t.subrange(0, 16) == a,
        t[16] == 32,
        t.subrange(17, 31) == hms + seq![' ' as u8] + z,
{
    assert(t.subrange(0, 16) =~= a);
    assert(t.subrange(17, 31) =~= hms + seq![' ' as u8] + z);
}

/// The fields read from RFC 2822 text written from day `n` (which is
/// `y-m-d`, weekday `w`), time of day `secs` (which is `h:mi:sec`) with
/// `frac`, and offset `o`.
#[verifier::rlimit(100)]
#[verifier::spinoff_prover]
proof fn lemma_rfc2822_text_fields(
    n: int,
    y: int,
    m: int,
    d: int,
    w: int,
    secs: int,
    h: int,
    mi: int,
    sec: int,
    frac: int,
    o: int,
)
    requires
        ymd_of(n) == (y, m, d),
        weekday_of(n) == w,
        0 <= w < 7,
        1 <= m <= 12,
        1 <= d <= 31,
        0 <= y <= 9999,
        0 <= h < 24,
        0 <= mi < 60,
        0 <= sec < 60,
        secs / 3600 == h,
        (secs / 60) % 60 == mi,
        secs % 60 == sec,
        0 <= frac < 2_000_000_000,
        -86400 < o < 86400,
        o % 60 == 0,
    ensures
        rfc2822_fields(rfc2822_text((n, secs, frac), o)) == Ok::<Fields, ParseError>(
            Fields {
                year: Some(y as i64),
                month: Some(m as u32),
                day: Some(d as u32),
                weekday: Some(w as u32),
                hour: Some(h as u32),
                minute: Some(mi as u32),
                second: Some(second_field(secs, frac) as u32),
                nanosecond: None,
                offset: Some(o as i32),
            },
        ),
{
    let t = rfc2822_text((n, secs, frac), o);
    reveal_with_fuel(pow10, 5);
    let sf = second_field(secs, frac);
    assert(0 <= sf <= 60);
    lemma_dec_digits(y as nat, 4);
    lemma_dec_digits(d as nat, 2);
    lemma_dec_digits(h as nat, 2);
    lemma_dec_digits(mi as nat, 2);
    lemma_dec_digits(sf as nat, 2);
    let aa = if o < 0 { -o } else { o };
    lemma_offset_split(aa);
    lemma_dec_digits((aa / 3600) as nat, 2);
    lemma_dec_digits(((aa / 60) % 60) as nat, 2);
    let a = weekday_abbr(w) + seq![',' as u8, ' ' as u8] + dec(d as nat, 2) + seq![' ' as u8]
        + month_abbr(m) + seq![' ' as u8] + dec(y as nat, 4);
    let hms = hms_text(secs, frac);
    let z = offset_text(o, false);
    assert(hms == dec(h as nat, 2) + seq![':' as u8] + dec(mi as nat, 2) + seq![':' as u8] + dec(sf as nat, 2));
    assert(t == a + seq![' ' as u8] + hms + seq![' ' as u8] + z);
    lemma_layout_rfc2822(t, a, hms, z);
    lemma_rfc2822_date_read(t, w, d as nat, m, y as nat);
    lemma_rfc2822_time_read(t, h as nat, mi as nat, sf as nat, o);
    assert(space_run(t, 17) == 0);
    assert(space_run(t, 16) == 1);
}

/// The instant of the fields that RFC 2822 text holds.
#[verifier::rlimit(100)]
proof fn lemma_fields_instant_rfc2822(
    n: int,
    y: int,
    m: int,
    d: int,
    secs: int,
    h: int,
    mi: int,
    sec: int,
    frac: int,
    o: int,
)
    requires
        valid_ymd(y, m, d),
        day_number(y, m, d) == n,
        0 <= y <= 9999,
        0 <= h < 24,
        0 <= mi < 60,
        0 <= sec < 60,
        h * 3600 + mi * 60 + sec == secs,
        secs % 60 == sec,
        frac == 0 || (frac == 1_000_000_000 && sec == 59),
        -86400 < o < 86400,
        date_in_range(utc_of((n, secs, frac), o).0),
    ensures
        fields_instant(
            Fields {
                year: Some(y as i64),
                month: Some(m as u32),
                day: Some(d as u32),
                weekday: Some(weekday_of(n) as u32),
                hour: Some(h as u32),
                minute: Some(mi as u32),
                second: Some(second_field(secs, frac) as u32),
                nanosecond: None,
                offset: Some(o as i32),
            },
            None,
        ) == Ok::<((int, int, int), int), ParseError>((utc_of((n, secs, frac), o), o)),
{
    let f = Fields {
        year: Some(y as i64),
        month: Some(m as u32),
        day: Some(d as u32),
        weekday: Some(weekday_of(n) as u32),
        hour: Some(h as u32),
        minute: Some(mi as u32),
        second: Some(second_field(secs, frac) as u32),
        nanosecond: None,
        offset: Some(o as i32),
    };
    assert(0 <= weekday_of(n) < 7);
    assert(fields_local(f) == Ok::<(int, int, int), ParseError>((n, secs, frac)));
}

/// RFC 2822 text reads back as the instant it was written from, for every
/// instant on a whole second (or on a leap second at the end of a minute)
/// of years 0 to 9999, at an offset of whole minutes under which the
/// instant is representable.
#[verifier::rlimit(100)]
#[verifier::spinoff_prover]
pub proof fn lemma_rfc2822_round_trip(
    y: int,
    m: int,
    d: int,
    h: int,
    mi: int,
    sec: int,
    frac: int,
    o: int,
)
    requires
        valid_ymd(y, m, d),
        0 <= y <= 9999,
        0 <= h < 24,
        0 <= mi < 60,
        0 <= sec < 60,
        frac == 0 || (frac == 1_000_000_000 && sec == 59),
        -86400 < o < 86400,
        o % 60 == 0,
        date_in_range(utc_of((day_number(y, m, d), h * 3600 + mi * 60 + sec, frac), o).0),
    ensures
        ({
            let l = (day_number(y, m, d), h * 3600 + mi * 60 + sec, frac);
            match rfc2822_fields(rfc2822_text(l, o)) {
                Ok(f) => fields_instant(f, None) == Ok::<((int, int, int), int), ParseError>(
                    (utc_of(l, o), o),
                ),
                Err(_) => false,
            }
        }),
{
    let n = day_number(y, m, d);
    let secs = h * 3600 + mi * 60 + sec;
    let wit = (y, m, d);
    assert(valid_ymd(wit.0, wit.1, wit.2) && day_number(wit.0, wit.1, wit.2) == n);
    lemma_ymd_unique(ymd_of(n), (y, m, d));
    lemma_hms_split(h, mi, sec);
    let w = weekday_of(n);
    lemma_rfc2822_text_fields(n, y, m, d, w, secs, h, mi, sec, frac, o);
    lemma_fields_instant_rfc2822(n, y, m, d, secs, h, mi, sec, frac, o);
    let t = rfc2822_text((n, secs, frac), o);
    let f = rfc2822_fields(t)->Ok_0;
    assert(fields_instant(f, None) == Ok::<((int, int, int), int), ParseError>(
        (utc_of((n, secs, frac), o), o),
    ));
}

proof fn lemma_ascii_concat(a: Seq<u8>, b: Seq<u8>)
    requires
        is_ascii_text(a),
        is_ascii_text(b),
    ensures
        is_ascii_text(a + b),
{
    assert forall|i: int| 0 <= i < (a + b).len() implies (a + b)[i] < 128 by {
        if i < a.len() {
            assert((a + b)[i] == a[i]);
        } else {
            assert((a + b)[i] == b[i - a.len()]);
        }
    }
}

proof fn lemma_dec_ascii(n: nat, w: nat)
    ensures
        is_ascii_text(dec(n, w)),
    decreases n, w,
{
    if n < 10 && w <= 1 {
    } else {
        lemma_dec_ascii(n / 10, if w > 0 { (w - 1) as nat } else { 0 });
        lemma_ascii_concat(dec(n / 10, if w > 0 { (w - 1) as nat } else { 0 }), seq![digit((n % 10) as int)]);
    }
}

proof fn lemma_offset_ascii(o: int, colon: bool)
    ensures
        is_ascii_text(offset_text(o, colon)),
{
    let a = if o < 0 { -o } else { o };
    let sign = if o < 0 { '-' as u8 } else { '+' as u8 };
    let c: Seq<u8> = if colon { seq![':' as u8] } else { seq![] };
    lemma_dec_ascii((a / 3600) as nat, 2);
    lemma_dec_ascii(((a / 60) % 60) as nat, 2);
    lemma_ascii_concat(seq![sign], dec((a / 3600) as nat, 2));
    lemma_ascii_concat(seq![sign] + dec((a / 3600) as nat, 2), c);
    lemma_ascii_concat(seq![sign] + dec((a / 3600) as nat, 2) + c, dec(((a / 60) % 60) as nat, 2));
}

/// RFC 3339 text from years 0 to 9999 is ASCII.
proof fn lemma_rfc3339_ascii(l: (int, int, int), o: int, form: SecondsFormat, use_z: bool)
    requires
        0 <= ymd_of(l.0).0 <= 9999,
    ensures
        is_ascii_text(rfc3339_text(l, o, form, use_z)),
{
    let t = ymd_of(l.0);
    lemma_dec_ascii(t.0 as nat, 4);
    lemma_dec_ascii(t.1 as nat, 2);
    lemma_dec_ascii(t.2 as nat, 2);
    let y = year_text(t.0);
    lemma_ascii_concat(y, seq!['-' as u8]);
    lemma_ascii_concat(y + seq!['-' as u8], dec(t.1 as nat, 2));
    lemma_ascii_concat(y + seq!['-' as u8] + dec(t.1 as nat, 2), seq!['-' as u8]);
    lemma_ascii_concat(y + seq!['-' as u8] + dec(t.1 as nat, 2) + seq!['-' as u8], dec(t.2 as nat, 2));
    let dt = date_text(l.0);
    let h = dec((l.1 / 3600) as nat, 2);
    let m = dec(((l.1 / 60) % 60) as nat, 2);
    let sf = dec(second_field(l.1, l.2) as nat, 2);
    lemma_dec_ascii((l.1 / 3600) as nat, 2);
    lemma_dec_ascii(((l.1 / 60) % 60) as nat, 2);
    lemma_dec_ascii(second_field(l.1, l.2) as nat, 2);
    lemma_ascii_concat(h, seq![':' as u8]);
    lemma_ascii_concat(h + seq![':' as u8], m);
    lemma_ascii_concat(h + seq![':' as u8] + m, seq![':' as u8]);
    lemma_ascii_concat(h + seq![':' as u8] + m + seq![':' as u8], sf);
    let hms = hms_text(l.1, l.2);
    let f = l.2 % 1_000_000_000;
    lemma_dec_ascii((f / 1_000_000) as nat, 3);
    lemma_dec_ascii((f / 1_000) as nat, 6);
    lemma_dec_ascii(f as nat, 9);
    lemma_ascii_concat(seq!['.' as u8], dec((f / 1_000_000) as nat, 3));
    lemma_ascii_concat(seq!['.' as u8], dec((f / 1_000) as nat, 6));
    lemma_ascii_concat(seq!['.' as u8], dec(f as nat, 9));
    let fr = frac_text(l.2, form);
    assert(is_ascii_text(fr));
    lemma_offset_ascii(o, true);
    let z: Seq<u8> = if use_z && o == 0 { seq!['Z' as u8] } else { offset_text(o, true) };
    lemma_ascii_concat(dt, seq!['T' as u8]);
    lemma_ascii_concat(dt + seq!['T' as u8], hms);
    lemma_ascii_concat(dt + seq!['T' as u8] + hms, fr);
    lemma_ascii_concat(dt + seq!['T' as u8] + hms + fr, z);
}

/// Text whose characters are the ASCII bytes `t` is encoded as `t`.
pub proof fn lemma_ascii_str_bytes(s: &str, t: Seq<u8>)
    requires
        is_ascii_text(t),
        s@ == ascii_chars(t),
    ensures
        s.spec_bytes() == t,
{
    assert(is_ascii(s)) by {
        assert forall|i: int| 0 <= i < s@.len() implies '\0' <= #[trigger] s@[i] <= '\u{7f}' by {
            assert(s@[i] == t[i] as char);
        }
    }
    is_ascii_spec_bytes(s);
    assert(s.spec_bytes() =~= t) by {
        assert forall|i: int| 0 <= i < t.len() implies s.spec_bytes()[i] == t[i] by {
            assert(s@[i] == t[i] as char);
        }
    }
}

/// RFC 2822 text from years 0 to 9999 is ASCII.
proof fn lemma_rfc2822_ascii(l: (int, int, int), o: int)
    requires
        0 <= ymd_of(l.0).0 <= 9999,
    ensures
        is_ascii_text(rfc2822_text(l, o)),
{
    let t = ymd_of(l.0);
    let w = weekday_abbr(weekday_of(l.0));
    let mo = month_abbr(t.1);
    assert(is_ascii_text(w));
    assert(is_ascii_text(mo));
    lemma_dec_ascii(t.0 as nat, 4);
    lemma_dec_ascii(t.2 as nat, 2);
    let h = dec((l.1 / 3600) as nat, 2);
    let m = dec(((l.1 / 60) % 60) as nat, 2);
    let sf = dec(second_field(l.1, l.2) as nat, 2);
    lemma_dec_ascii((l.1 / 3600) as nat, 2);
    lemma_dec_ascii(((l.1 / 60) % 60) as nat, 2);
    lemma_dec_ascii(second_field(l.1, l.2) as nat, 2);
    lemma_ascii_concat(h, seq![':' as u8]);
    lemma_ascii_concat(h + seq![':' as u8], m);
    lemma_ascii_concat(h + seq![':' as u8] + m, seq![':' as u8]);
    lemma_ascii_concat(h + seq![':' as u8] + m + seq![':' as u8], sf);
    let hms = hms_text(l.1, l.2);
    lemma_offset_ascii(o, false);
    let sp: Seq<u8> = seq![' ' as u8];
    let a0 = w + seq![',' as u8, ' ' as u8];
    lemma_ascii_concat(w, seq![',' as u8, ' ' as u8]);
    lemma_ascii_concat(a0, dec(t.2 as nat, 2));
    lemma_ascii_concat(a0 + dec(t.2 as nat, 2), sp);
    let a1 = a0 + dec(t.2 as nat, 2) + sp;
    lemma_ascii_concat(a1, mo);
    lemma_ascii_concat(a1 + mo, sp);
    lemma_ascii_concat(a1 + mo + sp, year_text(t.0));
    let a2 = a1 + mo + sp + year_text(t.0);
    lemma_ascii_concat(a2, sp);
    lemma_ascii_concat(a2 + sp, hms);
    lemma_ascii_concat(a2 + sp + hms, sp);
    lemma_ascii_concat(a2 + sp + hms + sp, offset_text(o, false));
}

/// The text that `to_rfc3339_opts(form, use_z)` gives for an instant reads
/// back, through `parse_from_rfc3339`, as that instant at the same offset,
/// wherever `form` shows the fraction exactly: for wall-clock readings of
/// years 0 to 9999 (a leap second only in the last second of a minute) at
/// offsets of whole minutes.
pub proof fn lemma_rfc3339_str_round_trip(
    dt: DateTime<FixedOffset>,
    s: &str,
    form: SecondsFormat,
    use_z: bool,
    y: int,
    m: int,
    d: int,
    h: int,
    mi: int,
    sec: int,
    frac: int,
)
    requires
        0 <= dt@.1 < 86400,
        dt.spec_local() == (day_number(y, m, d), h * 3600 + mi * 60 + sec, frac),
        valid_ymd(y, m, d),
        0 <= y <= 9999,
        0 <= h < 24,
        0 <= mi < 60,
        0 <= sec < 60,
        0 <= frac < 2_000_000_000,
        frac >= 1_000_000_000 ==> sec == 59,
        frac_exact(frac, form),
        -86400 < dt.spec_offset() < 86400,
        dt.spec_offset() % 60 == 0,
        s@ == ascii_chars(rfc3339_text(dt.spec_local(), dt.spec_offset(), form, use_z)),
    ensures
        match rfc3339_fields(s.spec_bytes(), false) {
            Ok(f) => fields_instant(f, None) == Ok::<((int, int, int), int), ParseError>(
                (dt@, dt.spec_offset()),
            ),
            Err(_) => false,
        },
{
    let l = dt.spec_local();
    let o = dt.spec_offset();
    let wit = (y, m, d);
    assert(valid_ymd(wit.0, wit.1, wit.2) && day_number(wit.0, wit.1, wit.2) == l.0);
    lemma_ymd_unique(ymd_of(l.0), (y, m, d));
    lemma_rfc3339_ascii(l, o, form, use_z);
    lemma_ascii_str_bytes(s, rfc3339_text(l, o, form, use_z));
    lemma_shift_back(dt@, o);
    assert(utc_of(l, o) == dt@);
    lemma_rfc3339_round_trip(y, m, d, h, mi, sec, frac, o, form, use_z);
}

/// The text that `to_rfc2822` gives for an instant on a whole second (or a
/// leap second at the end of a minute) reads back, through
/// `parse_from_rfc2822`, as that instant at the same offset: for wall-clock
/// readings of years 0 to 9999 at offsets of whole minutes.
pub proof fn lemma_rfc2822_str_round_trip(
    dt: DateTime<FixedOffset>,
    s: &str,
    y: int,
    m: int,
    d: int,
    h: int,
    mi: int,
    sec: int,
    frac: int,
)
    requires
        0 <= dt@.1 < 86400,
        dt.spec_local() == (day_number(y, m, d), h * 3600 + mi * 60 + sec, frac),
        valid_ymd(y, m, d),
        0 <= y <= 9999,
        0 <= h < 24,
        0 <= mi < 60,
        0 <= sec < 60,
        frac == 0 || (frac == 1_000_000_000 && sec == 59),
        -86400 < dt.spec_offset() < 86400,
        dt.spec_offset() % 60 == 0,
        s@ == ascii_chars(rfc2822_text(dt.spec_local(), dt.spec_offset())),
    ensures
        match rfc2822_fields(s.spec_bytes()) {
            Ok(f) => fields_instant(f, None) == Ok::<((int, int, int), int), ParseError>(
                (dt@, dt.spec_offset()),
            ),
            Err(_) => false,
        },
{
    let l = dt.spec_local();
    let o = dt.spec_offset();
    let wit = (y, m, d);
    assert(valid_ymd(wit.0, wit.1, wit.2) && day_number(wit.0, wit.1, wit.2) == l.0);
    lemma_ymd_unique(ymd_of(l.0), (y, m, d));
    lemma_rfc2822_ascii(l, o);
    lemma_ascii_str_bytes(s, rfc2822_text(l, o));
    lemma_shift_back(dt@, o);
    assert(utc_of(l, o) == dt@);
    lemma_rfc2822_round_trip(y, m, d, h, mi, sec, frac, o);
}

} // verus!

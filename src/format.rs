use vstd::prelude::*;
use vstd::string::StringSliceAdditionalSpecFns;

use crate::calendar::weekday_of;
use crate::datetime::DateTime;
use crate::day::Day;
use crate::naive::{ymd_of, NaiveDate, NaiveDateTime, NaiveTime};
use crate::offset::TimeZone;

verus! {

/// How many digits of the fractional second RFC 3339 text shows.
#[derive(Clone, Copy, Debug, PartialEq, Eq, Structural)]
pub enum SecondsFormat {
    /// No fraction.
    Secs,
    /// Three digits.
    Millis,
    /// Six digits.
    Micros,
    /// Nine digits.
    Nanos,
    /// No fraction for a whole second, else the fewest of three, six or nine
    /// digits that show the value exactly.
    AutoSi,
}

pub open spec fn digit(n: int) -> u8 {
    (48 + n) as u8
}

/// Decimal digits of `n`, padded with zeros to at least `w` digits.
pub open spec fn dec(n: nat, w: nat) -> Seq<u8>
    decreases n, w,
{
    if n < 10 && w <= 1 {
        seq![digit(n as int)]
    } else {
        dec(n / 10, if w > 0 { (w - 1) as nat } else { 0 }) + seq![digit((n % 10) as int)]
    }
}

/// A year: four digits from 0 to 9999, else a sign and at least four digits.
pub open spec fn year_text(y: int) -> Seq<u8> {
    if 0 <= y <= 9999 {
        dec(y as nat, 4)
    } else if y < 0 {
        seq!['-' as u8] + dec((-y) as nat, 4)
    } else {
        seq!['+' as u8] + dec(y as nat, 4)
    }
}

/// `YYYY-MM-DD` of day number `n`.
pub open spec fn date_text(n: int) -> Seq<u8> {
    let t = ymd_of(n);
    year_text(t.0) + seq!['-' as u8] + dec(t.1 as nat, 2) + seq!['-' as u8] + dec(t.2 as nat, 2)
}

/// The seconds field: 60 during a leap second.
pub open spec fn second_field(secs: int, frac: int) -> int {
    secs % 60 + if frac >= 1_000_000_000 { 1int } else { 0int }
}

/// `hh:mm:ss` of a time of day.
pub open spec fn hms_text(secs: int, frac: int) -> Seq<u8> {
    dec((secs / 3600) as nat, 2) + seq![':' as u8] + dec(((secs / 60) % 60) as nat, 2) + seq![
        ':' as u8,
    ] + dec(second_field(secs, frac) as nat, 2)
}

/// The fractional second as `form` shows it, with its dot.
pub open spec fn frac_text(frac: int, form: SecondsFormat) -> Seq<u8> {
    let f = frac % 1_000_000_000;
    match form {
        SecondsFormat::Secs => seq![],
        SecondsFormat::Millis => seq!['.' as u8] + dec((f / 1_000_000) as nat, 3),
        SecondsFormat::Micros => seq!['.' as u8] + dec((f / 1_000) as nat, 6),
        SecondsFormat::Nanos => seq!['.' as u8] + dec(f as nat, 9),
        SecondsFormat::AutoSi => if f == 0 {
            seq![]
        } else if f % 1_000_000 == 0 {
            seq!['.' as u8] + dec((f / 1_000_000) as nat, 3)
        } else if f % 1_000 == 0 {
            seq!['.' as u8] + dec((f / 1_000) as nat, 6)
        } else {
            seq!['.' as u8] + dec(f as nat, 9)
        },
    }
}

/// `+hh:mm` (or `+hhmm` without colon) of an offset in seconds; seconds of
/// the offset are not shown.
pub open spec fn offset_text(off: int, colon: bool) -> Seq<u8> {
    let sign = if off < 0 { '-' as u8 } else { '+' as u8 };
    let a = if off < 0 { -off } else { off };
    seq![sign] + dec((a / 3600) as nat, 2) + (if colon { seq![':' as u8] } else { seq![] }) + dec(
        ((a / 60) % 60) as nat,
        2,
    )
}

/// RFC 3339 text of wall-clock reading `l` at offset `off`; `Z` stands for
/// a zero offset when `use_z` is set.
pub open spec fn rfc3339_text(l: (int, int, int), off: int, form: SecondsFormat, use_z: bool) -> Seq<
    u8,
> {
    date_text(l.0) + seq!['T' as u8] + hms_text(l.1, l.2) + frac_text(l.2, form) + if use_z && off
        == 0 {
        seq!['Z' as u8]
    } else {
        offset_text(off, true)
    }
}

pub open spec fn weekday_abbr(w: int) -> Seq<u8> {
    if w == 0 {
        seq!['M' as u8, 'o' as u8, 'n' as u8]
    } else if w == 1 {
        seq!['T' as u8, 'u' as u8, 'e' as u8]
    } else if w == 2 {
        seq!['W' as u8, 'e' as u8, 'd' as u8]
    } else if w == 3 {
        seq!['T' as u8, 'h' as u8, 'u' as u8]
    } else if w == 4 {
        seq!['F' as u8, 'r' as u8, 'i' as u8]
    } else if w == 5 {
        seq!['S' as u8, 'a' as u8, 't' as u8]
    } else {
        seq!['S' as u8, 'u' as u8, 'n' as u8]
    }
}

pub open spec fn month_abbr(m: int) -> Seq<u8> {
    if m == 1 {
        seq!['J' as u8, 'a' as u8, 'n' as u8]
    } else if m == 2 {
        seq!['F' as u8, 'e' as u8, 'b' as u8]
    } else if m == 3 {
        seq!['M' as u8, 'a' as u8, 'r' as u8]
    } else if m == 4 {
        seq!['A' as u8, 'p' as u8, 'r' as u8]
    } else if m == 5 {
        seq!['M' as u8, 'a' as u8, 'y' as u8]
    } else if m == 6 {
        seq!['J' as u8, 'u' as u8, 'n' as u8]
    } else if m == 7 {
        seq!['J' as u8, 'u' as u8, 'l' as u8]
    } else if m == 8 {
        seq!['A' as u8, 'u' as u8, 'g' as u8]
    } else if m == 9 {
        seq!['S' as u8, 'e' as u8, 'p' as u8]
    } else if m == 10 {
        seq!['O' as u8, 'c' as u8, 't' as u8]
    } else if m == 11 {
        seq!['N' as u8, 'o' as u8, 'v' as u8]
    } else {
        seq!['D' as u8, 'e' as u8, 'c' as u8]
    }
}

/// RFC 2822 text of wall-clock reading `l` at offset `off`.
pub open spec fn rfc2822_text(l: (int, int, int), off: int) -> Seq<u8> {
    let t = ymd_of(l.0);
    weekday_abbr(weekday_of(l.0)) + seq![',' as u8, ' ' as u8] + dec(t.2 as nat, 2) + seq![
        ' ' as u8,
    ] + month_abbr(t.1) + seq![' ' as u8] + year_text(t.0) + seq![' ' as u8] + hms_text(l.1, l.2)
        + seq![' ' as u8] + offset_text(off, false)
}

/// The `Display` text of an instant: date, time, and `UTC` or the offset.
pub open spec fn display_text(l: (int, int, int), off: int, is_utc: bool) -> Seq<u8> {
    date_text(l.0) + seq![' ' as u8] + hms_text(l.1, l.2) + frac_text(l.2, SecondsFormat::AutoSi)
        + seq![' ' as u8] + if is_utc {
        seq!['U' as u8, 'T' as u8, 'C' as u8]
    } else {
        offset_text(off, true)
    }
}

/// The `Debug` text of an instant: RFC 3339 with `Z` for the UTC zone.
pub open spec fn debug_text(l: (int, int, int), off: int, is_utc: bool) -> Seq<u8> {
    date_text(l.0) + seq!['T' as u8] + hms_text(l.1, l.2) + frac_text(l.2, SecondsFormat::AutoSi)
        + if is_utc {
        seq!['Z' as u8]
    } else {
        offset_text(off, true)
    }
}

/// Where text stands in a wider field.
#[derive(Clone, Copy, Debug, PartialEq, Eq, Structural)]
pub enum Alignment {
    Left,
    Right,
    /// Centred; an odd fill byte goes to the right.
    Center,
}

pub open spec fn month_name(m: int) -> Seq<u8> {
    if m == 1 {
        seq!['J' as u8, 'a' as u8, 'n' as u8, 'u' as u8, 'a' as u8, 'r' as u8, 'y' as u8]
    } else if m == 2 {
        seq!['F' as u8, 'e' as u8, 'b' as u8, 'r' as u8, 'u' as u8, 'a' as u8, 'r' as u8, 'y' as u8]
    } else if m == 3 {
        seq!['M' as u8, 'a' as u8, 'r' as u8, 'c' as u8, 'h' as u8]
    } else if m == 4 {
        seq!['A' as u8, 'p' as u8, 'r' as u8, 'i' as u8, 'l' as u8]
    } else if m == 5 {
        seq!['M' as u8, 'a' as u8, 'y' as u8]
    } else if m == 6 {
        seq!['J' as u8, 'u' as u8, 'n' as u8, 'e' as u8]
    } else if m == 7 {
        seq!['J' as u8, 'u' as u8, 'l' as u8, 'y' as u8]
    } else if m == 8 {
        seq!['A' as u8, 'u' as u8, 'g' as u8, 'u' as u8, 's' as u8, 't' as u8]
    } else if m == 9 {
        seq!['S' as u8, 'e' as u8, 'p' as u8, 't' as u8, 'e' as u8, 'm' as u8, 'b' as u8, 'e' as u8, 'r' as u8]
    } else if m == 10 {
        seq!['O' as u8, 'c' as u8, 't' as u8, 'o' as u8, 'b' as u8, 'e' as u8, 'r' as u8]
    } else if m == 11 {
        seq!['N' as u8, 'o' as u8, 'v' as u8, 'e' as u8, 'm' as u8, 'b' as u8, 'e' as u8, 'r' as u8]
    } else {
        seq!['D' as u8, 'e' as u8, 'c' as u8, 'e' as u8, 'm' as u8, 'b' as u8, 'e' as u8, 'r' as u8]
    }
}

/// The text of the directive or byte of `fmt` at `fi`, for day number `n`,
/// a time of day if there is one, an offset if there is one, and whether
/// the zone is UTC; and where the format goes on. Absent for a directive
/// that is unknown or needs what is not there.
pub open spec fn render_item(
    fmt: Seq<u8>,
    fi: int,
    n: int,
    time: Option<(int, int)>,
    off: Option<int>,
    is_utc: bool,
) -> Option<(Seq<u8>, int)> {
    let c = fmt[fi];
    let t = ymd_of(n);
    if c != 37 {
        Some((seq![c], fi + 1))
    } else if fi + 1 >= fmt.len() {
        None
    } else {
        let d = fmt[fi + 1];
        let text: Option<Seq<u8>> = if d == 89 {
            Some(year_text(t.0))
        } else if d == 109 {
            Some(dec(t.1 as nat, 2))
        } else if d == 100 {
            Some(dec(t.2 as nat, 2))
        } else if d == 66 {
            Some(month_name(t.1))
        } else if d == 98 {
            Some(month_abbr(t.1))
        } else if d == 97 {
            Some(weekday_abbr(weekday_of(n)))
        } else if d == 37 {
            Some(seq!['%' as u8])
        } else if d == 72 || d == 77 || d == 83 {
            match time {
                None => None,
                Some((secs, frac)) => Some(
                    if d == 72 {
                        dec((secs / 3600) as nat, 2)
                    } else if d == 77 {
                        dec(((secs / 60) % 60) as nat, 2)
                    } else {
                        dec(second_field(secs, frac) as nat, 2)
                    },
                ),
            }
        } else if d == 90 {
            if is_utc {
                Some(seq!['U' as u8, 'T' as u8, 'C' as u8])
            } else {
                match off {
                    Some(o) => Some(offset_text(o, true)),
                    None => None,
                }
            }
        } else if d == 122 {
            match off {
                Some(o) => Some(offset_text(o, false)),
                None => None,
            }
        } else {
            None
        };
        match text {
            Some(x) => Some((x, fi + 2)),
            None => None,
        }
    }
}

/// `out` followed by the rendering of `fmt` from `fi` on.
pub open spec fn render(
    fmt: Seq<u8>,
    fi: int,
    n: int,
    time: Option<(int, int)>,
    off: Option<int>,
    is_utc: bool,
    out: Seq<u8>,
) -> Option<Seq<u8>>
    decreases fmt.len() - fi,
{
    if fi < 0 || fi >= fmt.len() {
        Some(out)
    } else {
        match render_item(fmt, fi, n, time, off, is_utc) {
            None => None,
            Some((x, f2)) => if f2 > fi {
                render(fmt, f2, n, time, off, is_utc, out + x)
            } else {
                None
            },
        }
    }
}

/// Text `t` in a field `width` bytes wide, filled out with `fill`.
pub open spec fn aligned(t: Seq<u8>, width: nat, a: Alignment, fill: u8) -> Seq<u8> {
    if t.len() >= width {
        t
    } else {
        let pad = (width - t.len()) as nat;
        let left: nat = match a {
            Alignment::Left => 0,
            Alignment::Right => pad,
            Alignment::Center => pad / 2,
        };
        Seq::new(left, |_i: int| fill) + t + Seq::new((pad - left) as nat, |_i: int| fill)
    }
}

/// Whether every byte is an ASCII character.
pub open spec fn is_ascii_text(s: Seq<u8>) -> bool {
    forall|i: int| 0 <= i < s.len() ==> s[i] < 128
}

/// The characters of ASCII bytes.
pub open spec fn ascii_chars(s: Seq<u8>) -> Seq<char> {
    s.map_values(|c: u8| c as char)
}

/// Relies on `String::from_utf8`: ASCII bytes are valid UTF-8, each byte
/// one character.
#[verifier::external_body]
pub(crate) fn ascii_string(b: Vec<u8>) -> (r: String)
    requires
        is_ascii_text(b@),
    ensures
        r@ == ascii_chars(b@),
{
    String::from_utf8(b).unwrap()
}

/// Appends the digits of `n`, padded with zeros to at least `w` digits.
pub(crate) fn push_dec(buf: &mut Vec<u8>, n: u64, w: u32)
    ensures
        final(buf)@ == old(buf)@ + dec(n as nat, w as nat),
        is_ascii_text(old(buf)@) ==> is_ascii_text(final(buf)@),
    decreases n, w,
{
    if n < 10 && w <= 1 {
        buf.push((48 + n) as u8);
    } else {
        push_dec(buf, n / 10, if w > 0 { w - 1 } else { 0 });
        buf.push((48 + n % 10) as u8);
    }
}

pub(crate) fn push_all(buf: &mut Vec<u8>, s: &Vec<u8>)
    ensures
        final(buf)@ == old(buf)@ + s@,
        is_ascii_text(old(buf)@) && is_ascii_text(s@) ==> is_ascii_text(final(buf)@),
{
    let mut i: usize = 0;
    while i < s.len()
        invariant
            0 <= i <= s@.len(),
            buf@ == old(buf)@ + s@.subrange(0, i as int),
        decreases s@.len() - i,
    {
        buf.push(s[i]);
        i = i + 1;
        assert(s@.subrange(0, i as int) == s@.subrange(0, i - 1) + seq![s@[i - 1]]);
    }
    assert(s@.subrange(0, s@.len() as int) == s@);
}

pub(crate) fn push_year(buf: &mut Vec<u8>, y: i32)
    ensures
        final(buf)@ == old(buf)@ + year_text(y as int),
        is_ascii_text(old(buf)@) ==> is_ascii_text(final(buf)@),
{
    if 0 <= y && y <= 9999 {
        push_dec(buf, y as u64, 4);
    } else if y < 0 {
        buf.push('-' as u8);
        push_dec(buf, (-(y as i64)) as u64, 4);
    } else {
        buf.push('+' as u8);
        push_dec(buf, y as u64, 4);
    }
}

pub(crate) fn push_date(buf: &mut Vec<u8>, date: &NaiveDate)
    ensures
        final(buf)@ == old(buf)@ + date_text(date@),
        is_ascii_text(old(buf)@) ==> is_ascii_text(final(buf)@),
{
    let (y, m, d) = date.ymd();
    push_year(buf, y);
    buf.push('-' as u8);
    push_dec(buf, m as u64, 2);
    buf.push('-' as u8);
    push_dec(buf, d as u64, 2);
}

pub(crate) fn push_hms(buf: &mut Vec<u8>, secs: u32, frac: u32)
    requires
        secs < 86400,
    ensures
        final(buf)@ == old(buf)@ + hms_text(secs as int, frac as int),
        is_ascii_text(old(buf)@) ==> is_ascii_text(final(buf)@),
{
    push_dec(buf, (secs / 3600) as u64, 2);
    buf.push(':' as u8);
    push_dec(buf, ((secs / 60) % 60) as u64, 2);
    buf.push(':' as u8);
    let s: u32 = secs % 60 + if frac >= 1_000_000_000 { 1 } else { 0 };
    push_dec(buf, s as u64, 2);
}

pub(crate) fn push_frac(buf: &mut Vec<u8>, frac: u32, form: SecondsFormat)
    ensures
        final(buf)@ == old(buf)@ + frac_text(frac as int, form),
        is_ascii_text(old(buf)@) ==> is_ascii_text(final(buf)@),
{
    let f: u32 = frac % 1_000_000_000;
    match form {
        SecondsFormat::Secs => {},
        SecondsFormat::Millis => {
            buf.push('.' as u8);
            push_dec(buf, (f / 1_000_000) as u64, 3);
        },
        SecondsFormat::Micros => {
            buf.push('.' as u8);
            push_dec(buf, (f / 1_000) as u64, 6);
        },
        SecondsFormat::Nanos => {
            buf.push('.' as u8);
            push_dec(buf, f as u64, 9);
        },
        SecondsFormat::AutoSi => {
            if f == 0 {
            } else if f % 1_000_000 == 0 {
                buf.push('.' as u8);
                push_dec(buf, (f / 1_000_000) as u64, 3);
            } else if f % 1_000 == 0 {
                buf.push('.' as u8);
                push_dec(buf, (f / 1_000) as u64, 6);
            } else {
                buf.push('.' as u8);
                push_dec(buf, f as u64, 9);
            }
        },
    }
}

pub(crate) fn push_offset(buf: &mut Vec<u8>, off: i32, colon: bool)
    requires
        -86400 < off < 86400,
    ensures
        final(buf)@ == old(buf)@ + offset_text(off as int, colon),
        is_ascii_text(old(buf)@) ==> is_ascii_text(final(buf)@),
{
    let a: i32 = if off < 0 {
        buf.push('-' as u8);
        -off
    } else {
        buf.push('+' as u8);
        off
    };
    push_dec(buf, (a / 3600) as u64, 2);
    if colon {
        buf.push(':' as u8);
    }
    push_dec(buf, ((a / 60) % 60) as u64, 2);
}

/// Appends RFC 3339 text of wall-clock reading `local` at offset `off`.
pub(crate) fn push_rfc3339(buf: &mut Vec<u8>, local: &NaiveDateTime, off: i32, form: SecondsFormat, use_z: bool)
    requires
        -86400 < off < 86400,
    ensures
        final(buf)@ == old(buf)@ + rfc3339_text(local@, off as int, form, use_z),
        is_ascii_text(old(buf)@) ==> is_ascii_text(final(buf)@),
{
    let (_d, secs, frac) = local.parts();
    push_date(buf, &local.date());
    buf.push('T' as u8);
    push_hms(buf, secs, frac);
    push_frac(buf, frac, form);
    if use_z && off == 0 {
        buf.push('Z' as u8);
    } else {
        push_offset(buf, off, true);
    }
}

pub(crate) fn push_weekday_abbr(buf: &mut Vec<u8>, w: u32)
    ensures
        final(buf)@ == old(buf)@ + weekday_abbr(w as int),
        is_ascii_text(old(buf)@) ==> is_ascii_text(final(buf)@),
{
    let name: Vec<u8> = if w == 0 {
        vec!['M' as u8, 'o' as u8, 'n' as u8]
    } else if w == 1 {
        vec!['T' as u8, 'u' as u8, 'e' as u8]
    } else if w == 2 {
        vec!['W' as u8, 'e' as u8, 'd' as u8]
    } else if w == 3 {
        vec!['T' as u8, 'h' as u8, 'u' as u8]
    } else if w == 4 {
        vec!['F' as u8, 'r' as u8, 'i' as u8]
    } else if w == 5 {
        vec!['S' as u8, 'a' as u8, 't' as u8]
    } else {
        vec!['S' as u8, 'u' as u8, 'n' as u8]
    };
    push_all(buf, &name);
}

pub(crate) fn push_month_abbr(buf: &mut Vec<u8>, m: u32)
    ensures
        final(buf)@ == old(buf)@ + month_abbr(m as int),
        is_ascii_text(old(buf)@) ==> is_ascii_text(final(buf)@),
{
    let name: Vec<u8> = if m == 1 {
        vec!['J' as u8, 'a' as u8, 'n' as u8]
    } else if m == 2 {
        vec!['F' as u8, 'e' as u8, 'b' as u8]
    } else if m == 3 {
        vec!['M' as u8, 'a' as u8, 'r' as u8]
    } else if m == 4 {
        vec!['A' as u8, 'p' as u8, 'r' as u8]
    } else if m == 5 {
        vec!['M' as u8, 'a' as u8, 'y' as u8]
    } else if m == 6 {
        vec!['J' as u8, 'u' as u8, 'n' as u8]
    } else if m == 7 {
        vec!['J' as u8, 'u' as u8, 'l' as u8]
    } else if m == 8 {
        vec!['A' as u8, 'u' as u8, 'g' as u8]
    } else if m == 9 {
        vec!['S' as u8, 'e' as u8, 'p' as u8]
    } else if m == 10 {
        vec!['O' as u8, 'c' as u8, 't' as u8]
    } else if m == 11 {
        vec!['N' as u8, 'o' as u8, 'v' as u8]
    } else {
        vec!['D' as u8, 'e' as u8, 'c' as u8]
    };
    push_all(buf, &name);
}

/// Appends RFC 2822 text of wall-clock reading `local` at offset `off`.
pub(crate) fn push_rfc2822(buf: &mut Vec<u8>, local: &NaiveDateTime, off: i32)
    requires
        -86400 < off < 86400,
    ensures
        final(buf)@ == old(buf)@ + rfc2822_text(local@, off as int),
        is_ascii_text(old(buf)@) ==> is_ascii_text(final(buf)@),
{
    let (_d, secs, frac) = local.parts();
    let date = local.date();
    let (y, m, d) = date.ymd();
    push_weekday_abbr(buf, date.weekday());
    buf.push(',' as u8);
    buf.push(' ' as u8);
    push_dec(buf, d as u64, 2);
    buf.push(' ' as u8);
    push_month_abbr(buf, m);
    buf.push(' ' as u8);
    push_year(buf, y);
    buf.push(' ' as u8);
    push_hms(buf, secs, frac);
    buf.push(' ' as u8);
    push_offset(buf, off, false);
}

impl<Tz: TimeZone> DateTime<Tz> {
    /// RFC 3339 text with the fraction `form` asks for; `Z` for a zero
    /// offset when `use_z` is set.
    pub fn to_rfc3339_opts(&self, form: SecondsFormat, use_z: bool) -> (r: String)
        ensures
            r@ == ascii_chars(rfc3339_text(self.spec_local(), self.spec_offset(), form, use_z)),
    {
        let mut buf: Vec<u8> = Vec::new();
        push_rfc3339(&mut buf, &self.naive_local(), self.offset().local_minus_utc(), form, use_z);
        ascii_string(buf)
    }

    /// RFC 3339 text, with the shortest exact fraction and a numeric offset.
    pub fn to_rfc3339(&self) -> (r: String)
        ensures
            r@ == ascii_chars(
                rfc3339_text(self.spec_local(), self.spec_offset(), SecondsFormat::AutoSi, false),
            ),
    {
        self.to_rfc3339_opts(SecondsFormat::AutoSi, false)
    }

    /// RFC 2822 text; a leap second shows as second 60.
    pub fn to_rfc2822(&self) -> (r: String)
        ensures
            r@ == ascii_chars(rfc2822_text(self.spec_local(), self.spec_offset())),
    {
        let mut buf: Vec<u8> = Vec::new();
        push_rfc2822(&mut buf, &self.naive_local(), self.offset().local_minus_utc());
        ascii_string(buf)
    }

    /// Date, time, and `UTC` or the offset, separated by spaces.
    pub fn to_string(&self) -> (r: String)
        ensures
            r@ == ascii_chars(
                display_text(self.spec_local(), self.spec_offset(), self.spec_tz().spec_is_utc()),
            ),
    {
        let local = self.naive_local();
        let (_d, secs, frac) = local.parts();
        let mut buf: Vec<u8> = Vec::new();
        push_date(&mut buf, &local.date());
        buf.push(' ' as u8);
        push_hms(&mut buf, secs, frac);
        push_frac(&mut buf, frac, SecondsFormat::AutoSi);
        buf.push(' ' as u8);
        if self.timezone().is_utc() {
            buf.push('U' as u8);
            buf.push('T' as u8);
            buf.push('C' as u8);
        } else {
            push_offset(&mut buf, self.offset().local_minus_utc(), true);
        }
        ascii_string(buf)
    }

    /// RFC 3339 text with the shortest exact fraction, and `Z` for the UTC
    /// zone.
    pub fn to_debug_string(&self) -> (r: String)
        ensures
            r@ == ascii_chars(
                debug_text(self.spec_local(), self.spec_offset(), self.spec_tz().spec_is_utc()),
            ),
    {
        let local = self.naive_local();
        let (_d, secs, frac) = local.parts();
        let mut buf: Vec<u8> = Vec::new();
        push_date(&mut buf, &local.date());
        buf.push('T' as u8);
        push_hms(&mut buf, secs, frac);
        push_frac(&mut buf, frac, SecondsFormat::AutoSi);
        if self.timezone().is_utc() {
            buf.push('Z' as u8);
        } else {
            push_offset(&mut buf, self.offset().local_minus_utc(), true);
        }
        ascii_string(buf)
    }
}

pub(crate) fn push_month_name(buf: &mut Vec<u8>, m: u32)
    ensures
        final(buf)@ == old(buf)@ + month_name(m as int),
        is_ascii_text(old(buf)@) ==> is_ascii_text(final(buf)@),
{
    let name: Vec<u8> = if m == 1 {
        vec!['J' as u8, 'a' as u8, 'n' as u8, 'u' as u8, 'a' as u8, 'r' as u8, 'y' as u8]
    } else if m == 2 {
        vec!['F' as u8, 'e' as u8, 'b' as u8, 'r' as u8, 'u' as u8, 'a' as u8, 'r' as u8, 'y' as u8]
    } else if m == 3 {
        vec!['M' as u8, 'a' as u8, 'r' as u8, 'c' as u8, 'h' as u8]
    } else if m == 4 {
        vec!['A' as u8, 'p' as u8, 'r' as u8, 'i' as u8, 'l' as u8]
    } else if m == 5 {
        vec!['M' as u8, 'a' as u8, 'y' as u8]
    } else if m == 6 {
        vec!['J' as u8, 'u' as u8, 'n' as u8, 'e' as u8]
    } else if m == 7 {
        vec!['J' as u8, 'u' as u8, 'l' as u8, 'y' as u8]
    } else if m == 8 {
        vec!['A' as u8, 'u' as u8, 'g' as u8, 'u' as u8, 's' as u8, 't' as u8]
    } else if m == 9 {
        vec!['S' as u8, 'e' as u8, 'p' as u8, 't' as u8, 'e' as u8, 'm' as u8, 'b' as u8, 'e' as u8, 'r' as u8]
    } else if m == 10 {
        vec!['O' as u8, 'c' as u8, 't' as u8, 'o' as u8, 'b' as u8, 'e' as u8, 'r' as u8]
    } else if m == 11 {
        vec!['N' as u8, 'o' as u8, 'v' as u8, 'e' as u8, 'm' as u8, 'b' as u8, 'e' as u8, 'r' as u8]
    } else {
        vec!['D' as u8, 'e' as u8, 'c' as u8, 'e' as u8, 'm' as u8, 'b' as u8, 'e' as u8, 'r' as u8]
    };
    push_all(buf, &name);
}

/// Appends the text of the directive or byte of `fmt` at `fi`.
#[verifier::rlimit(60)]
fn push_item(
    buf: &mut Vec<u8>,
    fmt: &[u8],
    fi: usize,
    date: &NaiveDate,
    time: Option<(u32, u32)>,
    off: Option<i32>,
    is_utc: bool,
) -> (r: Option<usize>)
    requires
        fi < fmt@.len(),
        time matches Some(t) ==> t.0 < 86400,
        off matches Some(o) ==> -86400 < o < 86400,
        is_ascii_text(fmt@),
    ensures
        match render_item(
            fmt@,
            fi as int,
            date@,
            match time {
                Some(t) => Some((t.0 as int, t.1 as int)),
                None => None,
            },
            match off {
                Some(o) => Some(o as int),
                None => None,
            },
            is_utc,
        ) {
            Some((x, f2)) => r == Some(f2 as usize) && final(buf)@ == old(buf)@ + x && f2 > fi,
            None => r is None,
        },
        is_ascii_text(old(buf)@) ==> is_ascii_text(final(buf)@),
{
    let c = fmt[fi];
    if c != 37 {
        buf.push(c);
        return Some(fi + 1);
    }
    if fi + 1 >= fmt.len() {
        return None;
    }
    let d = fmt[fi + 1];
    let (y, m, dd) = date.ymd();
    if d == 89 {
        push_year(buf, y);
    } else if d == 109 {
        push_dec(buf, m as u64, 2);
    } else if d == 100 {
        push_dec(buf, dd as u64, 2);
    } else if d == 66 {
        push_month_name(buf, m);
    } else if d == 98 {
        push_month_abbr(buf, m);
    } else if d == 97 {
        push_weekday_abbr(buf, date.weekday());
    } else if d == 37 {
        buf.push('%' as u8);
    } else if d == 72 || d == 77 || d == 83 {
        match time {
            None => return None,
            Some((secs, frac)) => {
                if d == 72 {
                    push_dec(buf, (secs / 3600) as u64, 2);
                } else if d == 77 {
                    push_dec(buf, ((secs / 60) % 60) as u64, 2);
                } else {
                    let sf: u32 = secs % 60 + if frac >= 1_000_000_000 { 1 } else { 0 };
                    push_dec(buf, sf as u64, 2);
                }
            },
        }
    } else if d == 90 {
        if is_utc {
            buf.push('U' as u8);
            buf.push('T' as u8);
            buf.push('C' as u8);
        } else {
            match off {
                Some(o) => push_offset(buf, o, true),
                None => return None,
            }
        }
    } else if d == 122 {
        match off {
            Some(o) => push_offset(buf, o, false),
            None => return None,
        }
    } else {
        return None;
    }
    Some(fi + 2)
}

/// Appends the rendering of `fmt`; absent where a directive cannot be
/// rendered.
fn push_format(
    buf: &mut Vec<u8>,
    fmt: &[u8],
    date: &NaiveDate,
    time: Option<(u32, u32)>,
    off: Option<i32>,
    is_utc: bool,
) -> (r: bool)
    requires
        time matches Some(t) ==> t.0 < 86400,
        off matches Some(o) ==> -86400 < o < 86400,
        is_ascii_text(fmt@),
        is_ascii_text(old(buf)@),
    ensures
        r <==> render(
            fmt@,
            0,
            date@,
            match time {
                Some(t) => Some((t.0 as int, t.1 as int)),
                None => None,
            },
            match off {
                Some(o) => Some(o as int),
                None => None,
            },
            is_utc,
            old(buf)@,
        ) is Some,
        r ==> Some(final(buf)@) == render(
            fmt@,
            0,
            date@,
            match time {
                Some(t) => Some((t.0 as int, t.1 as int)),
                None => None,
            },
            match off {
                Some(o) => Some(o as int),
                None => None,
            },
            is_utc,
            old(buf)@,
        ),
        is_ascii_text(final(buf)@),
{
    let ghost tm = match time {
        Some(t) => Some((t.0 as int, t.1 as int)),
        None => None,
    };
    let ghost of = match off {
        Some(o) => Some(o as int),
        None => None,
    };
    let mut fi: usize = 0;
    while fi < fmt.len()
        invariant
            fi <= fmt@.len(),
            time matches Some(t) ==> t.0 < 86400,
            off matches Some(o) ==> -86400 < o < 86400,
            is_ascii_text(fmt@),
            is_ascii_text(buf@),
            tm == match time {
                Some(t) => Some((t.0 as int, t.1 as int)),
                None => None,
            },
            of == match off {
                Some(o) => Some(o as int),
                None => None,
            },
            render(fmt@, fi as int, date@, tm, of, is_utc, buf@) == render(
                fmt@,
                0,
                date@,
                tm,
                of,
                is_utc,
                old(buf)@,
            ),
        decreases fmt@.len() - fi,
    {
        let ghost prev = buf@;
        let ghost item = render_item(fmt@, fi as int, date@, tm, of, is_utc);
        match push_item(buf, fmt, fi, date, time, off, is_utc) {
            Some(f2) => {
                proof {
                    let (x, g) = item->Some_0;
                    assert(render(fmt@, fi as int, date@, tm, of, is_utc, prev) == render(
                        fmt@,
                        g,
                        date@,
                        tm,
                        of,
                        is_utc,
                        prev + x,
                    ));
                }
                fi = f2;
            },
            None => {
                assert(render(fmt@, fi as int, date@, tm, of, is_utc, prev) is None);
                return false;
            },
        }
    }
    true
}

/// Appends `fill` `n` times.
fn push_fill(buf: &mut Vec<u8>, fill: u8, n: usize)
    ensures
        final(buf)@ == old(buf)@ + Seq::new(n as nat, |_i: int| fill),
        is_ascii_text(old(buf)@) && fill < 128 ==> is_ascii_text(final(buf)@),
{
    let mut i: usize = 0;
    while i < n
        invariant
            i <= n,
            buf@ == old(buf)@ + Seq::new(i as nat, |_i: int| fill),
            is_ascii_text(old(buf)@) && fill < 128 ==> is_ascii_text(buf@),
        decreases n - i,
    {
        buf.push(fill);
        i = i + 1;
        assert(buf@ == old(buf)@ + Seq::new(i as nat, |_i: int| fill));
    }
}

/// `t` in a field `width` bytes wide.
pub fn align_text(t: Vec<u8>, width: usize, a: Alignment, fill: u8) -> (r: Vec<u8>)
    ensures
        r@ == aligned(t@, width as nat, a, fill),
        is_ascii_text(t@) && fill < 128 ==> is_ascii_text(r@),
{
    if t.len() >= width {
        return t;
    }
    let pad = width - t.len();
    let left: usize = match a {
        Alignment::Left => 0,
        Alignment::Right => pad,
        Alignment::Center => pad / 2,
    };
    let mut out: Vec<u8> = Vec::new();
    push_fill(&mut out, fill, left);
    push_all(&mut out, &t);
    push_fill(&mut out, fill, pad - left);
    out
}

impl<Tz: TimeZone> DateTime<Tz> {
    /// The wall-clock reading rendered by format `fmt` (ASCII), in a field
    /// `width` bytes wide; absent where a directive is unknown.
    pub fn format_aligned(&self, fmt: &str, width: usize, a: Alignment, fill: u8) -> (r: Option<String>)
        requires
            is_ascii_text(fmt.spec_bytes()),
            fill < 128,
        ensures
            r is Some <==> render(
                fmt.spec_bytes(),
                0,
                self.spec_local().0,
                Some((self.spec_local().1, self.spec_local().2)),
                Some(self.spec_offset()),
                self.spec_tz().spec_is_utc(),
                seq![],
            ) is Some,
            r matches Some(t) ==> t@ == ascii_chars(
                aligned(
                    render(
                        fmt.spec_bytes(),
                        0,
                        self.spec_local().0,
                        Some((self.spec_local().1, self.spec_local().2)),
                        Some(self.spec_offset()),
                        self.spec_tz().spec_is_utc(),
                        seq![],
                    )->Some_0,
                    width as nat,
                    a,
                    fill,
                ),
            ),
    {
        let local = self.naive_local();
        let (_d, secs, frac) = local.parts();
        let mut buf: Vec<u8> = Vec::new();
        let ok = push_format(
            &mut buf,
            fmt.as_bytes(),
            &local.date(),
            Some((secs, frac)),
            Some(self.offset().local_minus_utc()),
            self.timezone().is_utc(),
        );
        if !ok {
            return None;
        }
        Some(ascii_string(align_text(buf, width, a, fill)))
    }

    /// The wall-clock reading rendered by format `fmt` (ASCII).
    pub fn format(&self, fmt: &str) -> (r: Option<String>)
        requires
            is_ascii_text(fmt.spec_bytes()),
        ensures
            r is Some <==> render(
                fmt.spec_bytes(),
                0,
                self.spec_local().0,
                Some((self.spec_local().1, self.spec_local().2)),
                Some(self.spec_offset()),
                self.spec_tz().spec_is_utc(),
                seq![],
            ) is Some,
            r matches Some(t) ==> t@ == ascii_chars(
                render(
                    fmt.spec_bytes(),
                    0,
                    self.spec_local().0,
                    Some((self.spec_local().1, self.spec_local().2)),
                    Some(self.spec_offset()),
                    self.spec_tz().spec_is_utc(),
                    seq![],
                )->Some_0,
            ),
    {
        self.format_aligned(fmt, 0, Alignment::Left, 32)
    }
}

/// The text of a day: its date, a space, and `UTC` or the zone's offset.
pub open spec fn day_text(n: int, off: int, is_utc: bool) -> Seq<u8> {
    date_text(n) + seq![' ' as u8] + if is_utc {
        seq!['U' as u8, 'T' as u8, 'C' as u8]
    } else {
        offset_text(off, true)
    }
}

impl<Tz: TimeZone> Day<Tz> {
    /// The date, a space, and `UTC` or the offset the zone has at the start
    /// of the date in UTC.
    pub fn to_string(&self) -> (r: String)
        ensures
            r@ == ascii_chars(
                day_text(
                    self.spec_date(),
                    self.spec_tz().spec_offset_at_utc((self.spec_date(), 0, 0)),
                    self.spec_tz().spec_is_utc(),
                ),
            ),
    {
        let date = self.date();
        let midnight = date.and_time(NaiveTime::from_num_seconds_from_midnight_opt(0, 0).unwrap());
        let mut buf: Vec<u8> = Vec::new();
        push_date(&mut buf, &date);
        buf.push(' ' as u8);
        if self.zone().is_utc() {
            buf.push('U' as u8);
            buf.push('T' as u8);
            buf.push('C' as u8);
        } else {
            push_offset(&mut buf, self.zone().offset_from_utc_datetime(&midnight).local_minus_utc(), true);
        }
        ascii_string(buf)
    }

    /// The date rendered by format `fmt` (ASCII), in a field `width` bytes
    /// wide; absent where a directive is unknown or needs a time of day, or
    /// an offset the zone does not fix.
    pub fn format_aligned(&self, fmt: &str, width: usize, a: Alignment, fill: u8) -> (r: Option<String>)
        requires
            is_ascii_text(fmt.spec_bytes()),
            fill < 128,
        ensures
            r is Some <==> render(
                fmt.spec_bytes(),
                0,
                self.spec_date(),
                None,
                if self.spec_tz().spec_is_utc() { Some(0) } else { None },
                self.spec_tz().spec_is_utc(),
                seq![],
            ) is Some,
            r matches Some(t) ==> t@ == ascii_chars(
                aligned(
                    render(
                        fmt.spec_bytes(),
                        0,
                        self.spec_date(),
                        None,
                        if self.spec_tz().spec_is_utc() { Some(0) } else { None },
                        self.spec_tz().spec_is_utc(),
                        seq![],
                    )->Some_0,
                    width as nat,
                    a,
                    fill,
                ),
            ),
    {
        let utc = self.zone().is_utc();
        let off: Option<i32> = if utc { Some(0) } else { None };
        let mut buf: Vec<u8> = Vec::new();
        let ok = push_format(&mut buf, fmt.as_bytes(), &self.date(), None, off, utc);
        if !ok {
            return None;
        }
        Some(ascii_string(align_text(buf, width, a, fill)))
    }
}

} // verus!

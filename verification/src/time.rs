//! Shanghai (UTC+8) wall-clock time: reading the clock, the text forms the
//! service writes, and the `HH:MM` schedule format.

use chrono::{Datelike, Timelike};
use vstd::prelude::*;

use crate::text::{
    chars_of, decimal, digit_char, digit_value, digits_value, is_digit, find_char, first_index_of, is_ws,
    lex_le, parse_u32, push_zero_padded, string_from_chars, sub_chars, trim, trim_chars,
    trim_end, trim_start, unsigned_digits, zero_padded,
};

verus! {

#[verifier::external_type_specification]
#[verifier::external_body]
pub struct ExFixedOffset(chrono::FixedOffset);

/// The fixed UTC+8 offset.
///
/// Calls `chrono::FixedOffset::east_opt(8 * 3600)`, which chrono documents as
/// `Some` for offsets within a day; nothing is claimed of the value.
#[verifier::external_body]
pub fn shanghai_offset() -> chrono::FixedOffset {
    chrono::FixedOffset::east_opt(8 * 3600).expect("UTC+8")
}

/// A calendar date and time of day in Shanghai.
pub struct ShanghaiTime {
    pub year: i32,
    pub month: u32,
    pub day: u32,
    pub hour: u32,
    pub minute: u32,
    pub second: u32,
}

impl ShanghaiTime {
    /// Fields in their calendar ranges.
    pub open spec fn wf(&self) -> bool {
        &&& 1 <= self.month <= 12
        &&& 1 <= self.day <= 31
        &&& self.hour < 24
        &&& self.minute < 60
        &&& self.second < 60
    }
}

/// The current time at `offset` (the service passes UTC+8).
///
/// Reads `chrono::Utc::now()` and converts it with `with_timezone` to `offset`;
/// the fields come from chrono's `Datelike`/`Timelike` accessors, whose
/// documented ranges are what the contract states. The value depends on the
/// clock, so nothing more is claimed.
#[verifier::external_body]
pub fn now_shanghai(offset: chrono::FixedOffset) -> (t: ShanghaiTime)
    ensures
        t.wf(),
{
    let now = chrono::Utc::now().with_timezone(&offset);
    ShanghaiTime {
        year: now.year(),
        month: now.month(),
        day: now.day(),
        hour: now.hour(),
        minute: now.minute(),
        second: now.second(),
    }
}

/// `%Y`: four digits for years 0 to 9999, otherwise a sign and at least four digits.
pub open spec fn year_text(y: int) -> Seq<char> {
    if 0 <= y < 10000 {
        zero_padded(y as nat, 4)
    } else if y < 0 {
        seq!['-'] + zero_padded((-y) as nat, 4)
    } else {
        seq!['+'] + zero_padded(y as nat, 4)
    }
}

/// A two-digit zero-padded field (`%m`, `%d`, `%H`, `%M`, `%S`).
pub open spec fn two(n: nat) -> Seq<char> {
    zero_padded(n, 2)
}

/// `%Y-%m-%d`.
pub open spec fn date_spec(t: ShanghaiTime) -> Seq<char> {
    year_text(t.year as int) + seq!['-'] + two(t.month as nat) + seq!['-'] + two(t.day as nat)
}

/// `%H:%M`.
pub open spec fn hhmm_spec(h: nat, m: nat) -> Seq<char> {
    two(h) + seq![':'] + two(m)
}

/// `%H:%M:%S`.
pub open spec fn clock_spec(t: ShanghaiTime) -> Seq<char> {
    hhmm_spec(t.hour as nat, t.minute as nat) + seq![':'] + two(t.second as nat)
}

/// `%Y-%m-%dT%H:%M:%S+08:00`.
pub open spec fn datetime_spec(t: ShanghaiTime) -> Seq<char> {
    date_spec(t) + seq!['T'] + clock_spec(t) + seq!['+', '0', '8', ':', '0', '0']
}

/// `%Y/%m/%d %H:%M:%S`.
pub open spec fn log_ts_spec(t: ShanghaiTime) -> Seq<char> {
    year_text(t.year as int) + seq!['/'] + two(t.month as nat) + seq!['/'] + two(t.day as nat)
        + seq![' '] + clock_spec(t)
}

fn push_year(out: &mut Vec<char>, y: i32)
    ensures
        final(out)@ == old(out)@ + year_text(y as int),
{
    if 0 <= y && y < 10000 {
        push_zero_padded(out, y as u64, 4);
    } else if y < 0 {
        let ghost start = out@;
        out.push('-');
        let a: u64 = (-(y as i64)) as u64;
        push_zero_padded(out, a, 4);
        assert(out@ =~= start + (seq!['-'] + zero_padded((-y) as nat, 4)));
    } else {
        let ghost start = out@;
        out.push('+');
        push_zero_padded(out, y as u64, 4);
        assert(out@ =~= start + (seq!['+'] + zero_padded(y as nat, 4)));
    }
}

fn push_date(out: &mut Vec<char>, t: &ShanghaiTime, sep: char)
    ensures
        final(out)@ == old(out)@ + year_text(t.year as int) + seq![sep] + two(t.month as nat)
            + seq![sep] + two(t.day as nat),
{
    let ghost start = out@;
    push_year(out, t.year);
    out.push(sep);
    push_zero_padded(out, t.month as u64, 2);
    out.push(sep);
    push_zero_padded(out, t.day as u64, 2);
    assert(out@ =~= start + year_text(t.year as int) + seq![sep] + two(t.month as nat) + seq![
        sep,
    ] + two(t.day as nat));
}

fn push_clock(out: &mut Vec<char>, t: &ShanghaiTime)
    ensures
        final(out)@ == old(out)@ + clock_spec(*t),
{
    let ghost start = out@;
    push_zero_padded(out, t.hour as u64, 2);
    out.push(':');
    push_zero_padded(out, t.minute as u64, 2);
    out.push(':');
    push_zero_padded(out, t.second as u64, 2);
    assert(out@ =~= start + clock_spec(*t));
}

/// `2026-08-21T12:00:00+08:00` for `t`.
pub fn datetime_text(t: &ShanghaiTime) -> (s: String)
    ensures
        s@ == datetime_spec(*t),
{
    let mut out: Vec<char> = Vec::new();
    push_date(&mut out, t, '-');
    out.push('T');
    push_clock(&mut out, t);
    let ghost mid = out@;
    out.push('+');
    out.push('0');
    out.push('8');
    out.push(':');
    out.push('0');
    out.push('0');
    assert(out@ =~= datetime_spec(*t));
    string_from_chars(&out)
}

/// `2026-08-21` for `t`.
pub fn date_text(t: &ShanghaiTime) -> (s: String)
    ensures
        s@ == date_spec(*t),
{
    let mut out: Vec<char> = Vec::new();
    push_date(&mut out, t, '-');
    assert(out@ =~= date_spec(*t));
    string_from_chars(&out)
}

/// `12:00` for `t`.
pub fn hhmm_text(t: &ShanghaiTime) -> (s: String)
    ensures
        s@ == hhmm_spec(t.hour as nat, t.minute as nat),
{
    let mut out: Vec<char> = Vec::new();
    push_zero_padded(&mut out, t.hour as u64, 2);
    out.push(':');
    push_zero_padded(&mut out, t.minute as u64, 2);
    assert(out@ =~= hhmm_spec(t.hour as nat, t.minute as nat));
    string_from_chars(&out)
}

/// `2026/08/21 12:00:00` for `t`.
pub fn log_ts_text(t: &ShanghaiTime) -> (s: String)
    ensures
        s@ == log_ts_spec(*t),
{
    let mut out: Vec<char> = Vec::new();
    push_date(&mut out, t, '/');
    out.push(' ');
    push_clock(&mut out, t);
    assert(out@ =~= log_ts_spec(*t));
    string_from_chars(&out)
}

/// The current Shanghai time as `2026-08-21T12:00:00+08:00`.
pub fn shanghai_datetime() -> (s: String)
    ensures
        exists|t: ShanghaiTime| t.wf() && s@ == datetime_spec(t),
{
    let t = now_shanghai(shanghai_offset());
    datetime_text(&t)
}

/// The current Shanghai date as `2026-08-21`.
pub fn shanghai_date() -> (s: String)
    ensures
        exists|t: ShanghaiTime| t.wf() && s@ == date_spec(t),
{
    let t = now_shanghai(shanghai_offset());
    date_text(&t)
}

/// The current Shanghai time of day as `12:00`.
pub fn shanghai_hhmm() -> (s: String)
    ensures
        exists|h: nat, m: nat| h < 24 && m < 60 && s@ == hhmm_spec(h, m),
{
    let t = now_shanghai(shanghai_offset());
    hhmm_text(&t)
}

/// The current Shanghai time as `2026/08/21 12:00:00`.
pub fn log_ts() -> (s: String)
    ensures
        exists|t: ShanghaiTime| t.wf() && s@ == log_ts_spec(t),
{
    let t = now_shanghai(shanghai_offset());
    log_ts_text(&t)
}


/// `HH:MM` as the schedule fields accept it: two ASCII digits, a colon and
/// two ASCII digits, the hour below 24 and the minute below 60.
pub open spec fn valid_hhmm_spec(s: Seq<char>) -> bool {
    &&& s.len() == 5
    &&& s[2] == ':'
    &&& is_digit(s[0]) && is_digit(s[1]) && is_digit(s[3]) && is_digit(s[4])
    &&& digit_value(s[0]) * 10 + digit_value(s[1]) < 24
    &&& digit_value(s[3]) * 10 + digit_value(s[4]) < 60
}

/// Whether `c` is an ASCII decimal digit.
fn ascii_digit(c: char) -> (b: bool)
    ensures
        b == is_digit(c),
{
    '0' <= c && c <= '9'
}

/// The value of an ASCII digit.
fn ascii_digit_value(c: char) -> (d: u32)
    requires
        is_digit(c),
    ensures
        d == digit_value(c),
        d < 10,
{
    (c as u32) - 48
}

/// Checks the `HH:MM` format of a schedule time.
pub fn valid_hhmm(t: &str) -> (r: bool)
    ensures
        r == valid_hhmm_spec(t@),
{
    let v = chars_of(t);
    if v.len() != 5 || v[2] != ':' {
        return false;
    }
    if !(ascii_digit(v[0]) && ascii_digit(v[1]) && ascii_digit(v[3]) && ascii_digit(v[4])) {
        return false;
    }
    let h = ascii_digit_value(v[0]) * 10 + ascii_digit_value(v[1]);
    let m = ascii_digit_value(v[3]) * 10 + ascii_digit_value(v[4]);
    h < 24 && m < 60
}

/// What `normalize_hhmm` makes of `s`: the trimmed text is split at its first
/// colon, both sides are trimmed and parsed as unsigned integers, and an hour
/// up to 23 with a minute up to 59 gives the zero-padded `HH:MM`.
pub open spec fn normalize_hhmm_spec(s: Seq<char>) -> Option<Seq<char>> {
    let t = trim(s);
    if t.len() == 0 {
        None
    } else {
        match first_index_of(t, ':') {
            None => None,
            Some(i) => match (
                parse_u32(trim(t.subrange(0, i))),
                parse_u32(trim(t.subrange(i + 1, t.len() as int))),
            ) {
                (Some(h), Some(m)) => if h > 23 || m > 59 {
                    None
                } else {
                    Some(hhmm_spec(h as nat, m as nat))
                },
                _ => None,
            },
        }
    }
}

/// Normalizes `H:M` or `HH:MM` (with surrounding spaces) to zero-padded
/// `HH:MM`; `None` for anything else.
pub fn normalize_hhmm(s: &str) -> (r: Option<String>)
    ensures
        match r {
            Some(x) => normalize_hhmm_spec(s@) == Some(x@),
            None => normalize_hhmm_spec(s@) is None,
        },
{
    let v = chars_of(s);
    let t = trim_chars(&v);
    if t.len() == 0 {
        return None;
    }
    let i = match find_char(&t, ':') {
        Some(i) => i,
        None => return None,
    };
    let hs = trim_chars(&sub_chars(&t, 0, i));
    let ms = trim_chars(&sub_chars(&t, i + 1, t.len()));
    let h = match crate::text::parse_u32_chars(&hs) {
        Some(h) => h,
        None => return None,
    };
    let m = match crate::text::parse_u32_chars(&ms) {
        Some(m) => m,
        None => return None,
    };
    if h > 23 || m > 59 {
        return None;
    }
    let mut out: Vec<char> = Vec::new();
    push_zero_padded(&mut out, h as u64, 2);
    out.push(':');
    push_zero_padded(&mut out, m as u64, 2);
    assert(out@ =~= hhmm_spec(h as nat, m as nat));
    Some(string_from_chars(&out))
}

/// A number below 100 as two digits.
pub proof fn lemma_two_digits(n: nat)
    requires
        n < 100,
    ensures
        two(n) == seq![digit_char((n / 10) as int), digit_char((n % 10) as int)],
        parse_u32(two(n)) == Some(n as u32),
{
    reveal_with_fuel(decimal, 2);
    reveal_with_fuel(digits_value, 3);
    if n < 10 {
        assert(decimal(n) =~= seq![digit_char(n as int)]);
        assert(two(n) =~= seq![digit_char(0), digit_char(n as int)]);
    } else {
        assert(decimal(n / 10) =~= seq![digit_char((n / 10) as int)]);
        assert(two(n) =~= seq![digit_char((n / 10) as int), digit_char((n % 10) as int)]);
    }
    let s = two(n);
    assert(unsigned_digits(s) == s);
    assert(s.drop_last() =~= seq![digit_char((n / 10) as int)]);
    assert(s.drop_last().drop_last() =~= Seq::<char>::empty());
    assert(digit_value(digit_char((n / 10) as int)) == n / 10);
    assert(digit_value(digit_char((n % 10) as int)) == n % 10);
    assert(digits_value(s.drop_last()) == n / 10);
    assert(digits_value(s) == n);
}

/// A normalized time is a valid `HH:MM`, and normalizing it again gives it back.
pub proof fn lemma_normalized_is_fixed_point(s: Seq<char>)
    requires
        normalize_hhmm_spec(s) is Some,
    ensures
        valid_hhmm_spec(normalize_hhmm_spec(s)->0),
        normalize_hhmm_spec(normalize_hhmm_spec(s)->0) == normalize_hhmm_spec(s),
{
    let t = trim(s);
    let i = first_index_of(t, ':')->0;
    let h = parse_u32(trim(t.subrange(0, i)))->0;
    let m = parse_u32(trim(t.subrange(i + 1, t.len() as int)))->0;
    lemma_hhmm_fixed_point(h as nat, m as nat);
}

/// `hhmm_spec(h, m)` is valid and normalizes to itself.
pub proof fn lemma_hhmm_fixed_point(h: nat, m: nat)
    requires
        h < 24,
        m < 60,
    ensures
        valid_hhmm_spec(hhmm_spec(h, m)),
        normalize_hhmm_spec(hhmm_spec(h, m)) == Some(hhmm_spec(h, m)),
{
    lemma_two_digits(h);
    lemma_two_digits(m);
    let r = hhmm_spec(h, m);
    assert(r =~= seq![
        digit_char((h / 10) as int),
        digit_char((h % 10) as int),
        ':',
        digit_char((m / 10) as int),
        digit_char((m % 10) as int),
    ]);
    assert(r.subrange(0, 2) =~= two(h));
    assert(r.subrange(3, 5) =~= two(m));
    assert(!is_ws(r[0]));
    assert(trim_start(r) == r);
    assert(!is_ws(r.last()));
    assert(trim_end(r) == r);
    assert(trim(r) == r);
    assert(r[2] == ':');
    assert(r[0] != ':');
    assert(r[1] != ':');
    let w = choose|k: int| 0 <= k < r.len() && r[k] == ':' && forall|j: int| 0 <= j < k ==> r[j] != ':';
    assert(0 <= 2 < r.len() && r[2] == ':' && forall|j: int| 0 <= j < 2 ==> r[j] != ':');
    if w < 2 {
        assert(r[w] != ':');
    }
    if w > 2 {
        assert(r[2] != ':');
    }
    assert(first_index_of(r, ':') == Some(2int));
    let a = r.subrange(0, 2);
    let b = r.subrange(3, 5);
    assert(!is_ws(a[0]) && !is_ws(a.last()));
    assert(trim_start(a) == a);
    assert(trim_end(a) == a);
    assert(!is_ws(b[0]) && !is_ws(b.last()));
    assert(trim_start(b) == b);
    assert(trim_end(b) == b);
    assert(r.subrange(3, r.len() as int) =~= b);
}

proof fn lemma_digit_code(k: int)
    requires
        0 <= k < 10,
    ensures
        digit_char(k) as u32 == 48 + k,
{
}

/// One step of the lexicographic comparison.
proof fn lemma_lex_step(a: Seq<char>, b: Seq<char>)
    requires
        a.len() > 0,
        b.len() > 0,
    ensures
        lex_le(a, b) == ((a[0] as u32) < (b[0] as u32) || ((a[0] as u32) == (b[0] as u32)
            && lex_le(a.drop_first(), b.drop_first()))),
{
}

proof fn lemma_lex_five(x1: int, y1: int, u1: int, w1: int, x2: int, y2: int, u2: int, w2: int)
    requires
        0 <= x1 < 10,
        0 <= y1 < 10,
        0 <= u1 < 10,
        0 <= w1 < 10,
        0 <= x2 < 10,
        0 <= y2 < 10,
        0 <= u2 < 10,
        0 <= w2 < 10,
    ensures
        lex_le(
            seq![digit_char(x1), digit_char(y1), ':', digit_char(u1), digit_char(w1)],
            seq![digit_char(x2), digit_char(y2), ':', digit_char(u2), digit_char(w2)],
        ) == (x1 < x2 || (x1 == x2 && (y1 < y2 || (y1 == y2 && (u1 < u2 || (u1 == u2 && w1
            <= w2)))))),
{
    lemma_digit_code(x1);
    lemma_digit_code(y1);
    lemma_digit_code(u1);
    lemma_digit_code(w1);
    lemma_digit_code(x2);
    lemma_digit_code(y2);
    lemma_digit_code(u2);
    lemma_digit_code(w2);
    let a4 = seq![digit_char(w1)];
    let b4 = seq![digit_char(w2)];
    let a3 = seq![digit_char(u1), digit_char(w1)];
    let b3 = seq![digit_char(u2), digit_char(w2)];
    let a2 = seq![':', digit_char(u1), digit_char(w1)];
    let b2 = seq![':', digit_char(u2), digit_char(w2)];
    let a1 = seq![digit_char(y1), ':', digit_char(u1), digit_char(w1)];
    let b1 = seq![digit_char(y2), ':', digit_char(u2), digit_char(w2)];
    let a = seq![digit_char(x1), digit_char(y1), ':', digit_char(u1), digit_char(w1)];
    let b = seq![digit_char(x2), digit_char(y2), ':', digit_char(u2), digit_char(w2)];
    assert(a4.drop_first() =~= Seq::<char>::empty());
    assert(b4.drop_first() =~= Seq::<char>::empty());
    assert(lex_le(Seq::<char>::empty(), Seq::<char>::empty()));
    lemma_lex_step(a4, b4);
    assert(a3.drop_first() =~= a4);
    assert(b3.drop_first() =~= b4);
    lemma_lex_step(a3, b3);
    assert(a2.drop_first() =~= a3);
    assert(b2.drop_first() =~= b3);
    lemma_lex_step(a2, b2);
    assert(a1.drop_first() =~= a2);
    assert(b1.drop_first() =~= b2);
    lemma_lex_step(a1, b1);
    assert(a.drop_first() =~= a1);
    assert(b.drop_first() =~= b1);
    lemma_lex_step(a, b);
}

/// Normalized times compare as text exactly as they compare as times of day.
pub proof fn lemma_hhmm_order(h1: nat, m1: nat, h2: nat, m2: nat)
    requires
        h1 < 24,
        m1 < 60,
        h2 < 24,
        m2 < 60,
    ensures
        lex_le(hhmm_spec(h1, m1), hhmm_spec(h2, m2)) <==> h1 * 60 + m1 <= h2 * 60 + m2,
{
    lemma_two_digits(h1);
    lemma_two_digits(m1);
    lemma_two_digits(h2);
    lemma_two_digits(m2);
    let (x1, y1, u1, w1) = ((h1 / 10) as int, (h1 % 10) as int, (m1 / 10) as int, (m1 % 10) as int);
    let (x2, y2, u2, w2) = ((h2 / 10) as int, (h2 % 10) as int, (m2 / 10) as int, (m2 % 10) as int);
    assert(hhmm_spec(h1, m1) =~= seq![digit_char(x1), digit_char(y1), ':', digit_char(u1), digit_char(w1)]);
    assert(hhmm_spec(h2, m2) =~= seq![digit_char(x2), digit_char(y2), ':', digit_char(u2), digit_char(w2)]);
    lemma_lex_five(x1, y1, u1, w1, x2, y2, u2, w2);
    assert(h1 == 10 * x1 + y1);
    assert(h2 == 10 * x2 + y2);
    assert(m1 == 10 * u1 + w1);
    assert(m2 == 10 * u2 + w2);
}

} // verus!

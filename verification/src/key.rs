//! Migration keys: the date and time at which a migration was defined.
use chrono::{Datelike, NaiveDate, NaiveDateTime, NaiveTime, Timelike};
use vstd::prelude::*;

verus! {

/// The fields of a key as a tuple, in the order in which keys are compared:
/// year, month, day, hour, minute, second, nanosecond.
pub type KeyCode = (i32, u32, u32, u32, u32, u32, u32);

/// The smallest year of a calendar date.
pub const MIN_YEAR: i32 = -262143;

/// The largest year of a calendar date.
pub const MAX_YEAR: i32 = 262142;

/// A leap second is represented by a nanosecond value of at least this amount.
pub const NANOS_PER_SECOND: u32 = 1_000_000_000;

/// The key of a migration: a date and a time of the proleptic Gregorian
/// calendar, without time zone.
#[derive(Debug, Clone, Copy, PartialEq, Eq, Structural)]
pub struct MigrationKey {
    pub year: i32,
    pub month: u32,
    pub day: u32,
    pub hour: u32,
    pub minute: u32,
    pub second: u32,
    pub nanosecond: u32,
}

pub open spec fn is_leap_year(year: int) -> bool {
    year % 4 == 0 && (year % 100 != 0 || year % 400 == 0)
}

pub open spec fn days_in_month(year: int, month: int) -> int {
    if month == 2 {
        if is_leap_year(year) {
            29
        } else {
            28
        }
    } else if month == 4 || month == 6 || month == 9 || month == 11 {
        30
    } else {
        31
    }
}

/// A day of the calendar.
pub open spec fn is_valid_date(year: int, month: int, day: int) -> bool {
    &&& MIN_YEAR <= year <= MAX_YEAR
    &&& 1 <= month <= 12
    &&& 1 <= day <= days_in_month(year, month)
}

/// A time of the day; a leap second is the second 59 with a nanosecond of one
/// second or more.
pub open spec fn is_valid_time(hour: int, minute: int, second: int, nanosecond: int) -> bool {
    &&& 0 <= hour < 24
    &&& 0 <= minute < 60
    &&& 0 <= second < 60
    &&& 0 <= nanosecond < 2 * NANOS_PER_SECOND
    &&& nanosecond >= NANOS_PER_SECOND ==> second == 59
}

/// Lexicographic order of key codes, which is the chronological order of keys.
pub open spec fn code_lt(a: KeyCode, b: KeyCode) -> bool {
    ||| a.0 < b.0
    ||| a.0 == b.0 && a.1 < b.1
    ||| a.0 == b.0 && a.1 == b.1 && a.2 < b.2
    ||| a.0 == b.0 && a.1 == b.1 && a.2 == b.2 && a.3 < b.3
    ||| a.0 == b.0 && a.1 == b.1 && a.2 == b.2 && a.3 == b.3 && a.4 < b.4
    ||| a.0 == b.0 && a.1 == b.1 && a.2 == b.2 && a.3 == b.3 && a.4 == b.4 && a.5 < b.5
    ||| a.0 == b.0 && a.1 == b.1 && a.2 == b.2 && a.3 == b.3 && a.4 == b.4 && a.5 == b.5
        && a.6 < b.6
}

/// Compares two key codes: `true` when `a` comes before `b`.
pub fn code_before(a: &KeyCode, b: &KeyCode) -> (r: bool)
    ensures
        r == code_lt(*a, *b),
{
    if a.0 != b.0 {
        a.0 < b.0
    } else if a.1 != b.1 {
        a.1 < b.1
    } else if a.2 != b.2 {
        a.2 < b.2
    } else if a.3 != b.3 {
        a.3 < b.3
    } else if a.4 != b.4 {
        a.4 < b.4
    } else if a.5 != b.5 {
        a.5 < b.5
    } else {
        a.6 < b.6
    }
}

pub proof fn lemma_code_lt_total(a: KeyCode, b: KeyCode)
    ensures
        code_lt(a, b) || code_lt(b, a) || a == b,
        !(code_lt(a, b) && code_lt(b, a)),
        !code_lt(a, a),
{
}

pub proof fn lemma_code_lt_transitive(a: KeyCode, b: KeyCode, c: KeyCode)
    requires
        code_lt(a, b),
        code_lt(b, c),
    ensures
        code_lt(a, c),
{
}

impl MigrationKey {
    pub open spec fn code(self) -> KeyCode {
        (self.year, self.month, self.day, self.hour, self.minute, self.second, self.nanosecond)
    }

    pub open spec fn from_code(code: KeyCode) -> MigrationKey {
        MigrationKey {
            year: code.0,
            month: code.1,
            day: code.2,
            hour: code.3,
            minute: code.4,
            second: code.5,
            nanosecond: code.6,
        }
    }

    /// A date and time that exists in the calendar.
    pub open spec fn is_valid(self) -> bool {
        is_valid_date(self.year as int, self.month as int, self.day as int) && is_valid_time(
            self.hour as int,
            self.minute as int,
            self.second as int,
            self.nanosecond as int,
        )
    }

    /// The key has no fraction of a second (a leap second counts as whole).
    pub open spec fn is_whole_second(self) -> bool {
        self.nanosecond == 0 || (self.second == 59 && self.nanosecond == NANOS_PER_SECOND)
    }

    pub fn key_code(&self) -> (code: KeyCode)
        ensures
            code == self.code(),
    {
        (self.year, self.month, self.day, self.hour, self.minute, self.second, self.nanosecond)
    }

    pub fn of_code(code: &KeyCode) -> (key: MigrationKey)
        ensures
            key == MigrationKey::from_code(*code),
            key.code() == *code,
    {
        MigrationKey {
            year: code.0,
            month: code.1,
            day: code.2,
            hour: code.3,
            minute: code.4,
            second: code.5,
            nanosecond: code.6,
        }
    }

    /// `true` when the key is a date and time that exists in the calendar.
    pub fn check_valid(&self) -> (b: bool)
        ensures
            b == self.is_valid(),
    {
        let y = self.year;
        if y < MIN_YEAR || y > MAX_YEAR || self.month < 1 || self.month > 12 || self.day < 1 {
            return false;
        }
        let leap = y % 4 == 0 && (y % 100 != 0 || y % 400 == 0);
        let days: u32 = if self.month == 2 {
            if leap {
                29
            } else {
                28
            }
        } else if self.month == 4 || self.month == 6 || self.month == 9 || self.month == 11 {
            30
        } else {
            31
        };
        assert(leap == is_leap_year(y as int));
        if self.day > days {
            return false;
        }
        if self.hour >= 24 || self.minute >= 60 || self.second >= 60 {
            return false;
        }
        if self.nanosecond >= 2 * NANOS_PER_SECOND {
            return false;
        }
        !(self.nanosecond >= NANOS_PER_SECOND && self.second != 59)
    }

    /// `true` when this key comes before `other` in time.
    pub fn is_before(&self, other: &MigrationKey) -> (r: bool)
        ensures
            r == code_lt(self.code(), other.code()),
    {
        code_before(&self.key_code(), &other.key_code())
    }
}

// ---------------------------------------------------------------------------
// Decimal digits
// ---------------------------------------------------------------------------

pub open spec fn is_digit(c: char) -> bool {
    '0' <= c <= '9'
}

pub open spec fn all_digits(s: Seq<char>) -> bool {
    forall|i: int| 0 <= i < s.len() ==> #[trigger] is_digit(s[i])
}

pub open spec fn digit_value(c: char) -> int {
    c as int - '0' as int
}

pub open spec fn digit_char(v: int) -> char {
    (v + '0' as int) as char
}

/// The number that a sequence of decimal digits denotes.
pub open spec fn digits_value(s: Seq<char>) -> int
    decreases s.len(),
{
    if s.len() == 0 {
        0
    } else {
        digits_value(s.drop_last()) * 10 + digit_value(s.last())
    }
}

/// The last `width` decimal digits of `v`, padded with zeros.
pub open spec fn padded_digits(v: nat, width: nat) -> Seq<char>
    decreases width,
{
    if width == 0 {
        Seq::empty()
    } else {
        padded_digits(v / 10, (width - 1) as nat).push(digit_char((v % 10) as int))
    }
}

pub proof fn lemma_padded_digits(v: nat, width: nat)
    ensures
        padded_digits(v, width).len() == width,
        all_digits(padded_digits(v, width)),
        digits_value(padded_digits(v, width)) == v % pow10(width),
    decreases width,
{
    if width > 0 {
        lemma_padded_digits(v / 10, (width - 1) as nat);
        let s = padded_digits(v, width);
        assert(s.drop_last() =~= padded_digits(v / 10, (width - 1) as nat));
        let p = pow10((width - 1) as nat);
        assert(p > 0) by {
            lemma_pow10_positive((width - 1) as nat);
        }
        assert(((v / 10) % p) * 10 + v % 10 == v % (p * 10)) by (nonlinear_arith)
            requires
                p > 0,
        {
            let q = v / 10;
            let r = v % 10;
            assert(v == q * 10 + r);
            let qq = q / p;
            let qr = q % p;
            assert(q == qq * p + qr);
            assert(v == qq * (p * 10) + (qr * 10 + r));
            assert(0 <= qr * 10 + r < p * 10);
            vstd::arithmetic::div_mod::lemma_fundamental_div_mod_converse(
                v as int,
                (p * 10) as int,
                qq as int,
                (qr * 10 + r) as int,
            );
        }
    }
}

pub proof fn lemma_digits_value_nonneg(s: Seq<char>)
    requires
        all_digits(s),
    ensures
        digits_value(s) >= 0,
    decreases s.len(),
{
    if s.len() > 0 {
        assert(is_digit(s[s.len() - 1]));
        assert forall|i: int| 0 <= i < s.drop_last().len() implies #[trigger] is_digit(
            s.drop_last()[i],
        ) by {
            assert(s.drop_last()[i] == s[i]);
        }
        lemma_digits_value_nonneg(s.drop_last());
    }
}

pub open spec fn pow10(n: nat) -> nat
    decreases n,
{
    if n == 0 {
        1
    } else {
        10 * pow10((n - 1) as nat)
    }
}

pub proof fn lemma_pow10_positive(n: nat)
    ensures
        pow10(n) > 0,
    decreases n,
{
    if n > 0 {
        lemma_pow10_positive((n - 1) as nat);
    }
}


// ---------------------------------------------------------------------------
// Reading and writing keys as text
// ---------------------------------------------------------------------------

/// The message of a parse error for a value outside its range.
pub open spec fn out_of_range_message() -> Seq<char> {
    "input is out of range"@
}

/// A result with its error message taken by its view.
pub open spec fn text_result<T>(r: Result<T, String>) -> Result<T, Seq<char>> {
    match r {
        Ok(v) => Ok(v),
        Err(e) => Err(e@),
    }
}

/// The date that eight decimal digits `YYYYMMDD` denote.
pub open spec fn date_of_digits(text: Seq<char>) -> Result<(i32, u32, u32), Seq<char>> {
    let y = digits_value(text.subrange(0, 4));
    let m = digits_value(text.subrange(4, 6));
    let d = digits_value(text.subrange(6, 8));
    if is_valid_date(y, m, d) {
        Ok((y as i32, m as u32, d as u32))
    } else {
        Err(out_of_range_message())
    }
}

/// The time of day that six decimal digits `HHMMSS` denote; a second `60` is
/// a leap second.
pub open spec fn time_of_digits(text: Seq<char>) -> Result<(u32, u32, u32, u32), Seq<char>> {
    let h = digits_value(text.subrange(0, 2));
    let mi = digits_value(text.subrange(2, 4));
    let s = digits_value(text.subrange(4, 6));
    if h <= 23 && mi <= 59 && s <= 60 {
        if s == 60 {
            Ok((h as u32, mi as u32, 59u32, NANOS_PER_SECOND))
        } else {
            Ok((h as u32, mi as u32, s as u32, 0u32))
        }
    } else {
        Err(out_of_range_message())
    }
}

/// Text of the shape `YYYYMMDD_HHMMSS` made of decimal digits.
pub open spec fn is_key_shaped(text: Seq<char>) -> bool {
    &&& text.len() == 15
    &&& all_digits(text.subrange(0, 8))
    &&& text[8] == '_'
    &&& all_digits(text.subrange(9, 15))
}

/// The key that a text of the shape `YYYYMMDD_HHMMSS` denotes.
pub open spec fn key_of_digits(text: Seq<char>) -> Result<KeyCode, Seq<char>> {
    match (date_of_digits(text.subrange(0, 8)), time_of_digits(text.subrange(9, 15))) {
        (Ok(d), Ok(t)) => Ok((d.0, d.1, d.2, t.0, t.1, t.2, t.3)),
        _ => Err(out_of_range_message()),
    }
}

/// The text `YYYYMMDD_HHMMSS` of a key whose year has at most four digits;
/// a leap second is written as second `60`.
pub open spec fn key_text(key: MigrationKey) -> Seq<char> {
    padded_digits(key.year as nat, 4) + padded_digits(key.month as nat, 2) + padded_digits(
        key.day as nat,
        2,
    ) + seq!['_'] + padded_digits(key.hour as nat, 2) + padded_digits(key.minute as nat, 2)
        + padded_digits((key.second + key.nanosecond / NANOS_PER_SECOND) as nat, 2)
}

/// What `chrono::NaiveDate::parse_from_str(text, "%Y%m%d")` returns: year,
/// month and day, or the message of the parse error.
pub uninterp spec fn chrono_parse_date(text: Seq<char>) -> Result<(i32, u32, u32), Seq<char>>;

/// What `chrono::NaiveTime::parse_from_str(text, "%H%M%S")` returns: hour,
/// minute, second and nanosecond, or the message of the parse error.
pub uninterp spec fn chrono_parse_time(text: Seq<char>) -> Result<(u32, u32, u32, u32), Seq<char>>;

/// What `chrono::NaiveDateTime::parse_from_str(text, "%Y%m%d_%H%M%S")`
/// returns, or the message of the parse error.
pub uninterp spec fn chrono_parse_date_time(text: Seq<char>) -> Result<KeyCode, Seq<char>>;

/// What `chrono::NaiveDateTime::format("%Y%m%d_%H%M%S")` writes for a key.
pub uninterp spec fn chrono_format_key(key: KeyCode) -> Seq<char>;

/// What reading a date `YYYYMMDD` gives: on eight decimal digits the date
/// they denote, else chrono's answer.
pub open spec fn date_result(text: Seq<char>) -> Result<(i32, u32, u32), Seq<char>> {
    if text.len() == 8 && all_digits(text) {
        date_of_digits(text)
    } else {
        chrono_parse_date(text)
    }
}

/// What reading a time `HHMMSS` gives: on six decimal digits the time they
/// denote, else chrono's answer.
pub open spec fn time_result(text: Seq<char>) -> Result<(u32, u32, u32, u32), Seq<char>> {
    if text.len() == 6 && all_digits(text) {
        time_of_digits(text)
    } else {
        chrono_parse_time(text)
    }
}

/// What reading a key `YYYYMMDD_HHMMSS` gives: on text of that shape the key
/// it denotes, else chrono's answer.
pub open spec fn key_result(text: Seq<char>) -> Result<KeyCode, Seq<char>> {
    if is_key_shaped(text) {
        key_of_digits(text)
    } else {
        chrono_parse_date_time(text)
    }
}

/// The text `YYYYMMDD_HHMMSS` of a key: `key_text` for a year from 0 to
/// 9999, else chrono's.
pub open spec fn formatted_key(key: MigrationKey) -> Seq<char> {
    if 0 <= key.year <= 9999 {
        key_text(key)
    } else {
        chrono_format_key(key.code())
    }
}

/// Calls `chrono::NaiveDate::parse_from_str(text, "%Y%m%d")`.
///
/// Trusted: the result is `chrono_parse_date(text)`; a date it returns exists
/// in the calendar; on eight decimal digits it reads four digits of year, two
/// of month and two of day and fails with "input is out of range" when that
/// day does not exist (chrono's `scan::number`, `Parsed::set_month`,
/// `set_day` and `NaiveDate::from_ymd_opt`).
#[verifier::external_body]
pub(crate) fn parse_date_text(text: &str) -> (r: Result<(i32, u32, u32), String>)
    ensures
        text_result(r) == chrono_parse_date(text@),
        r matches Ok(d) ==> is_valid_date(d.0 as int, d.1 as int, d.2 as int),
        text@.len() == 8 && all_digits(text@) ==> text_result(r) == date_of_digits(text@),
{
    match NaiveDate::parse_from_str(text, "%Y%m%d") {
        Ok(date) => Ok((date.year(), date.month(), date.day())),
        Err(err) => Err(err.to_string()),
    }
}

/// Calls `chrono::NaiveTime::parse_from_str(text, "%H%M%S")`.
///
/// Trusted: the result is `chrono_parse_time(text)`; a time it returns is a
/// valid time of day; on six decimal digits it reads two digits each of hour,
/// minute and second, reads a second 60 as a leap second, and fails with
/// "input is out of range" on an hour above 23, a minute above 59 or a second
/// above 60 (chrono's `Parsed::set_hour`, `set_minute`, `set_second` and
/// `Parsed::to_naive_time`).
#[verifier::external_body]
pub(crate) fn parse_time_text(text: &str) -> (r: Result<(u32, u32, u32, u32), String>)
    ensures
        text_result(r) == chrono_parse_time(text@),
        r matches Ok(t) ==> is_valid_time(t.0 as int, t.1 as int, t.2 as int, t.3 as int),
        text@.len() == 6 && all_digits(text@) ==> text_result(r) == time_of_digits(text@),
{
    match NaiveTime::parse_from_str(text, "%H%M%S") {
        Ok(time) => Ok((time.hour(), time.minute(), time.second(), time.nanosecond())),
        Err(err) => Err(err.to_string()),
    }
}

/// Calls `chrono::NaiveDateTime::parse_from_str(text, "%Y%m%d_%H%M%S")`.
///
/// Trusted: the result is `chrono_parse_date_time(text)`; a key it returns is
/// valid; on text of the shape `YYYYMMDD_HHMMSS` it reads date and time as
/// `parse_date_text` and `parse_time_text` do on the two parts.
#[verifier::external_body]
fn parse_date_time_text(text: &str) -> (r: Result<KeyCode, String>)
    ensures
        text_result(r) == chrono_parse_date_time(text@),
        r matches Ok(k) ==> MigrationKey::from_code(k).is_valid(),
        is_key_shaped(text@) ==> text_result(r) == key_of_digits(text@),
{
    match NaiveDateTime::parse_from_str(text, "%Y%m%d_%H%M%S") {
        Ok(dt) => Ok(
            (
                dt.year(),
                dt.month(),
                dt.day(),
                dt.hour(),
                dt.minute(),
                dt.second(),
                dt.nanosecond(),
            ),
        ),
        Err(err) => Err(err.to_string()),
    }
}

/// Calls `chrono::NaiveDateTime::format(key, "%Y%m%d_%H%M%S")` on the date
/// and time that `key` holds.
///
/// Trusted: the result is `chrono_format_key(key)`; for a year from 0 to 9999
/// it is `key_text(key)`: each field zero-padded to its width (four digits of
/// year, two of the others), a leap second written as 60 (chrono's
/// `format_numeric` for `Year`, `Month`, `Day`, `Hour`, `Minute`, `Second`).
#[verifier::external_body]
fn format_key_text(key: &MigrationKey) -> (r: String)
    requires
        key.is_valid(),
    ensures
        r@ == chrono_format_key(key.code()),
        0 <= key.year <= 9999 ==> r@ == key_text(*key),
{
    let date = NaiveDate::from_ymd_opt(key.year, key.month, key.day).unwrap();
    let date_time = date.and_hms_nano_opt(key.hour, key.minute, key.second, key.nanosecond).unwrap();
    date_time.format("%Y%m%d_%H%M%S").to_string()
}

impl MigrationKey {
    /// Reads a key in the format `YYYYMMDD_HHMMSS`; the error holds the
    /// parser's message.
    pub fn parse(text: &str) -> (r: Result<MigrationKey, String>)
        ensures
            text_result(r) == match key_result(text@) {
                Ok(c) => Ok(MigrationKey::from_code(c)),
                Err(e) => Err(e),
            },
            r matches Ok(k) ==> k.is_valid(),
    {
        match parse_date_time_text(text) {
            Ok(code) => Ok(MigrationKey::of_code(&code)),
            Err(message) => Err(message),
        }
    }

    /// Writes the key in the format `YYYYMMDD_HHMMSS`.
    pub fn to_key_string(&self) -> (text: String)
        requires
            self.is_valid(),
        ensures
            text@ == formatted_key(*self),
    {
        format_key_text(self)
    }
}

} // verus!

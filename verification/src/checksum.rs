//! Checksums of migration scripts: computing them, and writing and reading
//! them as decimal numbers.
use crate::key::{digit_char, digit_value, is_digit};
use crate::migration::{Migration, MigrationKind};
use crate::text::{chars_of, path_file_name, std_path_file_name, string_of};
use vstd::prelude::*;
use vstd::string::StringSliceAdditionalSpecFns;

verus! {

/// The CRC-32 checksum of a migration script.
#[derive(Debug, Clone, Copy, PartialEq, Eq, Structural)]
pub struct Checksum(pub u32);

/// Why a text is not a checksum.
#[derive(Debug, Clone, PartialEq, Eq)]
pub enum ParseChecksumError {
    UnsupportedAlgorithm(String),
    InvalidHashValue(String),
}

pub enum ParseChecksumErrorView {
    UnsupportedAlgorithm(Seq<char>),
    InvalidHashValue(Seq<char>),
}

impl View for ParseChecksumError {
    type V = ParseChecksumErrorView;

    open spec fn view(&self) -> ParseChecksumErrorView {
        match self {
            ParseChecksumError::UnsupportedAlgorithm(m) => ParseChecksumErrorView::UnsupportedAlgorithm(m@),
            ParseChecksumError::InvalidHashValue(m) => ParseChecksumErrorView::InvalidHashValue(m@),
        }
    }
}

/// The message for a text without digits.
pub open spec fn empty_number_message() -> Seq<char> {
    "cannot parse integer from empty string"@
}

/// The message for a text with a character that is not a decimal digit.
pub open spec fn invalid_digit_message() -> Seq<char> {
    "invalid digit found in string"@
}

/// The message for a number above the largest `u32`.
pub open spec fn too_large_message() -> Seq<char> {
    "number too large to fit in target type"@
}

/// Reads the decimal digits `s` after the value `acc` read so far, from left
/// to right: the first character that is not a digit, or the first digit
/// that makes the number exceed `u32::MAX`, decides the error.
pub open spec fn scan_decimal(s: Seq<char>, acc: nat) -> Result<u32, Seq<char>>
    decreases s.len(),
{
    if s.len() == 0 {
        Ok(acc as u32)
    } else if !is_digit(s[0]) {
        Err(invalid_digit_message())
    } else if acc * 10 + digit_value(s[0]) > u32::MAX {
        Err(too_large_message())
    } else {
        scan_decimal(s.skip(1), (acc * 10 + digit_value(s[0])) as nat)
    }
}

/// The number a text denotes in decimal, with an optional leading `+` (the
/// semantics of `u32::from_str`), or the message of why it denotes none.
pub open spec fn decimal_of(s: Seq<char>) -> Result<u32, Seq<char>> {
    if s.len() == 0 {
        Err(empty_number_message())
    } else if s[0] == '+' && s.len() > 1 {
        scan_decimal(s.skip(1), 0)
    } else {
        scan_decimal(s, 0)
    }
}

/// The decimal digits of a number, without leading zeros.
pub open spec fn decimal(n: nat) -> Seq<char>
    decreases n,
{
    if n < 10 {
        seq![digit_char(n as int)]
    } else {
        decimal(n / 10).push(digit_char((n % 10) as int))
    }
}

/// What reading a checksum gives.
pub open spec fn checksum_of(s: Seq<char>) -> Result<Checksum, ParseChecksumErrorView> {
    match decimal_of(s) {
        Ok(v) => Ok(Checksum(v)),
        Err(m) => Err(ParseChecksumErrorView::InvalidHashValue(m)),
    }
}

pub open spec fn checksum_result_view(r: Result<Checksum, ParseChecksumError>) -> Result<
    Checksum,
    ParseChecksumErrorView,
> {
    match r {
        Ok(c) => Ok(c),
        Err(e) => Err(e@),
    }
}

/// The character of a decimal digit.
fn digit_to_char(d: u32) -> (c: char)
    requires
        d < 10,
    ensures
        c == digit_char(d as int),
        is_digit(c),
{
    match d {
        0 => '0',
        1 => '1',
        2 => '2',
        3 => '3',
        4 => '4',
        5 => '5',
        6 => '6',
        7 => '7',
        8 => '8',
        _ => '9',
    }
}

/// The value of a decimal digit.
fn char_to_digit(c: char) -> (d: u32)
    requires
        is_digit(c),
    ensures
        d == digit_value(c),
{
    (c as u32) - ('0' as u32)
}

/// Writes a number in decimal, without leading zeros.
pub fn decimal_string(n: u64) -> (s: String)
    ensures
        s@ == decimal(n as nat),
{
    let mut v: u64 = n;
    let mut digits: Vec<char> = Vec::new();
    while v >= 10
        invariant
            decimal(n as nat) == decimal(v as nat) + digits@,
        decreases v,
    {
        let ghost before = digits@;
        digits.insert(0, digit_to_char((v % 10) as u32));
        assert(decimal(v as nat) == decimal((v / 10) as nat).push(digit_char((v % 10) as int)));
        assert(decimal((v / 10) as nat) + digits@ =~= decimal(v as nat) + before);
        v = v / 10;
    }
    let ghost before = digits@;
    digits.insert(0, digit_to_char(v as u32));
    assert(digits@ =~= decimal(v as nat) + before);
    string_of(digits.as_slice())
}

/// Writes a signed number in decimal, with `-` before a negative one.
pub fn signed_decimal_string(n: i64) -> (s: String)
    ensures
        s@ == if n < 0 {
            seq!['-'] + decimal((-n) as nat)
        } else {
            decimal(n as nat)
        },
{
    if n < 0 {
        let magnitude: u64 = if n == i64::MIN {
            9223372036854775808u64
        } else {
            (-n) as u64
        };
        let digits = decimal_string(magnitude);
        let mut out: Vec<char> = vec!['-'];
        let chars = chars_of(digits.as_str());
        let mut i: usize = 0;
        while i < chars.len()
            invariant
                i <= chars.len(),
                out@ == seq!['-'] + chars@.take(i as int),
            decreases chars.len() - i,
        {
            out.push(chars[i]);
            i += 1;
            assert(out@ =~= seq!['-'] + chars@.take(i as int));
        }
        assert(chars@.take(i as int) =~= chars@);
        string_of(out.as_slice())
    } else {
        decimal_string(n as u64)
    }
}

impl Checksum {
    /// Writes the checksum as a decimal number.
    pub fn to_string(&self) -> (s: String)
        ensures
            s@ == decimal(self.0 as nat),
    {
        decimal_string(self.0 as u64)
    }

    /// Reads a checksum written as a decimal number.
    pub fn parse(s: &str) -> (r: Result<Checksum, ParseChecksumError>)
        ensures
            checksum_result_view(r) == checksum_of(s@),
    {
        let chars = chars_of(s);
        let n = chars.len();
        if n == 0 {
            proof {
                reveal_strlit("cannot parse integer from empty string");
            }
            return Err(ParseChecksumError::InvalidHashValue(
                String::from_str("cannot parse integer from empty string"),
            ));
        }
        let start: usize = if chars[0] == '+' && n > 1 {
            1
        } else {
            0
        };
        let ghost digits = chars@.skip(start as int);
        assert(chars@.skip(0) =~= chars@);
        assert(decimal_of(s@) == scan_decimal(digits, 0));
        let mut acc: u64 = 0;
        let mut i: usize = start;
        while i < n
            invariant
                chars@ == s@,
                n == chars.len(),
                start <= i <= n,
                acc <= u32::MAX,
                scan_decimal(digits, 0) == scan_decimal(chars@.skip(i as int), acc as nat),
                digits == chars@.skip(start as int),
                decimal_of(s@) == scan_decimal(digits, 0),
            decreases n - i,
        {
            let c = chars[i];
            assert(chars@.skip(i as int)[0] == c);
            if c < '0' || c > '9' {
                proof {
                    reveal_strlit("invalid digit found in string");
                }
                assert(!is_digit(chars@.skip(i as int)[0]));
                assert(scan_decimal(chars@.skip(i as int), acc as nat) == Err::<u32, Seq<char>>(
                    invalid_digit_message(),
                ));
                return Err(ParseChecksumError::InvalidHashValue(
                    String::from_str("invalid digit found in string"),
                ));
            }
            let next = acc * 10 + char_to_digit(c) as u64;
            if next > 0xFFFF_FFFF {
                proof {
                    reveal_strlit("number too large to fit in target type");
                }
                assert(is_digit(chars@.skip(i as int)[0]));
                assert(scan_decimal(chars@.skip(i as int), acc as nat) == Err::<u32, Seq<char>>(
                    too_large_message(),
                ));
                return Err(ParseChecksumError::InvalidHashValue(
                    String::from_str("number too large to fit in target type"),
                ));
            }
            assert(chars@.skip(i as int).skip(1) =~= chars@.skip(i + 1));
            acc = next;
            i += 1;
        }
        assert(chars@.skip(i as int) =~= Seq::<char>::empty());
        Ok(Checksum(acc as u32))
    }
}

impl std::str::FromStr for Checksum {
    type Err = ParseChecksumError;

    fn from_str(s: &str) -> (r: Result<Checksum, ParseChecksumError>)
        ensures
            checksum_result_view(r) == checksum_of(s@),
    {
        Checksum::parse(s)
    }
}

// ---------------------------------------------------------------------------
// Writing and reading back
// ---------------------------------------------------------------------------

proof fn lemma_decimal(n: nat)
    ensures
        decimal(n).len() > 0,
        crate::key::all_digits(decimal(n)),
        crate::key::digits_value(decimal(n)) == n,
        decimal(n)[0] != '+',
    decreases n,
{
    if n >= 10 {
        lemma_decimal(n / 10);
        let d = decimal(n);
        assert(d.drop_last() =~= decimal(n / 10));
        assert(d[0] == decimal(n / 10)[0]);
        assert(digit_value(digit_char((n % 10) as int)) == n % 10);
        assert(d.last() == digit_char((n % 10) as int));
        assert(crate::key::digits_value(d) == (n / 10) * 10 + n % 10);
        assert((n / 10) * 10 + n % 10 == n) by (nonlinear_arith);
        assert forall|i: int| 0 <= i < d.len() implies #[trigger] is_digit(d[i]) by {
            if i < d.len() - 1 {
                assert(d[i] == decimal(n / 10)[i]);
            }
        }
    } else {
        let d = decimal(n);
        assert(d.drop_last() =~= Seq::<char>::empty());
        assert(d.last() == digit_char(n as int));
        assert(digit_value(digit_char(n as int)) == n);
        assert(crate::key::digits_value(d.drop_last()) == 0);
    }
}

proof fn lemma_pow10_step(n: nat)
    ensures
        crate::key::pow10(n + 1) == 10 * crate::key::pow10(n),
{
}

/// The value of digits is the first digit's value times the weight of its
/// place plus the value of the rest.
proof fn lemma_digits_value_first(s: Seq<char>)
    requires
        s.len() > 0,
    ensures
        crate::key::digits_value(s) == digit_value(s[0]) * crate::key::pow10((s.len() - 1) as nat)
            + crate::key::digits_value(s.skip(1)),
    decreases s.len(),
{
    let t = s.skip(1);
    if s.len() > 1 {
        let r = s.drop_last();
        lemma_digits_value_first(r);
        assert(r.skip(1) =~= t.drop_last());
        assert(t.last() == s.last());
        assert(r[0] == s[0]);
        let p = crate::key::pow10((r.len() - 1) as nat);
        lemma_pow10_step((r.len() - 1) as nat);
        let a = digit_value(s[0]);
        let b = crate::key::digits_value(r.skip(1));
        let c = digit_value(s.last());
        assert(crate::key::digits_value(r) == a * p + b);
        assert(crate::key::digits_value(s) == crate::key::digits_value(r) * 10 + c);
        assert(crate::key::digits_value(t) == b * 10 + c);
        let q = crate::key::pow10((s.len() - 1) as nat);
        assert(q == 10 * p);
        assert((a * p + b) * 10 + c == a * q + (b * 10 + c)) by (nonlinear_arith)
            requires
                q == 10 * p,
        ;
    } else {
        assert(s.drop_last() =~= Seq::<char>::empty());
        assert(crate::key::digits_value(s.drop_last()) == 0);
        assert(s.last() == s[0]);
        assert(t =~= Seq::<char>::empty());
        assert(crate::key::digits_value(t) == 0);
        assert(crate::key::digits_value(s) == digit_value(s[0]));
        let q = crate::key::pow10(0);
        assert(q == 1);
        assert(digit_value(s[0]) * q == digit_value(s[0])) by (nonlinear_arith)
            requires
                q == 1,
        ;
    }
}

proof fn lemma_scan_digits(s: Seq<char>, acc: nat)
    requires
        crate::key::all_digits(s),
        acc * crate::key::pow10(s.len()) + crate::key::digits_value(s) <= u32::MAX,
    ensures
        scan_decimal(s, acc) == Ok::<u32, Seq<char>>(
            (acc * crate::key::pow10(s.len()) + crate::key::digits_value(s)) as u32,
        ),
    decreases s.len(),
{
    if s.len() > 0 {
        let d = digit_value(s[0]);
        assert(is_digit(s[0]));
        let p = crate::key::pow10((s.len() - 1) as nat);
        lemma_digits_value_first(s);
        lemma_pow10_step((s.len() - 1) as nat);
        crate::key::lemma_pow10_positive((s.len() - 1) as nat);
        assert(acc * crate::key::pow10(s.len()) == (acc * 10) * p) by (nonlinear_arith)
            requires
                crate::key::pow10(s.len()) == 10 * p,
        ;
        let rest = s.skip(1);
        assert(crate::key::all_digits(rest)) by {
            assert forall|i: int| 0 <= i < rest.len() implies #[trigger] is_digit(rest[i]) by {
                assert(rest[i] == s[i + 1]);
            }
        }
        crate::key::lemma_digits_value_nonneg(rest);
        assert((acc * 10 + d) * p + crate::key::digits_value(rest) == acc * crate::key::pow10(
            s.len(),
        ) + crate::key::digits_value(s)) by (nonlinear_arith)
            requires
                acc * crate::key::pow10(s.len()) == (acc * 10) * p,
                crate::key::digits_value(s) == d * p + crate::key::digits_value(rest),
        ;
        assert(acc * 10 + d <= (acc * 10 + d) * p) by (nonlinear_arith)
            requires
                p >= 1,
                acc * 10 + d >= 0,
        ;
        assert(rest.len() == s.len() - 1);
        assert(acc * 10 + d <= u32::MAX);
        lemma_scan_digits(rest, (acc * 10 + d) as nat);
        assert(scan_decimal(s, acc) == scan_decimal(rest, (acc * 10 + d) as nat));
    } else {
        let q = crate::key::pow10(0);
        assert(q == 1);
        assert(acc * q == acc) by (nonlinear_arith)
            requires
                q == 1,
        ;
        assert(crate::key::digits_value(s) == 0);
    }
}

/// Reading back the decimal text of a checksum gives the checksum.
pub proof fn law_checksum_text_round_trip(checksum: Checksum)
    ensures
        checksum_of(decimal(checksum.0 as nat)) == Ok::<Checksum, ParseChecksumErrorView>(
            checksum,
        ),
{
    let s = decimal(checksum.0 as nat);
    lemma_decimal(checksum.0 as nat);
    lemma_scan_digits(s, 0);
}

// ---------------------------------------------------------------------------
// Computing checksums
// ---------------------------------------------------------------------------

/// One bit of the CRC-32 register: shifted right, and the reflected IEEE
/// polynomial `0xEDB88320` added where the bit shifted out was set.
pub open spec fn crc32_bit_step(c: u32) -> u32 {
    if (c & 1u32) == 1u32 {
        (c >> 1u32) ^ 0xEDB8_8320u32
    } else {
        c >> 1u32
    }
}

/// The register after `n` bit steps.
pub open spec fn crc32_bits(c: u32, n: nat) -> u32
    decreases n,
{
    if n == 0 {
        c
    } else {
        crc32_bits(crc32_bit_step(c), (n - 1) as nat)
    }
}

/// The register after the bytes, each taken in with its eight bits, from the
/// start value `0xFFFFFFFF`.
pub open spec fn crc32_register(bytes: Seq<u8>) -> u32
    decreases bytes.len(),
{
    if bytes.len() == 0 {
        0xFFFF_FFFFu32
    } else {
        crc32_bits(crc32_register(bytes.drop_last()) ^ (bytes.last() as u32), 8)
    }
}

/// The CRC-32 checksum (IEEE 802.3, reflected) of bytes: the complement of
/// the register after them.
pub open spec fn crc32_value(bytes: Seq<u8>) -> u32 {
    !crc32_register(bytes)
}

/// Calls `crc32fast::hash`.
///
/// Trusted: the result is the CRC-32 checksum `crc32_value(bytes)`, which
/// `crc32fast` computes with tables of the polynomial `0xEDB88320`, starting
/// from and finishing with a complemented register.
#[verifier::external_body]
fn crc32_of(bytes: &[u8]) -> (crc: u32)
    ensures
        crc == crc32_value(bytes@),
{
    crc32fast::hash(bytes)
}

/// The byte that stands for the kind of a migration in its checksum.
pub open spec fn kind_byte(kind: MigrationKind) -> u8 {
    match kind {
        MigrationKind::Baseline => 0,
        MigrationKind::Up => 1,
        MigrationKind::Down => 2,
    }
}

/// The bytes a migration script's checksum is computed over: the file name
/// of the script, the byte of its kind and the content.
pub open spec fn hashed_bytes(script_path: Seq<char>, kind: MigrationKind, content: Seq<char>) -> Seq<u8> {
    let name = match std_path_file_name(script_path) {
        Some(n) => n,
        None => Seq::empty(),
    };
    vstd::utf8::encode_utf8(name).push(kind_byte(kind)) + vstd::utf8::encode_utf8(content)
}

/// The checksum of a migration script with the given content.
pub fn hash_migration_script(migration: &Migration, script_content: &str) -> (checksum: Checksum)
    ensures
        checksum.0 == crc32_value(
            hashed_bytes(migration.script_path@, migration.kind, script_content@),
        ),
{
    let name = match path_file_name(migration.script_path.as_str()) {
        Some(n) => n,
        None => String::new(),
    };
    let mut bytes: Vec<u8> = Vec::new();
    bytes.extend_from_slice(name.as_str().as_bytes());
    let kind: u8 = match migration.kind {
        MigrationKind::Baseline => 0,
        MigrationKind::Up => 1,
        MigrationKind::Down => 2,
    };
    bytes.push(kind);
    bytes.extend_from_slice(script_content.as_bytes());
    assert(bytes@ =~= hashed_bytes(migration.script_path@, migration.kind, script_content@));
    Checksum(crc32_of(bytes.as_slice()))
}

} // verus!

//! The file name that the filename strategy gives a new migration reads back
//! as that migration.
use crate::definition::{
    checked_parse_result, down_ext_bytes, down_marker_bytes, extension_for, extension_of,
    filename_of, last_slash, lemma_last_slash, parse_panics, parse_result, script_ext_bytes,
    split_at_last_slash, title_of, up_ext_bytes, up_marker_bytes,
};
use crate::error::DefinitionErrorView;
use crate::key::{
    all_digits, formatted_key, date_of_digits, date_result, digit_char, digits_value, is_digit, is_valid_date,
    key_text, lemma_padded_digits, padded_digits, pow10, time_of_digits, time_result,
    MigrationKey, NANOS_PER_SECOND,
};
use crate::migration::{MigrationKind, MigrationView};
use crate::text::{byte_text, contains_seq, ends_with, join_path, occurs_at, replace_all};
use vstd::prelude::*;
use vstd::utf8::*;

verus! {

broadcast use encode_utf8_valid_utf8, encode_utf8_decode_utf8;

/// Each character `a` replaced by `c`.
pub open spec fn map_char(s: Seq<char>, a: char, c: char) -> Seq<char> {
    s.map_values(|x: char| if x == a { c } else { x })
}

proof fn lemma_replace_char(s: Seq<char>, a: char, c: char)
    ensures
        replace_all(s, seq![a], seq![c]) == map_char(s, a, c),
    decreases s.len(),
{
    if s.len() > 0 {
        lemma_replace_char(s.skip(1), a, c);
        if s[0] == a {
            assert(s.take(1) =~= seq![a]);
        } else {
            assert(s.take(1)[0] != seq![a][0]);
        }
        assert(replace_all(s, seq![a], seq![c]) =~= map_char(s, a, c));
    } else {
        assert(map_char(s, a, c) =~= s);
    }
}

pub proof fn lemma_encode_concat(a: Seq<char>, b: Seq<char>)
    ensures
        encode_utf8(a + b) == encode_utf8(a) + encode_utf8(b),
    decreases a.len(),
{
    if a.len() == 0 {
        assert(a + b =~= b);
    } else {
        assert((a + b).drop_first() =~= a.drop_first() + b);
        assert((a + b)[0] == a[0]);
        lemma_encode_concat(a.drop_first(), b);
        assert(encode_utf8(a + b) =~= encode_utf8(a) + encode_utf8(b));
    }
}

proof fn lemma_multibyte_bytes(v: u32)
    by (bit_vector)
    ensures
        (0xC0u8 | ((v >> 6u32) & 0x1Fu32) as u8) >= 0xC0u8,
        (0xE0u8 | ((v >> 12u32) & 0x0Fu32) as u8) >= 0xC0u8,
        (0xF0u8 | ((v >> 18u32) & 0x7u32) as u8) >= 0xC0u8,
        (0x80u8 | (v & 0x3Fu32) as u8) >= 0x80u8,
        (0x80u8 | ((v >> 6u32) & 0x3Fu32) as u8) >= 0x80u8,
        (0x80u8 | ((v >> 12u32) & 0x3Fu32) as u8) >= 0x80u8,
{
}

proof fn lemma_single_byte(v: u32)
    by (bit_vector)
    requires
        v <= 0x7F,
    ensures
        (v & 0x7Fu32) as u8 == v as u8,
        v as u8 <= 0x7Fu8,
{
}

/// The bytes of a character: one byte equal to it for an ASCII character,
/// else bytes of at least 0x80, the first of which is not a continuation
/// byte.
pub proof fn lemma_encode_char(c: char)
    ensures
        (c as u32) < 0x80 ==> encode_scalar(c as u32) == seq![(c as u32) as u8],
        (c as u32) >= 0x80 ==> forall|j: int|
            0 <= j < encode_scalar(c as u32).len() ==> #[trigger] encode_scalar(c as u32)[j]
                >= 0x80,
        !is_continuation_byte(encode_scalar(c as u32)[0]),
        encode_scalar(c as u32).len() >= 1,
{
    let v = c as u32;
    char_is_scalar(c);
    lemma_multibyte_bytes(v);
    if v <= 0x7F {
        lemma_single_byte(v);
    }
}

proof fn lemma_encode_ascii(s: Seq<char>)
    requires
        forall|i: int| 0 <= i < s.len() ==> (#[trigger] s[i] as u32) < 0x80,
    ensures
        encode_utf8(s).len() == s.len(),
        forall|i: int| 0 <= i < s.len() ==> #[trigger] encode_utf8(s)[i] == (s[i] as u32) as u8,
    decreases s.len(),
{
    if s.len() > 0 {
        lemma_encode_char(s[0]);
        assert forall|i: int| 0 <= i < s.drop_first().len() implies (#[trigger] s.drop_first()[i]
            as u32) < 0x80 by {
            assert(s.drop_first()[i] == s[i + 1]);
        }
        lemma_encode_ascii(s.drop_first());
        assert forall|i: int| 0 <= i < s.len() implies #[trigger] encode_utf8(s)[i] == (
        s[i] as u32) as u8 by {
            if i > 0 {
                assert(encode_utf8(s)[i] == encode_utf8(s.drop_first())[i - 1]);
                assert(s.drop_first()[i - 1] == s[i]);
            }
        }
    }
}

/// An ASCII character that a text does not hold is no byte of its encoding.
proof fn lemma_encode_lacks(s: Seq<char>, a: char)
    requires
        (a as u32) < 0x80,
        !s.contains(a),
    ensures
        forall|j: int| 0 <= j < encode_utf8(s).len() ==> #[trigger] encode_utf8(s)[j] != (
        a as u32) as u8,
        s.len() > 0 ==> !is_continuation_byte(encode_utf8(s)[0]),
    decreases s.len(),
{
    if s.len() > 0 {
        let c = s[0];
        assert(c != a) by {
            assert(s[0] == c);
        }
        lemma_encode_char(c);
        lemma_single_byte(a as u32);
        let rest = s.drop_first();
        assert(!rest.contains(a)) by {
            if rest.contains(a) {
                let j = choose|j: int| 0 <= j < rest.len() && rest[j] == a;
                assert(s[j + 1] == a);
            }
        }
        lemma_encode_lacks(rest, a);
        let e = encode_scalar(c as u32);
        assert forall|j: int| 0 <= j < encode_utf8(s).len() implies #[trigger] encode_utf8(s)[j]
            != (a as u32) as u8 by {
            if j < e.len() {
                assert(encode_utf8(s)[j] == e[j]);
                if (c as u32) < 0x80 {
                    assert(e[0] == (c as u32) as u8);
                    char_u32_cast(c, c as u32);
                    char_u32_cast(a, a as u32);
                    assert((c as u32) != (a as u32));
                    lemma_single_byte(c as u32);
                }
            } else {
                assert(encode_utf8(s)[j] == encode_utf8(rest)[j - e.len()]);
            }
        }
        assert(encode_utf8(s)[0] == e[0]);
    }
}

/// The text of the key is made of ASCII characters: eight digits, `_` and
/// six digits, which read back as the key.
proof fn lemma_key_text(key: MigrationKey)
    requires
        key.is_valid(),
        key.is_whole_second(),
        0 <= key.year <= 9999,
    ensures
        key_text(key).len() == 15,
        forall|i: int| 0 <= i < 15 ==> (#[trigger] key_text(key)[i] as u32) < 0x80,
        forall|i: int| 0 <= i < 15 ==> #[trigger] key_text(key)[i] != '.' && key_text(key)[i] != '/',
        key_text(key)[8] == '_',
        date_result(key_text(key).subrange(0, 8)) == Ok::<(i32, u32, u32), Seq<char>>(
            (key.year, key.month, key.day),
        ),
        time_result(key_text(key).subrange(9, 15)) == Ok::<(u32, u32, u32, u32), Seq<char>>(
            (key.hour, key.minute, key.second, key.nanosecond),
        ),
{
    let y = padded_digits(key.year as nat, 4);
    let mo = padded_digits(key.month as nat, 2);
    let d = padded_digits(key.day as nat, 2);
    let h = padded_digits(key.hour as nat, 2);
    let mi = padded_digits(key.minute as nat, 2);
    let sec = (key.second + key.nanosecond / NANOS_PER_SECOND) as nat;
    let s = padded_digits(sec, 2);
    lemma_padded_digits(key.year as nat, 4);
    lemma_padded_digits(key.month as nat, 2);
    lemma_padded_digits(key.day as nat, 2);
    lemma_padded_digits(key.hour as nat, 2);
    lemma_padded_digits(key.minute as nat, 2);
    lemma_padded_digits(sec, 2);
    let k = key_text(key);
    assert(k =~= y + mo + d + seq!['_'] + h + mi + s);
    let date = k.subrange(0, 8);
    let time = k.subrange(9, 15);
    assert(date.subrange(0, 4) =~= y);
    assert(date.subrange(4, 6) =~= mo);
    assert(date.subrange(6, 8) =~= d);
    assert(time.subrange(0, 2) =~= h);
    assert(time.subrange(2, 4) =~= mi);
    assert(time.subrange(4, 6) =~= s);
    assert forall|i: int| 0 <= i < 15 implies is_digit(#[trigger] k[i]) || k[i] == '_' by {
        if i < 4 {
            assert(k[i] == y[i]);
        } else if i < 6 {
            assert(k[i] == mo[i - 4]);
        } else if i < 8 {
            assert(k[i] == d[i - 6]);
        } else if i == 8 {
        } else if i < 11 {
            assert(k[i] == h[i - 9]);
        } else if i < 13 {
            assert(k[i] == mi[i - 11]);
        } else {
            assert(k[i] == s[i - 13]);
        }
    }
    assert(all_digits(date)) by {
        assert forall|i: int| 0 <= i < date.len() implies #[trigger] is_digit(date[i]) by {
            assert(date[i] == k[i]);
            assert(is_digit(k[i]) || k[i] == '_');
        }
    }
    assert(all_digits(time)) by {
        assert forall|i: int| 0 <= i < time.len() implies #[trigger] is_digit(time[i]) by {
            assert(time[i] == k[i + 9]);
            assert(is_digit(k[i + 9]) || k[i + 9] == '_');
        }
    }
    assert(pow10(4) == 10000) by {
        reveal_with_fuel(pow10, 5);
    }
    assert(pow10(2) == 100) by {
        reveal_with_fuel(pow10, 3);
    }
    assert(digits_value(y) == key.year);
    assert(digits_value(mo) == key.month);
    assert(digits_value(d) == key.day);
    assert(digits_value(h) == key.hour);
    assert(digits_value(mi) == key.minute);
    assert(digits_value(s) == sec);
    assert(is_valid_date(key.year as int, key.month as int, key.day as int));
    assert(date_of_digits(date) == Ok::<(i32, u32, u32), Seq<char>>(
        (key.year, key.month, key.day),
    ));
    if key.nanosecond == 0 {
        assert(sec == key.second);
    } else {
        assert(sec == 60);
    }
    assert(time_of_digits(time) == Ok::<(u32, u32, u32, u32), Seq<char>>(
        (key.hour, key.minute, key.second, key.nanosecond),
    ));
}

/// A byte sequence ends with a suffix no longer than its last part exactly
/// when that part does.
proof fn lemma_ends_with_tail(p: Seq<u8>, e: Seq<u8>, x: Seq<u8>)
    requires
        x.len() <= e.len(),
    ensures
        ends_with(p + e, x) == ends_with(e, x),
{
    let b = p + e;
    assert(b.subrange(b.len() - x.len(), b.len() as int) =~= e.subrange(
        e.len() - x.len(),
        e.len() as int,
    ));
}

/// A suffix starting with `.` and longer than the last part, before which no
/// byte is `.`, does not end the sequence.
proof fn lemma_ends_with_dot_before(p: Seq<u8>, e: Seq<u8>, x: Seq<u8>)
    requires
        e.len() < x.len(),
        x[0] == 46u8,
        forall|j: int| 0 <= j < p.len() ==> #[trigger] p[j] != 46u8,
    ensures
        !ends_with(p + e, x),
{
    let b = p + e;
    if x.len() <= b.len() {
        let i = b.len() - x.len();
        assert(b[i] == p[i]);
        assert(b.subrange(i, b.len() as int)[0] == b[i]);
    }
}

/// The byte `.` occurs in `p + e` only inside `e`.
proof fn lemma_dots_in_tail(p: Seq<u8>, e: Seq<u8>, i: int)
    requires
        forall|j: int| 0 <= j < p.len() ==> #[trigger] p[j] != 46u8,
        0 <= i < (p + e).len(),
        (p + e)[i] == 46u8,
    ensures
        i >= p.len(),
        e[i - p.len()] == 46u8,
{
    if i < p.len() {
        assert((p + e)[i] == p[i]);
    }
}

/// The bytes of a file name before its extension: those of the key, and of
/// `_` and the title if there is one.
pub open spec fn name_prefix_bytes(k: Seq<char>, t: Seq<char>) -> Seq<u8> {
    if t.len() == 0 {
        encode_utf8(k)
    } else {
        encode_utf8(k).push(95u8) + encode_utf8(t)
    }
}

/// The bytes of a file name are those before the extension and those of the
/// extension; none before the extension is `.`.
proof fn lemma_filename_bytes(key: MigrationKey, title: Seq<char>, e: Seq<char>)
    requires
        key.is_valid(),
        key.is_whole_second(),
        0 <= key.year <= 9999,
        !title.contains('.'),
    ensures
        encode_utf8(filename_of(key_text(key), title, e)) == name_prefix_bytes(
            key_text(key),
            replace_all(title, seq![' '], seq!['_']),
        ) + encode_utf8(e),
        forall|j: int|
            0 <= j < name_prefix_bytes(key_text(key), replace_all(title, seq![' '], seq!['_'])).len()
                ==> #[trigger] name_prefix_bytes(
                key_text(key),
                replace_all(title, seq![' '], seq!['_']),
            )[j] != 46u8,
{
    let k = key_text(key);
    lemma_key_text(key);
    lemma_encode_ascii(k);
    let kb = encode_utf8(k);
    let t = replace_all(title, seq![' '], seq!['_']);
    lemma_replace_char(title, ' ', '_');
    assert(!t.contains('.')) by {
        if t.contains('.') {
            let j = choose|j: int| 0 <= j < t.len() && t[j] == '.';
            assert(title[j] == '.');
        }
    }
    let f = filename_of(k, title, e);
    let p = name_prefix_bytes(k, t);
    assert(encode_utf8(seq!['_']) =~= seq![95u8]) by {
        lemma_encode_ascii(seq!['_']);
    }
    if t.len() == 0 {
        assert(f == k + e);
        lemma_encode_concat(k, e);
    } else {
        assert(f =~= k + (seq!['_'] + (t + e)));
        lemma_encode_concat(k, seq!['_'] + (t + e));
        lemma_encode_concat(seq!['_'], t + e);
        lemma_encode_concat(t, e);
        assert(kb + (seq![95u8] + (encode_utf8(t) + encode_utf8(e))) =~= p + encode_utf8(e));
    }
    lemma_encode_lacks(t, '.');
    assert forall|j: int| 0 <= j < p.len() implies #[trigger] p[j] != 46u8 by {
        if j < 15 {
            assert(p[j] == kb[j]);
            let c = k[j];
            lemma_single_byte(c as u32);
            char_u32_cast(c, c as u32);
        } else if j > 15 {
            assert(p[j] == encode_utf8(t)[j - 16]);
        }
    }
}

/// After bytes without `.`, the extension of a new migration's file is read
/// back as its kind, and the bytes hold no pair of direction markers.
proof fn lemma_extension_bytes(p: Seq<u8>, kind: MigrationKind, up_postfix: bool)
    requires
        kind != MigrationKind::Baseline,
        forall|j: int| 0 <= j < p.len() ==> #[trigger] p[j] != 46u8,
    ensures
        ({
            let e = extension_for(kind, up_postfix);
            let b = p + encode_utf8(e);
            &&& ends_with(b, script_ext_bytes())
            &&& extension_of(b) == Some((kind, e.len() as int))
            &&& !(contains_seq(b, up_marker_bytes()) && contains_seq(b, down_marker_bytes()))
        }),
{
    reveal_strlit(".down.surql");
    reveal_strlit(".up.surql");
    reveal_strlit(".surql");
    let e = extension_for(kind, up_postfix);
    assert(forall|i: int| 0 <= i < e.len() ==> (#[trigger] e[i] as u32) < 0x80);
    lemma_encode_ascii(e);
    let eb = encode_utf8(e);
    let b = p + eb;
    let script = script_ext_bytes();
    let up = up_ext_bytes();
    let down = down_ext_bytes();
    lemma_ends_with_tail(p, eb, script);
    match kind {
        MigrationKind::Down => {
            assert(eb =~= seq![46u8, 100u8, 111u8, 119u8, 110u8, 46u8, 115u8, 117u8, 114u8, 113u8, 108u8]);
            lemma_ends_with_tail(p, eb, up);
            lemma_ends_with_tail(p, eb, down);
            assert(eb.subrange(5, 11) =~= script);
            assert(eb.subrange(0, 11) =~= down);
            assert(!ends_with(eb, up)) by {
                assert(eb.subrange(2, 11)[0] != up[0]);
            }
        },
        _ => if up_postfix {
            assert(eb =~= seq![46u8, 117u8, 112u8, 46u8, 115u8, 117u8, 114u8, 113u8, 108u8]);
            lemma_ends_with_tail(p, eb, up);
            lemma_ends_with_dot_before(p, eb, down);
            assert(eb.subrange(3, 9) =~= script);
            assert(eb.subrange(0, 9) =~= up);
        } else {
            assert(eb =~= seq![46u8, 115u8, 117u8, 114u8, 113u8, 108u8]);
            lemma_ends_with_dot_before(p, eb, up);
            lemma_ends_with_dot_before(p, eb, down);
            assert(eb.subrange(0, 6) =~= script);
        },
    }
    let um = up_marker_bytes();
    let dm = down_marker_bytes();
    if contains_seq(b, um) && contains_seq(b, dm) {
        let i = choose|i: int| occurs_at(b, um, i);
        let j = choose|j: int| occurs_at(b, dm, j);
        assert(b[i] == b.subrange(i, i + 4)[0]);
        assert(b[i + 3] == b.subrange(i, i + 4)[3]);
        assert(b[j] == b.subrange(j, j + 6)[0]);
        assert(b[j + 5] == b.subrange(j, j + 6)[5]);
        lemma_dots_in_tail(p, eb, i);
        lemma_dots_in_tail(p, eb, i + 3);
        lemma_dots_in_tail(p, eb, j);
        lemma_dots_in_tail(p, eb, j + 5);
    }
}

/// The key of a file name reads back, and its first bytes are characters of
/// their own.
proof fn lemma_key_bytes(key: MigrationKey, t: Seq<char>, eb: Seq<u8>)
    requires
        key.is_valid(),
        key.is_whole_second(),
        0 <= key.year <= 9999,
        !t.contains('.'),
        eb.len() > 1,
        forall|i: int| 0 <= i < eb.len() ==> #[trigger] eb[i] < 0x80u8,
        valid_utf8(name_prefix_bytes(key_text(key), t) + eb),
    ensures
        ({
            let k = key_text(key);
            let b = name_prefix_bytes(k, t) + eb;
            &&& byte_text(b, 0, 8) == k.subrange(0, 8)
            &&& byte_text(b, 9, 15) == k.subrange(9, 15)
            &&& b[8] == 95u8
            &&& is_char_boundary(b, 8)
            &&& is_char_boundary(b, 9)
            &&& is_char_boundary(b, 15)
            &&& is_char_boundary(b, 16)
        }),
{
    let k = key_text(key);
    lemma_key_text(key);
    lemma_encode_ascii(k);
    let kb = encode_utf8(k);
    let p = name_prefix_bytes(k, t);
    let b = p + eb;
    lemma_encode_lacks(t, '.');
    assert forall|i: int| 0 <= i < 15 implies #[trigger] b[i] == kb[i] by {
        assert(b[i] == p[i]);
    }
    assert(b.subrange(0, 8) =~= encode_utf8(k.subrange(0, 8))) by {
        lemma_encode_ascii(k.subrange(0, 8));
        assert forall|i: int| 0 <= i < 8 implies b.subrange(0, 8)[i] == encode_utf8(
            k.subrange(0, 8),
        )[i] by {
            assert(b[i] == kb[i]);
        }
    }
    assert(b.subrange(9, 15) =~= encode_utf8(k.subrange(9, 15))) by {
        lemma_encode_ascii(k.subrange(9, 15));
        assert forall|i: int| 0 <= i < 6 implies b.subrange(9, 15)[i] == encode_utf8(
            k.subrange(9, 15),
        )[i] by {
            assert(b[i + 9] == kb[i + 9]);
        }
    }
    assert(b[8] == 95u8) by {
        assert(b[8] == kb[8]);
    }
    assert forall|i: int| 0 <= i < 17 && i < b.len() implies !is_continuation_byte(#[trigger] b[i]) by {
        if i < 15 {
            lemma_single_byte(k[i] as u32);
        } else if i == 15 {
            if t.len() == 0 {
                assert(b[i] == eb[0]);
            } else {
                assert(b[i] == p[15]);
            }
        } else {
            if t.len() > 0 {
                assert(b[i] == encode_utf8(t)[0]);
            } else {
                assert(b[i] == eb[1]);
            }
        }
    }
    is_char_boundary_iff_not_is_continuation_byte(b, 8);
    is_char_boundary_iff_not_is_continuation_byte(b, 9);
    is_char_boundary_iff_not_is_continuation_byte(b, 15);
    if b.len() > 16 {
        is_char_boundary_iff_not_is_continuation_byte(b, 16);
    } else {
        is_char_boundary_start_end_of_seq(b);
    }
}

/// The title of a file name reads back with each `_` read as a space.
proof fn lemma_title_bytes(k: Seq<char>, title: Seq<char>, eb: Seq<u8>)
    requires
        k.len() == 15,
        forall|i: int| 0 <= i < 15 ==> (#[trigger] k[i] as u32) < 0x80,
    ensures
        ({
            let t = replace_all(title, seq![' '], seq!['_']);
            let b = name_prefix_bytes(k, t) + eb;
            &&& (t.len() == 0) == (title.len() == 0)
            &&& title.len() == 0 ==> b.len() < 17 + eb.len()
            &&& title.len() > 0 ==> b.len() >= 17 + eb.len() && b[15] == 95u8
            &&& title.len() > 0 ==> byte_text(b, 16, b.len() - eb.len()) == t
            &&& replace_all(t, seq!['_'], seq![' ']) == replace_all(title, seq!['_'], seq![' '])
        }),
{
    let t = replace_all(title, seq![' '], seq!['_']);
    lemma_replace_char(title, ' ', '_');
    lemma_replace_char(t, '_', ' ');
    lemma_replace_char(title, '_', ' ');
    assert(map_char(t, '_', ' ') =~= map_char(title, '_', ' '));
    lemma_encode_ascii(k);
    let p = name_prefix_bytes(k, t);
    let b = p + eb;
    if t.len() > 0 {
        lemma_encode_char(t[0]);
        assert(encode_utf8(t).len() >= 1);
        assert(b[15] == p[15]);
        assert(b.subrange(16, b.len() - eb.len()) =~= encode_utf8(t));
    }
}

/// The file name that the filename strategy gives a new migration (what
/// `MigrationFilenameStrategy::get_filename` returns) reads back as that
/// migration (what `parse_migration_from_str` returns for it, the migration
/// of the file name split at its last `/`), where the key is a whole second
/// of a year from 0 to 9999 and the title holds neither `.` nor `/`: the same
/// key and kind, the title with each `_` read as a space, and the file name as
/// path.
pub proof fn law_new_migration_filename_reads_back(
    key: MigrationKey,
    title: Seq<char>,
    kind: MigrationKind,
    up_postfix: bool,
)
    requires
        key.is_valid(),
        key.is_whole_second(),
        0 <= key.year <= 9999,
        kind != MigrationKind::Baseline,
        !title.contains('.'),
        !title.contains('/'),
    ensures
        ({
            let f = filename_of(formatted_key(key), title, extension_for(kind, up_postfix));
            checked_parse_result(split_at_last_slash(f).0, split_at_last_slash(f).1) == Some(
                Ok::<MigrationView, DefinitionErrorView>(
                    MigrationView {
                        key: key,
                        title: replace_all(title, seq!['_'], seq![' ']),
                        kind: kind,
                        script_path: f,
                    },
                ),
            )
        }),
{
    reveal_strlit(".down.surql");
    reveal_strlit(".up.surql");
    reveal_strlit(".surql");
    let k = key_text(key);
    lemma_key_text(key);
    let e = extension_for(kind, up_postfix);
    assert(forall|i: int| 0 <= i < e.len() ==> (#[trigger] e[i] as u32) < 0x80);
    lemma_encode_ascii(e);
    let eb = encode_utf8(e);
    assert forall|i: int| 0 <= i < eb.len() implies #[trigger] eb[i] < 0x80u8 by {
        lemma_single_byte(e[i] as u32);
    }
    let t = replace_all(title, seq![' '], seq!['_']);
    let f = filename_of(k, title, e);
    lemma_filename_bytes(key, title, e);
    let p = name_prefix_bytes(k, t);
    let b = encode_utf8(f);
    assert(b == p + eb);
    lemma_extension_bytes(p, kind, up_postfix);
    lemma_replace_char(title, ' ', '_');
    assert(!t.contains('.') && !t.contains('/')) by {
        if t.contains('.') {
            let j = choose|j: int| 0 <= j < t.len() && t[j] == '.';
            assert(title[j] == '.');
        }
        if t.contains('/') {
            let j = choose|j: int| 0 <= j < t.len() && t[j] == '/';
            assert(title[j] == '/');
        }
    }
    lemma_key_bytes(key, t, eb);
    lemma_title_bytes(k, title, eb);
    assert(eb.len() == e.len());
    lemma_encode_ascii(k);
    assert(p.len() >= 15);
    assert(b.len() >= 15 + e.len());
    assert(date_result(byte_text(b, 0, 8)) == Ok::<(i32, u32, u32), Seq<char>>(
        (key.year, key.month, key.day),
    ));
    assert(time_result(byte_text(b, 9, 15)) == Ok::<(u32, u32, u32, u32), Seq<char>>(
        (key.hour, key.minute, key.second, key.nanosecond),
    ));
    assert(!parse_panics(f));
    assert(title_of(b, e.len() as int) == replace_all(title, seq!['_'], seq![' ']));
    // the path holds no `/`
    lemma_last_slash(f);
    assert(!f.contains('/')) by {
        if f.contains('/') {
            let j = choose|j: int| 0 <= j < f.len() && f[j] == '/';
            if j < 15 {
                assert(f[j] == k[j]);
            } else if t.len() == 0 {
                assert(f[j] == e[j - 15]);
            } else if j == 15 {
            } else if j < 16 + t.len() {
                assert(f[j] == t[j - 16]);
            } else {
                assert(f[j] == e[j - 16 - t.len()]);
            }
        }
    }
    assert(last_slash(f) < 0);
    assert(split_at_last_slash(f) == (Seq::<char>::empty(), f));
    assert(join_path(Seq::<char>::empty(), f) == f);
    assert(parse_result(Seq::<char>::empty(), f) == Ok::<MigrationView, DefinitionErrorView>(
        MigrationView {
            key: key,
            title: replace_all(title, seq!['_'], seq![' ']),
            kind: kind,
            script_path: f,
        },
    ));
}

} // verus!

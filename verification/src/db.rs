//! What the database reports of the table of executed migrations.
use crate::error::Error;
use crate::migration::{MigrationsTableInfo, MigrationsTableInfoView};
use crate::round_trip::{lemma_encode_char, lemma_encode_concat};
use crate::text::{chars_range, chars_of, occurs_at, occurs_at_exec, string_of};
use vstd::prelude::*;
use vstd::string::StringSliceAdditionalSpecFns;
use vstd::utf8::*;

verus! {

broadcast use encode_utf8_valid_utf8, encode_utf8_decode_utf8;

/// The text before the version in the definition of the migrations table.
pub const TABLE_VERSION_KEY: &'static str = "version:";

/// The bytes of `"version:"`.
pub open spec fn version_key_bytes() -> Seq<u8> {
    seq![118u8, 101u8, 114u8, 115u8, 105u8, 111u8, 110u8, 58u8]
}

/// The first position from `i` on where `pat` occurs in `b`, or -1.
pub open spec fn first_match_from(b: Seq<u8>, pat: Seq<u8>, i: int) -> int
    decreases b.len() - i,
{
    if i < 0 || pat.len() == 0 || i + pat.len() > b.len() {
        -1
    } else if occurs_at(b, pat, i) {
        i
    } else {
        first_match_from(b, pat, i + 1)
    }
}

/// The first position from `j` on of a `'` in the characters, or -1.
pub open spec fn first_quote_from(c: Seq<char>, j: int) -> int
    decreases c.len() - j,
{
    if j < 0 || j >= c.len() {
        -1
    } else if c[j] == '\'' {
        j
    } else {
        first_quote_from(c, j + 1)
    }
}

/// The version in the definition of the migrations table: the characters
/// from the `version:` on up to the `'` after it. The position of `version:`
/// and of the quote are counted in bytes, the characters taken are counted
/// from the start; for a definition in ASCII that is the text between
/// `version:` and the next `'`.
pub open spec fn table_version(definition: Seq<char>) -> Option<Seq<char>> {
    let b = encode_utf8(definition);
    let start = first_match_from(b, version_key_bytes(), 0);
    if start < 0 {
        None
    } else {
        let q = first_quote_from(definition, start);
        if q < 0 {
            None
        } else {
            let from = start + 8;
            let end = encode_utf8(definition.take(q)).len() as int;
            let n = definition.len() as int;
            let a = if from < n {
                from
            } else {
                n
            };
            let z = if end < n {
                end
            } else {
                n
            };
            Some(definition.subrange(a, if z < a { a } else { z }))
        }
    }
}

/// The number of bytes of a character's encoding.
fn char_width(c: char) -> (w: usize)
    ensures
        w == encode_scalar(c as u32).len(),
{
    proof {
        char_is_scalar(c);
    }
    let v = c as u32;
    if v < 0x80 {
        1
    } else if v < 0x800 {
        2
    } else if v < 0x10000 {
        3
    } else {
        4
    }
}

proof fn lemma_encode_len(s: Seq<char>)
    ensures
        encode_utf8(s).len() >= s.len(),
    decreases s.len(),
{
    if s.len() > 0 {
        lemma_encode_char(s[0]);
        lemma_encode_len(s.drop_first());
    }
}

/// Reads the version out of the definition of the migrations table.
pub fn extract_table_definition_version(table_definition: &str) -> (version: Option<String>)
    ensures
        match version {
            Some(v) => table_version(table_definition@) == Some(v@),
            None => table_version(table_definition@) is None,
        },
{
    let bytes = table_definition.as_bytes();
    let ghost b = table_definition.spec_bytes();
    assert(bytes@ == b);
    let key: Vec<u8> = vec![118u8, 101u8, 114u8, 115u8, 105u8, 111u8, 110u8, 58u8];
    assert(key@ =~= version_key_bytes());
    if bytes.len() < 8 {
        return None;
    }
    let mut start: usize = 0;
    while start <= bytes.len() - 8 && !occurs_at_exec(bytes, key.as_slice(), start)
        invariant
            8 <= bytes.len(),
            start <= bytes.len() - 7,
            bytes@ == b,
            key@ == version_key_bytes(),
            first_match_from(b, version_key_bytes(), 0) == first_match_from(
                b,
                version_key_bytes(),
                start as int,
            ),
        decreases bytes.len() - start,
    {
        start += 1;
    }
    if start > bytes.len() - 8 {
        return None;
    }
    let ghost s = start as int;
    assert(first_match_from(b, version_key_bytes(), 0) == s);
    let chars = chars_of(table_definition);
    let ghost c = chars@;
    let n = chars.len();
    if start >= n {
        return None;
    }
    let mut j: usize = 0;
    let mut offset: usize = 0;
    assert(c.take(0) =~= Seq::<char>::empty());
    while j < start
        invariant
            chars@ == c,
            n == c.len(),
            encode_utf8(c) == b,
            bytes@ == b,
            j <= start < n,
            offset == encode_utf8(c.take(j as int)).len(),
        decreases start - j,
    {
        proof {
            lemma_prefix_bytes(c, j as int);
        }
        let w = char_width(chars[j]);
        assert(offset + w <= bytes.len());
        offset = offset + w;
        j += 1;
    }
    while j < n && chars[j] != '\''
        invariant
            chars@ == c,
            n == c.len(),
            encode_utf8(c) == b,
            bytes@ == b,
            start <= j <= n,
            offset == encode_utf8(c.take(j as int)).len(),
            first_quote_from(c, s) == first_quote_from(c, j as int),
        decreases n - j,
    {
        proof {
            lemma_prefix_bytes(c, j as int);
        }
        let w = char_width(chars[j]);
        assert(offset + w <= bytes.len());
        offset = offset + w;
        j += 1;
    }
    if j == n {
        return None;
    }
    let ghost q = j as int;
    assert(first_quote_from(c, s) == q);
    proof {
        lemma_quote_after_key(c, b, s, q);
    }
    let from = start + 8;
    let a = if from < n {
        from
    } else {
        n
    };
    let z0 = if offset < n {
        offset
    } else {
        n
    };
    let z = if z0 < a {
        a
    } else {
        z0
    };
    let version = string_of(chars_range(chars.as_slice(), a, z).as_slice());
    Some(version)
}

/// The bytes of the characters before position `j` and of the one at `j`.
proof fn lemma_prefix_bytes(c: Seq<char>, j: int)
    requires
        0 <= j < c.len(),
    ensures
        encode_utf8(c.take(j + 1)).len() == encode_utf8(c.take(j)).len() + encode_scalar(
            c[j] as u32,
        ).len(),
        encode_utf8(c.take(j + 1)).len() <= encode_utf8(c).len(),
{
    lemma_encode_concat(c.take(j), seq![c[j]]);
    assert(c.take(j + 1) =~= c.take(j) + seq![c[j]]);
    assert(seq![c[j]].drop_first() =~= Seq::<char>::empty());
    assert(seq![c[j]][0] == c[j]);
    assert(encode_utf8(Seq::<char>::empty()) =~= Seq::<u8>::empty());
    assert(encode_utf8(seq![c[j]]) =~= encode_scalar(c[j] as u32));
    lemma_encode_concat(c.take(j + 1), c.skip(j + 1));
    assert(c.take(j + 1) + c.skip(j + 1) =~= c);
}

/// The quote after `version:` lies after its last byte.
proof fn lemma_quote_after_key(c: Seq<char>, b: Seq<u8>, s: int, q: int)
    requires
        encode_utf8(c) == b,
        0 <= s,
        s + 8 <= b.len(),
        occurs_at(b, version_key_bytes(), s),
        s <= q < c.len(),
        c[q] == '\'',
    ensures
        encode_utf8(c.take(q)).len() >= s + 8,
{
    let e = encode_utf8(c.take(q)).len() as int;
    lemma_encode_len(c.take(q));
    lemma_encode_concat(c.take(q), c.skip(q));
    assert(c.take(q) + c.skip(q) =~= c);
    lemma_encode_char(c[q]);
    assert(c.skip(q)[0] == '\'');
    assert(encode_utf8(c.skip(q))[0] == encode_scalar(c[q] as u32)[0]);
    assert(b[e] == 39u8);
    if e < s + 8 {
        assert(b.subrange(s, s + 8)[e - s] == b[e]);
        assert(version_key_bytes()[e - s] != 39u8);
    }
}

/// The first position from `i` on of a table named `name`, or -1.
pub open spec fn index_of_name(t: Seq<(Seq<char>, Seq<char>)>, name: Seq<char>, i: int) -> int
    decreases t.len() - i,
{
    if i < 0 || i >= t.len() {
        -1
    } else if t[i].0 == name {
        i
    } else {
        index_of_name(t, name, i + 1)
    }
}

/// What the database reports of the migrations table, given the definitions
/// of its tables by name: none when the tables could not be read; of equal
/// names the first counts.
pub open spec fn table_info(name: Seq<char>, tables: Option<Seq<(Seq<char>, Seq<char>)>>) -> Result<
    MigrationsTableInfoView,
    (),
> {
    match tables {
        None => Err(()),
        Some(t) => if t.len() == 0 {
            Ok(MigrationsTableInfoView::NoTables)
        } else if index_of_name(t, name, 0) >= 0 {
            let i = index_of_name(t, name, 0);
            Ok(
                MigrationsTableInfoView::Table {
                    name: name,
                    version: table_version(t[i].1),
                    definition: t[i].1,
                },
            )
        } else {
            Ok(MigrationsTableInfoView::Missing)
        },
    }
}

pub open spec fn tables_view(tables: Option<Vec<(String, String)>>) -> Option<Seq<(Seq<char>, Seq<char>)>> {
    match tables {
        None => None,
        Some(v) => Some(v@.map_values(|e: (String, String)| (e.0@, e.1@))),
    }
}

/// What the database reports of the migrations table `table_name`, given
/// the definitions of its tables by name (the first of equal names counts).
pub fn migrations_table_info(table_name: &str, tables: Option<Vec<(String, String)>>) -> (r: Result<
    MigrationsTableInfo,
    Error,
>)
    ensures
        match table_info(table_name@, tables_view(tables)) {
            Err(()) => r matches Err(Error::FetchingTableDefinitions(m)) && m@.len() == 0,
            Ok(info) => r matches Ok(i) && i@ == info,
        },
{
    let list: &Vec<(String, String)> = match &tables {
        None => {
            return Err(Error::FetchingTableDefinitions(String::new()));
        },
        Some(t) => t,
    };
    let ghost t = list@.map_values(|e: (String, String)| (e.0@, e.1@));
    assert(tables_view(tables) == Some(t));
    if list.len() == 0 {
        return Ok(MigrationsTableInfo::NoTables);
    }
    let name = string_of(chars_of(table_name).as_slice());
    let mut i: usize = 0;
    while i < list.len()
        invariant
            i <= list.len(),
            list.len() > 0,
            name@ == table_name@,
            t == list@.map_values(|e: (String, String)| (e.0@, e.1@)),
            tables_view(tables) == Some(t),
            index_of_name(t, name@, 0) == index_of_name(t, name@, i as int),
        decreases list.len() - i,
    {
        assert(t[i as int] == (list@[i as int].0@, list@[i as int].1@));
        if list[i].0 == name {
            let definition = list[i].1.clone();
            let version = extract_table_definition_version(definition.as_str());
            assert(t[i as int].0 == name@);
            assert(index_of_name(t, name@, i as int) == i);
            assert(definition@ == t[i as int].1);
            let info = MigrationsTableInfo::Table { name, version, definition };
            return Ok(info);
        }
        i += 1;
    }
    Ok(MigrationsTableInfo::Missing)
}

} // verus!

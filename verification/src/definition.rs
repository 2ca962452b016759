//! Defining migrations by the names of their script files.
use crate::error::{DefinitionError, DefinitionErrorView};
use crate::key::{
    date_result, formatted_key, parse_date_text, parse_time_text, time_result, MigrationKey,
};
use crate::migration::{Migration, MigrationKind, MigrationView, NewMigration};
use crate::text::{
    byte_text, chars_of, chars_range, contains_exec, contains_seq, ends_with, ends_with_exec, join_path,
    join_path_exec, path_file_name, path_parent, replace_all, replace_all_exec, std_path_file_name,
    std_path_parent, string_of, substring_bytes,
};
use vstd::prelude::*;
use vstd::string::StringSliceAdditionalSpecFns;
use vstd::utf8::*;

verus! {

broadcast use encode_utf8_valid_utf8, encode_utf8_decode_utf8;

/// The extension of a migration script.
pub const SCRIPT_FILE_EXTENSION: &'static str = ".surql";

/// The extension of a forward migration script.
pub const UP_SCRIPT_FILE_EXTENSION: &'static str = ".up.surql";

/// The extension of a backward migration script.
pub const DOWN_SCRIPT_FILE_EXTENSION: &'static str = ".down.surql";

/// The bytes of `".surql"`.
pub open spec fn script_ext_bytes() -> Seq<u8> {
    seq![46u8, 115u8, 117u8, 114u8, 113u8, 108u8]
}

/// The bytes of `".up"`.
pub open spec fn up_bytes() -> Seq<u8> {
    seq![46u8, 117u8, 112u8]
}

/// The bytes of `".down"`.
pub open spec fn down_bytes() -> Seq<u8> {
    seq![46u8, 100u8, 111u8, 119u8, 110u8]
}

/// The bytes of `".up.surql"`.
pub open spec fn up_ext_bytes() -> Seq<u8> {
    up_bytes() + script_ext_bytes()
}

/// The bytes of `".down.surql"`.
pub open spec fn down_ext_bytes() -> Seq<u8> {
    down_bytes() + script_ext_bytes()
}

/// The bytes of `".up."`.
pub open spec fn up_marker_bytes() -> Seq<u8> {
    up_bytes().push(46u8)
}

/// The bytes of `".down."`.
pub open spec fn down_marker_bytes() -> Seq<u8> {
    down_bytes().push(46u8)
}

fn script_ext_vec() -> (v: Vec<u8>)
    ensures
        v@ == script_ext_bytes(),
{
    let v: Vec<u8> = vec![46u8, 115u8, 117u8, 114u8, 113u8, 108u8];
    assert(v@ =~= script_ext_bytes());
    v
}

fn up_ext_vec() -> (v: Vec<u8>)
    ensures
        v@ == up_ext_bytes(),
{
    let v: Vec<u8> = vec![46u8, 117u8, 112u8, 46u8, 115u8, 117u8, 114u8, 113u8, 108u8];
    assert(v@ =~= up_ext_bytes());
    v
}

fn down_ext_vec() -> (v: Vec<u8>)
    ensures
        v@ == down_ext_bytes(),
{
    let v: Vec<u8> = vec![46u8, 100u8, 111u8, 119u8, 110u8, 46u8, 115u8, 117u8, 114u8, 113u8, 108u8];
    assert(v@ =~= down_ext_bytes());
    v
}

fn up_marker_vec() -> (v: Vec<u8>)
    ensures
        v@ == up_marker_bytes(),
{
    let v: Vec<u8> = vec![46u8, 117u8, 112u8, 46u8];
    assert(v@ =~= up_marker_bytes());
    v
}

fn down_marker_vec() -> (v: Vec<u8>)
    ensures
        v@ == down_marker_bytes(),
{
    let v: Vec<u8> = vec![46u8, 100u8, 111u8, 119u8, 110u8, 46u8];
    assert(v@ =~= down_marker_bytes());
    v
}

/// The kind of migration and the length of the extension that the bytes of a
/// file name end with; `None` when the name does not end with `.surql` or
/// ends with both `.up.surql` and `.down.surql`.
pub open spec fn extension_of(b: Seq<u8>) -> Option<(MigrationKind, int)> {
    if !ends_with(b, script_ext_bytes()) {
        None
    } else if ends_with(b, up_ext_bytes()) && ends_with(b, down_ext_bytes()) {
        None
    } else if ends_with(b, up_ext_bytes()) {
        Some((MigrationKind::Up, 9))
    } else if ends_with(b, down_ext_bytes()) {
        Some((MigrationKind::Down, 11))
    } else {
        Some((MigrationKind::Up, 6))
    }
}

/// The title a file name holds: the bytes after the key and its `_`
/// separator up to the extension, each `_` read as a space; empty when the
/// name holds no title.
pub open spec fn title_of(b: Seq<u8>, ext: int) -> Seq<char> {
    if b.len() < 17 + ext || b[15] != 95u8 {
        Seq::empty()
    } else {
        replace_all(byte_text(b, 16, b.len() - ext), seq!['_'], seq![' '])
    }
}

/// The migration that a file name in a directory defines, or why it defines
/// none. A name `YYYYMMDD_HHMMSS_title.surql` (or `.up.surql` or
/// `.down.surql`) is read as key, title and kind; the date and the time are
/// read by chrono's parser.
pub open spec fn parse_result(path: Seq<char>, filename: Seq<char>) -> Result<
    MigrationView,
    DefinitionErrorView,
> {
    let b = encode_utf8(filename);
    let len = b.len() as int;
    if !ends_with(b, script_ext_bytes()) {
        Err(DefinitionErrorView::InvalidFilename)
    } else {
        match extension_of(b) {
            None => Err(DefinitionErrorView::AmbiguousDirection),
            Some((kind, ext)) => {
                if contains_seq(b, up_marker_bytes()) && contains_seq(b, down_marker_bytes()) {
                    Err(DefinitionErrorView::AmbiguousDirection)
                } else if len < 8 + ext {
                    Err(DefinitionErrorView::MissingDate)
                } else {
                    match date_result(byte_text(b, 0, 8)) {
                        Err(m) => Err(DefinitionErrorView::InvalidDate(m)),
                        Ok(d) => {
                            if len < 15 + ext || b[8] != 95u8 {
                                Err(DefinitionErrorView::MissingTime)
                            } else {
                                match time_result(byte_text(b, 9, 15)) {
                                    Err(m) => Err(DefinitionErrorView::InvalidTime(m)),
                                    Ok(t) => Ok(
                                        MigrationView {
                                            key: MigrationKey {
                                                year: d.0,
                                                month: d.1,
                                                day: d.2,
                                                hour: t.0,
                                                minute: t.1,
                                                second: t.2,
                                                nanosecond: t.3,
                                            },
                                            title: title_of(b, ext),
                                            kind: kind,
                                            script_path: join_path(path, filename),
                                        },
                                    ),
                                }
                            }
                        },
                    }
                }
            },
        }
    }
}

/// The file names on which reading takes a slice of the name that does not
/// start or end on a character boundary: those with a non-ASCII character
/// where the key or its separators are expected.
pub open spec fn parse_panics(filename: Seq<char>) -> bool {
    let b = encode_utf8(filename);
    let len = b.len() as int;
    match extension_of(b) {
        None => false,
        Some((kind, ext)) => {
            &&& !(contains_seq(b, up_marker_bytes()) && contains_seq(b, down_marker_bytes()))
            &&& len >= 8 + ext
            &&& {
                ||| !is_char_boundary(b, 8)
                ||| date_result(byte_text(b, 0, 8)) is Ok && len >= 15 + ext && {
                    ||| !is_char_boundary(b, 9)
                    ||| b[8] == 95u8 && {
                        ||| !is_char_boundary(b, 15)
                        ||| time_result(byte_text(b, 9, 15)) is Ok && len >= 17 + ext
                            && !is_char_boundary(b, 16)
                    }
                }
            }
        },
    }
}

pub open spec fn migration_result_view(r: Result<Migration, DefinitionError>) -> Result<
    MigrationView,
    DefinitionErrorView,
> {
    match r {
        Ok(m) => Ok(m@),
        Err(e) => Err(e@),
    }
}

/// Reads the migration that the file `filename` in the directory `path`
/// defines.
pub fn parse_migration(path: &str, filename: &str) -> (r: Result<Migration, DefinitionError>)
    requires
        !parse_panics(filename@),
    ensures
        migration_result_view(r) == parse_result(path@, filename@),
{
    let bytes = filename.as_bytes();
    let ghost b = filename.spec_bytes();
    assert(bytes@ == b);
    let len = bytes.len();
    let script = script_ext_vec();
    if !ends_with_exec(bytes, script.as_slice()) {
        return Err(DefinitionError::InvalidFilename);
    }
    let up = up_ext_vec();
    let down = down_ext_vec();
    let is_up = ends_with_exec(bytes, up.as_slice());
    let is_down = ends_with_exec(bytes, down.as_slice());
    if is_up && is_down {
        return Err(DefinitionError::AmbiguousDirection);
    }
    let (kind, ext_len): (MigrationKind, usize) = if is_up {
        (MigrationKind::Up, 9)
    } else if is_down {
        (MigrationKind::Down, 11)
    } else {
        (MigrationKind::Up, 6)
    };
    let up_marker = up_marker_vec();
    let down_marker = down_marker_vec();
    if contains_exec(bytes, up_marker.as_slice()) && contains_exec(bytes, down_marker.as_slice()) {
        return Err(DefinitionError::AmbiguousDirection);
    }
    if len < 8 + ext_len {
        return Err(DefinitionError::MissingDate);
    }
    proof {
        is_char_boundary_start_end_of_seq(b);
    }
    let date_text = substring_bytes(filename, 0, 8);
    let date = match parse_date_text(date_text) {
        Ok(d) => d,
        Err(message) => {
            return Err(DefinitionError::InvalidDate(message));
        },
    };
    if len < 15 + ext_len {
        return Err(DefinitionError::MissingTime);
    }
    if bytes[8] != 95u8 {
        return Err(DefinitionError::MissingTime);
    }
    let time_text = substring_bytes(filename, 9, 15);
    let time = match parse_time_text(time_text) {
        Ok(t) => t,
        Err(message) => {
            return Err(DefinitionError::InvalidTime(message));
        },
    };
    let title = if len < 17 + ext_len || bytes[15] != 95u8 {
        String::new()
    } else {
        proof {
            let e = (len - ext_len) as int;
            if is_up {
                assert(b.subrange(e, len as int) == up_ext_bytes());
            } else if is_down {
                assert(b.subrange(e, len as int) == down_ext_bytes());
            } else {
                assert(b.subrange(e, len as int) == script_ext_bytes());
            }
            assert(b.subrange(e, len as int)[0] == b[e]);
            is_char_boundary_iff_not_is_continuation_byte(b, e);
        }
        let title_text = substring_bytes(filename, 16, len - ext_len);
        let chars = chars_of(title_text);
        let underscore: Vec<char> = vec!['_'];
        let space: Vec<char> = vec![' '];
        assert(underscore@ =~= seq!['_']);
        assert(space@ =~= seq![' ']);
        let replaced = replace_all_exec(chars.as_slice(), underscore.as_slice(), space.as_slice());
        let t = string_of(replaced.as_slice());
        assert(t@ == title_of(b, ext_len as int));
        t
    };
    assert(title@ == title_of(b, ext_len as int));
    assert(extension_of(b) == Some((kind, ext_len as int)));
    let script_path = join_path_exec(path, filename);
    let key = MigrationKey {
        year: date.0,
        month: date.1,
        day: date.2,
        hour: time.0,
        minute: time.1,
        second: time.2,
        nanosecond: time.3,
    };
    Ok(Migration { key, title, kind, script_path })
}


/// `true` when reading the file name takes a slice that does not start or
/// end on a character boundary (`parse_panics`).
pub fn parse_would_panic(filename: &str) -> (r: bool)
    ensures
        r == parse_panics(filename@),
{
    let bytes = filename.as_bytes();
    let ghost b = filename.spec_bytes();
    assert(bytes@ == b);
    let len = bytes.len();
    let script = script_ext_vec();
    if !ends_with_exec(bytes, script.as_slice()) {
        return false;
    }
    let up = up_ext_vec();
    let down = down_ext_vec();
    let is_up = ends_with_exec(bytes, up.as_slice());
    let is_down = ends_with_exec(bytes, down.as_slice());
    if is_up && is_down {
        return false;
    }
    let ext_len: usize = if is_up {
        9
    } else if is_down {
        11
    } else {
        6
    };
    assert(extension_of(b) matches Some((_, e)) && e == ext_len);
    let up_marker = up_marker_vec();
    let down_marker = down_marker_vec();
    if contains_exec(bytes, up_marker.as_slice()) && contains_exec(bytes, down_marker.as_slice()) {
        return false;
    }
    if len < 8 + ext_len {
        return false;
    }
    if !filename.is_char_boundary(8) {
        return true;
    }
    proof {
        is_char_boundary_start_end_of_seq(b);
    }
    let date_text = substring_bytes(filename, 0, 8);
    if parse_date_text(date_text).is_err() || len < 15 + ext_len {
        return false;
    }
    if !filename.is_char_boundary(9) {
        return true;
    }
    if bytes[8] != 95u8 {
        return false;
    }
    if !filename.is_char_boundary(15) {
        return true;
    }
    let time_text = substring_bytes(filename, 9, 15);
    if parse_time_text(time_text).is_err() || len < 17 + ext_len {
        return false;
    }
    !filename.is_char_boundary(16)
}

pub open spec fn checked_view(r: Option<Result<Migration, DefinitionError>>) -> Option<
    Result<MigrationView, DefinitionErrorView>,
> {
    match r {
        Some(x) => Some(migration_result_view(x)),
        None => None,
    }
}

/// What reading a file name gives: `None` where the reading would take a
/// slice off a character boundary, the reading otherwise.
pub open spec fn checked_parse_result(path: Seq<char>, filename: Seq<char>) -> Option<
    Result<MigrationView, DefinitionErrorView>,
> {
    if parse_panics(filename) {
        None
    } else {
        Some(parse_result(path, filename))
    }
}

/// Reads the migration that the file `filename` in the directory `path`
/// defines; `None` on the file names of `parse_panics`.
pub fn parse_migration_checked(path: &str, filename: &str) -> (r: Option<
    Result<Migration, DefinitionError>,
>)
    ensures
        checked_view(r) == checked_parse_result(path@, filename@),
{
    if parse_would_panic(filename) {
        None
    } else {
        Some(parse_migration(path, filename))
    }
}

/// The position of the last `/` in a path, or -1.
pub open spec fn last_slash(s: Seq<char>) -> int
    decreases s.len(),
{
    if s.len() == 0 {
        -1
    } else if s.last() == '/' {
        s.len() - 1
    } else {
        last_slash(s.drop_last())
    }
}

pub proof fn lemma_last_slash(s: Seq<char>)
    ensures
        -1 <= last_slash(s) < s.len(),
        last_slash(s) >= 0 ==> s[last_slash(s)] == '/',
        forall|j: int| last_slash(s) < j < s.len() ==> s[j] != '/',
    decreases s.len(),
{
    if s.len() > 0 && s.last() != '/' {
        lemma_last_slash(s.drop_last());
        assert forall|j: int| last_slash(s) < j < s.len() implies s[j] != '/' by {
            if j < s.len() - 1 {
                assert(s[j] == s.drop_last()[j]);
            }
        }
    }
}

/// The directory and the file name of a path written with `/`: the text
/// before and after the last `/`, or no directory when there is no `/`.
pub open spec fn split_at_last_slash(s: Seq<char>) -> (Seq<char>, Seq<char>) {
    let i = last_slash(s);
    if i < 0 {
        (Seq::empty(), s)
    } else {
        (s.take(i), s.skip(i + 1))
    }
}

/// Reads the migration that a path written with `/` defines.
pub fn parse_migration_from_str(s: &str) -> (r: Option<Result<Migration, DefinitionError>>)
    ensures
        checked_view(r) == checked_parse_result(
            split_at_last_slash(s@).0,
            split_at_last_slash(s@).1,
        ),
{
    let chars = chars_of(s);
    proof {
        lemma_last_slash(s@);
    }
    let mut i: usize = chars.len();
    let mut found = false;
    while i > 0 && !found
        invariant
            i <= chars.len(),
            chars@ == s@,
            found ==> i > 0 && chars@[i - 1] == '/',
            forall|j: int| i <= j < chars.len() ==> chars@[j] != '/',
        decreases i + (if found { 0int } else { 1int }),
    {
        if chars[i - 1] == '/' {
            found = true;
        } else {
            i -= 1;
        }
    }
    if !found {
        assert(last_slash(s@) < 0) by {
            if last_slash(s@) >= 0 {
                assert(s@[last_slash(s@)] == '/');
            }
        }
        let no_dir = String::new();
        assert(split_at_last_slash(s@) == (no_dir@, s@));
        parse_migration_checked(no_dir.as_str(), s)
    } else {
        let pos = i - 1;
        assert(last_slash(s@) == pos) by {
            if last_slash(s@) > pos {
                assert(s@[last_slash(s@)] == '/');
            }
        }
        let dir = string_of(chars_range(chars.as_slice(), 0, pos).as_slice());
        let name = string_of(chars_range(chars.as_slice(), pos + 1, chars.len()).as_slice());
        assert(dir@ =~= s@.take(pos as int));
        assert(name@ =~= s@.skip(pos + 1));
        assert(split_at_last_slash(s@) == (dir@, name@));
        parse_migration_checked(dir.as_str(), name.as_str())
    }
}

/// Reads the migration that a path defines: its file name in the directory
/// of its parent; a path without a file name defines none.
pub open spec fn path_parse_result(path: Seq<char>) -> Option<
    Result<MigrationView, DefinitionErrorView>,
> {
    let dir = match std_path_parent(path) {
        Some(p) => p,
        None => Seq::empty(),
    };
    match std_path_file_name(path) {
        None => Some(Err(DefinitionErrorView::InvalidFilename)),
        Some(name) => checked_parse_result(dir, name),
    }
}

/// Reads the migration that a path defines.
pub fn parse_migration_from_path(path: &str) -> (r: Option<Result<Migration, DefinitionError>>)
    ensures
        checked_view(r) == path_parse_result(path@),
{
    let dir = match path_parent(path) {
        Some(p) => p,
        None => String::new(),
    };
    match path_file_name(path) {
        None => Some(Err(DefinitionError::InvalidFilename)),
        Some(name) => parse_migration_checked(dir.as_str(), name.as_str()),
    }
}

// ---------------------------------------------------------------------------
// File names of new migrations
// ---------------------------------------------------------------------------

/// How the file names of new migrations are made.
#[derive(Debug, Clone, Copy, PartialEq, Eq, Structural)]
pub struct MigrationFilenameStrategy {
    /// Forward migrations get the extension `.up.surql`, else `.surql`.
    pub up_postfix: bool,
}

impl Default for MigrationFilenameStrategy {
    fn default() -> (strategy: MigrationFilenameStrategy)
        ensures
            strategy.up_postfix,
    {
        MigrationFilenameStrategy { up_postfix: true }
    }
}

/// The extension of a new migration's file.
pub open spec fn extension_for(kind: MigrationKind, up_postfix: bool) -> Seq<char> {
    match kind {
        MigrationKind::Down => ".down.surql"@,
        _ => if up_postfix {
            ".up.surql"@
        } else {
            ".surql"@
        },
    }
}

/// The file name of a new migration: its key, `_` and its title with each
/// space written as `_` if it has a title, and the extension.
pub open spec fn filename_of(key_text: Seq<char>, title: Seq<char>, extension: Seq<char>) -> Seq<char> {
    let t = replace_all(title, seq![' '], seq!['_']);
    if t.len() == 0 {
        key_text + extension
    } else {
        key_text + seq!['_'] + t + extension
    }
}

/// Appends characters to a vector of characters.
fn push_chars(out: &mut Vec<char>, more: &[char])
    ensures
        final(out)@ == old(out)@ + more@,
{
    let ghost start = out@;
    let mut i: usize = 0;
    while i < more.len()
        invariant
            i <= more.len(),
            out@ == start + more@.take(i as int),
        decreases more.len() - i,
    {
        out.push(more[i]);
        i += 1;
        assert(out@ =~= start + more@.take(i as int));
    }
    assert(more@.take(i as int) =~= more@);
}

impl MigrationFilenameStrategy {
    pub fn with_up_postfix(self, up_postfix: bool) -> (strategy: MigrationFilenameStrategy)
        ensures
            strategy.up_postfix == up_postfix,
    {
        MigrationFilenameStrategy { up_postfix }
    }

    /// The file name of the script of a new migration. A baseline has no
    /// script.
    pub fn get_filename(&self, migration: &NewMigration) -> (filename: String)
        requires
            migration.kind != MigrationKind::Baseline,
            migration.key.is_valid(),
        ensures
            filename@ == filename_of(
                formatted_key(migration.key),
                migration.title@,
                extension_for(migration.kind, self.up_postfix),
            ),
    {
        let key = migration.key.to_key_string();
        let title_chars = chars_of(migration.title.as_str());
        let space: Vec<char> = vec![' '];
        let underscore: Vec<char> = vec!['_'];
        assert(space@ =~= seq![' ']);
        assert(underscore@ =~= seq!['_']);
        let title = replace_all_exec(title_chars.as_slice(), space.as_slice(), underscore.as_slice());
        let extension = match migration.kind {
            MigrationKind::Down => DOWN_SCRIPT_FILE_EXTENSION,
            _ => if self.up_postfix {
                UP_SCRIPT_FILE_EXTENSION
            } else {
                SCRIPT_FILE_EXTENSION
            },
        };
        proof {
            reveal_strlit(".down.surql");
            reveal_strlit(".up.surql");
            reveal_strlit(".surql");
        }
        assert(extension@ == extension_for(migration.kind, self.up_postfix));
        let mut out = chars_of(key.as_str());
        if title.len() > 0 {
            out.push('_');
        }
        push_chars(&mut out, title.as_slice());
        push_chars(&mut out, chars_of(extension).as_slice());
        proof {
            let t = replace_all(migration.title@, seq![' '], seq!['_']);
            if t.len() == 0 {
                assert(out@ =~= key@ + extension@);
            } else {
                assert(out@ =~= key@ + seq!['_'] + t + extension@);
            }
        }
        string_of(out.as_slice())
    }
}

} // verus!

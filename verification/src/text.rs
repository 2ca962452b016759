//! Text utilities: characters and bytes of strings, replacing and joining.
use std::path::Path;
use vstd::prelude::*;
use vstd::string::StringSliceAdditionalSpecFns;
use vstd::utf8::*;

verus! {

/// The characters of a string, in order.
pub fn chars_of(s: &str) -> (v: Vec<char>)
    ensures
        v@ == s@,
{
    broadcast use vstd::string::group_string_axioms;

    let mut v: Vec<char> = Vec::new();
    for c in iter: s.chars()
        invariant
            v@ == iter.seq().take(iter.index() as int),
            iter.seq() == s@,
    {
        v.push(c);
    }
    v
}

/// Collects characters into a `String` (std's `FromIterator<&char>`).
///
/// Trusted: the string holds exactly the given characters, in order.
#[verifier::external_body]
pub(crate) fn string_of(chars: &[char]) -> (s: String)
    ensures
        s@ == chars@,
{
    chars.iter().collect()
}

/// The characters from position `from` up to `to`.
pub fn chars_range(v: &[char], from: usize, to: usize) -> (r: Vec<char>)
    requires
        from <= to <= v.len(),
    ensures
        r@ == v@.subrange(from as int, to as int),
{
    let mut r: Vec<char> = Vec::new();
    let mut i = from;
    while i < to
        invariant
            from <= i <= to <= v.len(),
            r@ == v@.subrange(from as int, i as int),
        decreases to - i,
    {
        r.push(v[i]);
        i += 1;
        assert(r@ =~= v@.subrange(from as int, i as int));
    }
    r
}

/// Replaces, from left to right, each occurrence of `pat` that does not
/// overlap an earlier one by `rep` (the semantics of `str::replace`).
pub open spec fn replace_all(s: Seq<char>, pat: Seq<char>, rep: Seq<char>) -> Seq<char>
    decreases s.len(),
{
    if pat.len() == 0 || s.len() < pat.len() {
        s
    } else if s.take(pat.len() as int) == pat {
        rep + replace_all(s.skip(pat.len() as int), pat, rep)
    } else {
        seq![s[0]] + replace_all(s.skip(1), pat, rep)
    }
}

/// `s` holds `pat` at position `i`.
pub open spec fn occurs_at<T>(s: Seq<T>, pat: Seq<T>, i: int) -> bool {
    0 <= i && i + pat.len() <= s.len() && s.subrange(i, i + pat.len()) == pat
}

/// `s` ends with `suffix`.
pub open spec fn ends_with<T>(s: Seq<T>, suffix: Seq<T>) -> bool {
    occurs_at(s, suffix, s.len() - suffix.len())
}

/// `s` holds `pat` somewhere.
pub open spec fn contains_seq<T>(s: Seq<T>, pat: Seq<T>) -> bool {
    exists|i: int| occurs_at(s, pat, i)
}

/// `true` when the bytes `s` hold `pat` at position `i`.
pub fn occurs_at_exec(s: &[u8], pat: &[u8], i: usize) -> (r: bool)
    ensures
        r == occurs_at(s@, pat@, i as int),
{
    if i > s.len() || pat.len() > s.len() - i {
        return false;
    }
    let mut j: usize = 0;
    while j < pat.len()
        invariant
            i + pat.len() <= s.len(),
            j <= pat.len(),
            forall|k: int| 0 <= k < j ==> s@[i + k] == pat@[k],
        decreases pat.len() - j,
    {
        if s[i + j] != pat[j] {
            assert(s@.subrange(i as int, i + pat.len())[j as int] != pat@[j as int]);
            return false;
        }
        j += 1;
    }
    assert(s@.subrange(i as int, i + pat.len()) =~= pat@);
    true
}

/// `true` when the bytes `s` end with `suffix`.
pub fn ends_with_exec(s: &[u8], suffix: &[u8]) -> (r: bool)
    ensures
        r == ends_with(s@, suffix@),
{
    if suffix.len() > s.len() {
        return false;
    }
    occurs_at_exec(s, suffix, s.len() - suffix.len())
}

/// `true` when the bytes `s` hold `pat` somewhere.
pub fn contains_exec(s: &[u8], pat: &[u8]) -> (r: bool)
    ensures
        r == contains_seq(s@, pat@),
{
    if pat.len() > s.len() {
        return false;
    }
    if pat.len() == 0 {
        assert(s@.subrange(0, 0) =~= pat@);
        assert(occurs_at(s@, pat@, 0));
        return true;
    }
    let mut i: usize = 0;
    while i <= s.len() - pat.len()
        invariant
            0 < pat.len() <= s.len(),
            i <= s.len() - pat.len() + 1,
            forall|k: int| 0 <= k < i ==> !occurs_at(s@, pat@, k),
        decreases s.len() - pat.len() + 1 - i,
    {
        if occurs_at_exec(s, pat, i) {
            return true;
        }
        i += 1;
    }
    true && {
        assert forall|k: int| !occurs_at(s@, pat@, k) by {
            if 0 <= k && k + pat.len() <= s.len() {
                assert(k < i);
            }
        }
        false
    }
}

/// `true` when the characters `s` hold `pat` at position `i`.
pub fn occurs_at_chars(s: &[char], pat: &[char], i: usize) -> (r: bool)
    ensures
        r == occurs_at(s@, pat@, i as int),
{
    if i > s.len() || pat.len() > s.len() - i {
        return false;
    }
    let mut j: usize = 0;
    while j < pat.len()
        invariant
            i + pat.len() <= s.len(),
            j <= pat.len(),
            forall|k: int| 0 <= k < j ==> s@[i + k] == pat@[k],
        decreases pat.len() - j,
    {
        if s[i + j] != pat[j] {
            assert(s@.subrange(i as int, i + pat.len())[j as int] != pat@[j as int]);
            return false;
        }
        j += 1;
    }
    assert(s@.subrange(i as int, i + pat.len()) =~= pat@);
    true
}

/// Replaces each non-overlapping occurrence of `pat` by `rep`, from left to right.
pub fn replace_all_exec(s: &[char], pat: &[char], rep: &[char]) -> (r: Vec<char>)
    requires
        pat.len() > 0,
    ensures
        r@ == replace_all(s@, pat@, rep@),
{
    let mut out: Vec<char> = Vec::new();
    let mut i: usize = 0;
    assert(s@.skip(0) =~= s@);
    while i < s.len()
        invariant
            pat.len() > 0,
            i <= s.len(),
            out@ + replace_all(s@.skip(i as int), pat@, rep@) == replace_all(s@, pat@, rep@),
        decreases s.len() - i,
    {
        let ghost rest = s@.skip(i as int);
        if pat.len() <= s.len() - i && occurs_at_chars(s, pat, i) {
            assert(rest.take(pat.len() as int) =~= s@.subrange(i as int, i + pat.len()));
            assert(rest.skip(pat.len() as int) =~= s@.skip(i + pat.len()));
            let mut j: usize = 0;
            let ghost out0 = out@;
            while j < rep.len()
                invariant
                    j <= rep.len(),
                    out@ == out0 + rep@.take(j as int),
                decreases rep.len() - j,
            {
                out.push(rep[j]);
                j += 1;
                assert(out@ =~= out0 + rep@.take(j as int));
            }
            assert(rep@.take(rep.len() as int) =~= rep@);
            assert(out@ + replace_all(s@.skip(i + pat.len()), pat@, rep@) =~= out0 + replace_all(rest, pat@, rep@));
            i += pat.len();
        } else {
            if pat.len() <= s.len() - i {
                assert(rest.take(pat.len() as int) =~= s@.subrange(i as int, i + pat.len()));
            }
            assert(rest.skip(1) =~= s@.skip(i + 1));
            let ghost out0 = out@;
            out.push(s[i]);
            assert(out@ + replace_all(s@.skip(i + 1), pat@, rep@) =~= out0 + replace_all(rest, pat@, rep@));
            i += 1;
        }
    }
    assert(s@.skip(i as int) =~= Seq::<char>::empty());
    assert(out@ + replace_all(s@.skip(i as int), pat@, rep@) =~= out@);
    out
}

/// A path with a file name appended: separated by `/` unless the path is
/// empty or already ends with `/` (the semantics of `PathBuf::push` for a
/// relative name on a Unix-like system).
pub open spec fn join_path(path: Seq<char>, name: Seq<char>) -> Seq<char> {
    if path.len() == 0 {
        name
    } else if path.last() == '/' {
        path + name
    } else {
        path + seq!['/'] + name
    }
}

/// Appends a file name to a path, as `join_path` says.
pub fn join_path_exec(path: &str, name: &str) -> (r: String)
    ensures
        r@ == join_path(path@, name@),
{
    let p = chars_of(path);
    let n = chars_of(name);
    let mut out: Vec<char> = p.clone();
    assert(out@ == p@);
    if p.len() > 0 && p[p.len() - 1] != '/' {
        out.push('/');
    }
    let ghost out0 = out@;
    let mut j: usize = 0;
    while j < n.len()
        invariant
            j <= n.len(),
            out@ == out0 + n@.take(j as int),
        decreases n.len() - j,
    {
        out.push(n[j]);
        j += 1;
        assert(out@ =~= out0 + n@.take(j as int));
    }
    assert(n@.take(n.len() as int) =~= n@);
    let r = string_of(out.as_slice());
    assert(r@ =~= join_path(path@, name@));
    r
}


/// The characters that the bytes from `from` to `to` of a UTF-8 text encode.
pub open spec fn byte_text(bytes: Seq<u8>, from: int, to: int) -> Seq<char> {
    decode_utf8(bytes.subrange(from, to))
}

/// The part of `s` between the byte positions `from` and `to`, both of which
/// must be character boundaries.
pub fn substring_bytes(s: &str, from: usize, to: usize) -> (r: &str)
    requires
        from <= to <= s.spec_bytes().len(),
        is_char_boundary(s.spec_bytes(), from as int),
        is_char_boundary(s.spec_bytes(), to as int),
    ensures
        r.spec_bytes() == s.spec_bytes().subrange(from as int, to as int),
        r@ == byte_text(s.spec_bytes(), from as int, to as int),
{
    broadcast use encode_utf8_valid_utf8, encode_utf8_decode_utf8, valid_utf8_split;
    broadcast use is_char_boundary_iff_not_is_continuation_byte;

    let ghost b = s.spec_bytes();
    let (head, _) = s.split_at(to);
    assert(head.spec_bytes() =~= b.subrange(0, to as int));
    let ghost hb = head.spec_bytes();
    assert(valid_utf8(hb));
    if from < to {
        assert(hb[from as int] == b[from as int]);
        proof {
            is_char_boundary_iff_not_is_continuation_byte(b, from as int);
            is_char_boundary_iff_not_is_continuation_byte(hb, from as int);
        }
    } else {
        proof { is_char_boundary_start_end_of_seq(hb); }
    }
    let (_, part) = head.split_at(from);
    assert(part.spec_bytes() =~= b.subrange(from as int, to as int));
    assert(decode_utf8(encode_utf8(part@)) == part@);
    part
}

/// What `std::path::Path::file_name` gives for a path: its last component,
/// if that is a file or directory name.
pub uninterp spec fn std_path_file_name(path: Seq<char>) -> Option<Seq<char>>;

/// What `std::path::Path::parent` gives for a path: the path without its
/// last component, if it has one.
pub uninterp spec fn std_path_parent(path: Seq<char>) -> Option<Seq<char>>;

/// Calls `std::path::Path::file_name` on a path given as text.
///
/// Trusted: the result is `std_path_file_name(path)`; nothing more is stated
/// of it.
#[verifier::external_body]
pub(crate) fn path_file_name(path: &str) -> (name: Option<String>)
    ensures
        match name {
            Some(n) => std_path_file_name(path@) == Some(n@),
            None => std_path_file_name(path@) is None,
        },
{
    Path::new(path).file_name().map(|n| n.to_string_lossy().into_owned())
}

/// Calls `std::path::Path::parent` on a path given as text.
///
/// Trusted: the result is `std_path_parent(path)`; nothing more is stated of
/// it.
#[verifier::external_body]
pub(crate) fn path_parent(path: &str) -> (parent: Option<String>)
    ensures
        match parent {
            Some(p) => std_path_parent(path@) == Some(p@),
            None => std_path_parent(path@) is None,
        },
{
    Path::new(path).parent().map(|p| p.to_string_lossy().into_owned())
}

/// The parts of a text between the separator `sep`, from left to right; a
/// text without separator is one part.
pub open spec fn split_on(s: Seq<char>, sep: char) -> Seq<Seq<char>>
    decreases s.len(),
{
    if s.len() == 0 {
        seq![Seq::<char>::empty()]
    } else {
        let parts = split_on(s.drop_last(), sep);
        if s.last() == sep {
            parts.push(Seq::empty())
        } else {
            parts.update(parts.len() - 1, parts.last().push(s.last()))
        }
    }
}

/// The parts joined with the separator `sep` between them.
pub open spec fn join_with(parts: Seq<Seq<char>>, sep: char) -> Seq<char>
    decreases parts.len(),
{
    if parts.len() == 0 {
        Seq::empty()
    } else if parts.len() == 1 {
        parts[0]
    } else {
        join_with(parts.drop_last(), sep).push(sep) + parts.last()
    }
}

pub proof fn lemma_split_on(s: Seq<char>, sep: char)
    ensures
        split_on(s, sep).len() >= 1,
        join_with(split_on(s, sep), sep) == s,
        forall|i: int| 0 <= i < split_on(s, sep).len() ==> !(#[trigger] split_on(s, sep)[i]).contains(sep),
    decreases s.len(),
{
    if s.len() > 0 {
        let r = s.drop_last();
        lemma_split_on(r, sep);
        let parts = split_on(r, sep);
        let n = parts.len();
        if s.last() == sep {
            let t = parts.push(Seq::<char>::empty());
            assert(t.drop_last() =~= parts);
            assert(join_with(t, sep) =~= s);
            assert forall|i: int| 0 <= i < t.len() implies !(#[trigger] t[i]).contains(sep) by {
                if i < n {
                    assert(t[i] == parts[i]);
                }
            }
        } else {
            let x = parts.last().push(s.last());
            let t = parts.update(n - 1, x);
            assert(t.drop_last() =~= parts.drop_last());
            if n == 1 {
                assert(parts[0] =~= r);
                assert(join_with(t, sep) =~= s);
            } else {
                let a = join_with(parts.drop_last(), sep).push(sep);
                assert(join_with(parts, sep) == a + parts.last());
                assert(t.last() == x);
                assert(join_with(t, sep) == join_with(t.drop_last(), sep).push(sep) + t.last());
                assert(join_with(t, sep) == a + x);
                assert(a + x =~= (a + parts.last()).push(s.last()));
                assert(s =~= r.push(s.last()));
            }
            assert forall|i: int| 0 <= i < t.len() implies !(#[trigger] t[i]).contains(sep) by {
                if i < n - 1 {
                    assert(t[i] == parts[i]);
                } else {
                    assert(!parts[n - 1].contains(sep));
                    if x.contains(sep) {
                        let j = choose|j: int| 0 <= j < x.len() && x[j] == sep;
                        if j < x.len() - 1 {
                            assert(parts[n - 1][j] == sep);
                        }
                    }
                }
            }
        }
    }
}

/// Splits a text at each separator `sep`.
pub fn split_exec(s: &[char], sep: char) -> (parts: Vec<Vec<char>>)
    ensures
        parts@.len() == split_on(s@, sep).len(),
        forall|i: int| 0 <= i < parts@.len() ==> (#[trigger] parts@[i])@ == split_on(s@, sep)[i],
{
    let mut parts: Vec<Vec<char>> = Vec::new();
    let mut current: Vec<char> = Vec::new();
    let mut i: usize = 0;
    assert(s@.take(0) =~= Seq::<char>::empty());
    while i < s.len()
        invariant
            i <= s.len(),
            parts@.len() + 1 == split_on(s@.take(i as int), sep).len(),
            forall|j: int| 0 <= j < parts@.len() ==> (#[trigger] parts@[j])@ == split_on(s@.take(i as int), sep)[j],
            current@ == split_on(s@.take(i as int), sep).last(),
        decreases s.len() - i,
    {
        let ghost before = split_on(s@.take(i as int), sep);
        assert(s@.take(i + 1).drop_last() =~= s@.take(i as int));
        assert(s@.take(i + 1).last() == s@[i as int]);
        if s[i] == sep {
            let done = current;
            parts.push(done);
            current = Vec::new();
        } else {
            current.push(s[i]);
        }
        i += 1;
        assert forall|j: int| 0 <= j < parts@.len() implies (#[trigger] parts@[j])@ == split_on(s@.take(i as int), sep)[j] by {
            if j < before.len() - 1 {
                assert(split_on(s@.take(i as int), sep)[j] == before[j]);
            }
        }
    }
    assert(s@.take(i as int) =~= s@);
    let ghost before = parts@;
    parts.push(current);
    assert forall|j: int| 0 <= j < parts@.len() implies (#[trigger] parts@[j])@ == split_on(s@, sep)[j] by {
        if j < before.len() {
            assert(parts@[j] == before[j]);
        }
    }
    parts
}

/// Appends the characters of a text.
pub fn append_text(out: &mut Vec<char>, text: &str)
    ensures
        final(out)@ == old(out)@ + text@,
{
    let chars = chars_of(text);
    let ghost start = out@;
    let mut i: usize = 0;
    while i < chars.len()
        invariant
            chars@ == text@,
            i <= chars.len(),
            out@ == start + text@.take(i as int),
        decreases chars.len() - i,
    {
        out.push(chars[i]);
        i += 1;
        assert(out@ =~= start + text@.take(i as int));
    }
    assert(text@.take(i as int) =~= text@);
}

/// Whether `char::is_whitespace` holds of a character.
pub uninterp spec fn std_char_is_whitespace(c: char) -> bool;

/// Calls `char::is_whitespace`.
///
/// Trusted: the result is `std_char_is_whitespace(c)`; a space is white
/// space, an ASCII letter or digit is not.
#[verifier::external_body]
fn char_is_whitespace(c: char) -> (b: bool)
    ensures
        b == std_char_is_whitespace(c),
        c == ' ' ==> b,
        ('a' <= c <= 'z' || 'A' <= c <= 'Z' || '0' <= c <= '9') ==> !b,
{
    c.is_whitespace()
}

/// The text without the white space at its start.
pub open spec fn trim_start(s: Seq<char>) -> Seq<char>
    decreases s.len(),
{
    if s.len() > 0 && std_char_is_whitespace(s[0]) {
        trim_start(s.skip(1))
    } else {
        s
    }
}

/// The text without the white space at its end.
pub open spec fn trim_end(s: Seq<char>) -> Seq<char>
    decreases s.len(),
{
    if s.len() > 0 && std_char_is_whitespace(s.last()) {
        trim_end(s.drop_last())
    } else {
        s
    }
}

/// The text without white space at its start and end (`str::trim`).
pub open spec fn trimmed(s: Seq<char>) -> Seq<char> {
    trim_end(trim_start(s))
}

/// Removes the white space at the start and end of a text.
pub fn trim_text(s: &str) -> (t: String)
    ensures
        t@ == trimmed(s@),
{
    let chars = chars_of(s);
    let mut from: usize = 0;
    assert(s@.skip(0) =~= s@);
    while from < chars.len() && char_is_whitespace(chars[from])
        invariant
            chars@ == s@,
            from <= chars.len(),
            trim_start(s@) == trim_start(s@.skip(from as int)),
        decreases chars.len() - from,
    {
        assert(s@.skip(from as int).skip(1) =~= s@.skip(from + 1));
        from += 1;
    }
    let ghost start = s@.skip(from as int);
    assert(trim_start(s@) == start);
    let mut to: usize = chars.len();
    assert(start.take(to - from) =~= start);
    while to > from && char_is_whitespace(chars[to - 1])
        invariant
            chars@ == s@,
            from <= to <= chars.len(),
            start == s@.skip(from as int),
            trim_end(start) == trim_end(start.take(to - from)),
        decreases to,
    {
        assert(start.take(to - from).drop_last() =~= start.take(to - 1 - from));
        assert(start.take(to - from).last() == chars@[to - 1]);
        to -= 1;
    }
    if to > from {
        assert(start.take(to - from).last() == chars@[to - 1]);
    }
    assert(trim_end(start) == start.take(to - from));
    let part = chars_range(chars.as_slice(), from, to);
    assert(part@ =~= start.take(to - from));
    string_of(part.as_slice())
}

} // verus!

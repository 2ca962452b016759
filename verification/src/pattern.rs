//! Patterns of files that are excluded when scanning a migrations folder:
//! wildcard patterns such as `.*`, `README*` or `**/.keep`, separated by `|`.
use crate::config::DEFAULT_EXCLUDED_FILES;
use crate::error::{FilePatternError, FilePatternErrorView};
use crate::text::{
    chars_of, join_with, lemma_split_on, path_file_name, replace_all, replace_all_exec, split_exec,
    split_on, std_path_file_name, string_of,
};
use regex::Regex;
use std::str::FromStr;
use vstd::prelude::*;

verus! {

/// What `char::is_alphanumeric` says of a character.
pub uninterp spec fn std_char_is_alphanumeric(c: char) -> bool;

/// What `regex::Regex::new` reports for a regular expression: `None` when it
/// compiles, else the message of the error.
pub uninterp spec fn regex_compile_error(source: Seq<char>) -> Option<Seq<char>>;

/// What `regex::Regex::is_match` says of a text for the regular expression
/// compiled from `source`; `false` when it does not compile.
pub uninterp spec fn regex_is_match(source: Seq<char>, haystack: Seq<char>) -> bool;

/// Calls `char::is_alphanumeric`.
///
/// Trusted: the result is `std_char_is_alphanumeric(c)`; an ASCII character
/// is alphanumeric exactly when it is a letter or a digit.
#[verifier::external_body]
fn char_is_alphanumeric(c: char) -> (b: bool)
    ensures
        b == std_char_is_alphanumeric(c),
        (c as u32) < 128 ==> (b <==> ('a' <= c <= 'z' || 'A' <= c <= 'Z' || '0' <= c <= '9')),
{
    c.is_alphanumeric()
}

/// A pattern that is short enough for its regular expression to stay far
/// below the size limit of compiled regular expressions, is not empty and
/// holds only characters that may stand in a pattern.
pub open spec fn plain_pattern(p: Seq<char>) -> bool {
    &&& 0 < p.len() <= 4096
    &&& forall|i: int| 0 <= i < p.len() ==> valid_pattern_char(#[trigger] p[i])
}

/// Calls `regex::Regex::new` and keeps the message of its error.
///
/// Trusted: the result is `regex_compile_error(source)`. The regular
/// expression of a plain pattern compiles: it is `^`, then literal letters,
/// digits, spaces, `_`, `-` and `/`, escaped dots `\.`, and the repetitions
/// `.*` and `[^/]*`, then `$` (all valid in the regex syntax), and at most
/// 4096 such pieces stay far below the default size limit of 10 MiB (each
/// piece compiles to a few hundred bytes).
#[verifier::external_body]
fn regex_error(source: &str) -> (message: Option<String>)
    ensures
        match message {
            Some(m) => regex_compile_error(source@) == Some(m@),
            None => regex_compile_error(source@) is None,
        },
        (exists|p: Seq<char>| #[trigger] plain_pattern(p) && source@ == regex_source_of(p))
            ==> message is None,
{
    Regex::new(source).err().map(|err| err.to_string())
}

/// Calls `regex::Regex::is_match` on the regular expression compiled from
/// `source`.
///
/// Trusted: the result is `regex_is_match(source, haystack)`.
#[verifier::external_body]
fn regex_matches(source: &str, haystack: &str) -> (b: bool)
    ensures
        b == regex_is_match(source@, haystack@),
{
    Regex::new(source).is_ok_and(|regex| regex.is_match(haystack))
}

/// A character that may stand in a pattern: a wildcard `*`, a space, `_`,
/// `-`, `.`, `/`, an ASCII letter or digit, or a letter or digit beyond
/// ASCII (as `char::is_alphanumeric` says).
pub open spec fn valid_pattern_char(c: char) -> bool {
    ||| c == '*' || c == ' ' || c == '_' || c == '-' || c == '.' || c == '/'
    ||| 'a' <= c <= 'z' || 'A' <= c <= 'Z' || '0' <= c <= '9'
    ||| (c as u32) >= 128 && std_char_is_alphanumeric(c)
}

/// The characters of a text that may not stand in a pattern, in order.
pub open spec fn invalid_chars(s: Seq<char>) -> Seq<char>
    decreases s.len(),
{
    if s.len() == 0 {
        Seq::empty()
    } else if valid_pattern_char(s.last()) {
        invalid_chars(s.drop_last())
    } else {
        invalid_chars(s.drop_last()).push(s.last())
    }
}

pub fn is_valid_pattern_char(c: char) -> (b: bool)
    ensures
        b == valid_pattern_char(c),
{
    if c == '*' || c == ' ' || c == '_' || c == '-' || c == '.' || c == '/' {
        true
    } else {
        char_is_alphanumeric(c)
    }
}

/// The characters of a text that may not stand in a pattern, in order.
pub fn scan_for_invalid_characters(s: &str) -> (invalid: Vec<char>)
    ensures
        invalid@ == invalid_chars(s@),
{
    let chars = chars_of(s);
    let mut invalid: Vec<char> = Vec::new();
    let mut i: usize = 0;
    while i < chars.len()
        invariant
            chars@ == s@,
            i <= chars.len(),
            invalid@ == invalid_chars(chars@.take(i as int)),
        decreases chars.len() - i,
    {
        assert(chars@.take(i + 1).drop_last() =~= chars@.take(i as int));
        if !is_valid_pattern_char(chars[i]) {
            invalid.push(chars[i]);
        }
        i += 1;
    }
    assert(chars@.take(i as int) =~= chars@);
    invalid
}

/// The regular expression of a pattern: `.` stands for itself, `**` for any
/// text, `*` for any text without `/`; it matches the whole text.
pub open spec fn regex_source_of(pattern: Seq<char>) -> Seq<char> {
    let escaped = replace_all(pattern, seq!['.'], seq!['\\', '.']);
    let deep = replace_all(escaped, seq!['*', '*'], seq!['.', '?']);
    let shallow = replace_all(deep, seq!['*'], seq!['[', '^', '/', ']', '*']);
    let any = replace_all(shallow, seq!['.', '?'], seq!['.', '*']);
    seq!['^'] + any + seq!['$']
}

/// A pattern of file names (without `/`) or of paths.
#[derive(Clone, Debug, PartialEq, Eq)]
pub struct FilePattern {
    /// The pattern as written.
    pub pattern: String,
    /// The regular expression that the pattern stands for.
    pub regex: String,
    /// The pattern holds no `/` and is matched against file names.
    pub filename_pattern: bool,
}

pub struct FilePatternView {
    pub pattern: Seq<char>,
    pub regex: Seq<char>,
    pub filename_pattern: bool,
}

impl View for FilePattern {
    type V = FilePatternView;

    open spec fn view(&self) -> FilePatternView {
        FilePatternView {
            pattern: self.pattern@,
            regex: self.regex@,
            filename_pattern: self.filename_pattern,
        }
    }
}

/// What reading one pattern gives.
pub open spec fn file_pattern_of(s: Seq<char>) -> Result<FilePatternView, FilePatternErrorView> {
    if s.len() == 0 {
        Err(FilePatternErrorView::EmptySubPatternNotAllowed)
    } else if invalid_chars(s).len() > 0 {
        Err(FilePatternErrorView::InvalidCharacter(invalid_chars(s)))
    } else {
        match regex_compile_error(regex_source_of(s)) {
            Some(m) => Err(FilePatternErrorView::InvalidPattern(m)),
            None => Ok(
                FilePatternView {
                    pattern: s,
                    regex: regex_source_of(s),
                    filename_pattern: !s.contains('/'),
                },
            ),
        }
    }
}

pub open spec fn file_pattern_result_view(r: Result<FilePattern, FilePatternError>) -> Result<
    FilePatternView,
    FilePatternErrorView,
> {
    match r {
        Ok(p) => Ok(p@),
        Err(e) => Err(e@),
    }
}

/// The regular expression of a pattern, as `regex_source_of` says.
fn regex_source(pattern: &[char]) -> (source: String)
    ensures
        source@ == regex_source_of(pattern@),
{
    let dot: Vec<char> = vec!['.'];
    let escaped_dot: Vec<char> = vec!['\\', '.'];
    let two_stars: Vec<char> = vec!['*', '*'];
    let dot_question: Vec<char> = vec!['.', '?'];
    let star: Vec<char> = vec!['*'];
    let not_slash: Vec<char> = vec!['[', '^', '/', ']', '*'];
    let dot_star: Vec<char> = vec!['.', '*'];
    assert(dot@ =~= seq!['.']);
    assert(escaped_dot@ =~= seq!['\\', '.']);
    assert(two_stars@ =~= seq!['*', '*']);
    assert(dot_question@ =~= seq!['.', '?']);
    assert(star@ =~= seq!['*']);
    assert(not_slash@ =~= seq!['[', '^', '/', ']', '*']);
    assert(dot_star@ =~= seq!['.', '*']);
    let escaped = replace_all_exec(pattern, dot.as_slice(), escaped_dot.as_slice());
    let deep = replace_all_exec(escaped.as_slice(), two_stars.as_slice(), dot_question.as_slice());
    let shallow = replace_all_exec(deep.as_slice(), star.as_slice(), not_slash.as_slice());
    let any = replace_all_exec(shallow.as_slice(), dot_question.as_slice(), dot_star.as_slice());
    let mut all: Vec<char> = vec!['^'];
    let ghost start = all@;
    let mut i: usize = 0;
    while i < any.len()
        invariant
            i <= any.len(),
            all@ == start + any@.take(i as int),
        decreases any.len() - i,
    {
        all.push(any[i]);
        i += 1;
        assert(all@ =~= start + any@.take(i as int));
    }
    all.push('$');
    assert(any@.take(any.len() as int) =~= any@);
    assert(all@ =~= regex_source_of(pattern@));
    string_of(all.as_slice())
}

/// `true` when the characters hold `c`.
fn contains_char(s: &[char], c: char) -> (b: bool)
    ensures
        b == s@.contains(c),
{
    let mut i: usize = 0;
    while i < s.len()
        invariant
            i <= s.len(),
            forall|j: int| 0 <= j < i ==> s@[j] != c,
        decreases s.len() - i,
    {
        if s[i] == c {
            assert(s@[i as int] == c);
            return true;
        }
        i += 1;
    }
    false
}

impl FilePattern {
    pub fn is_filename_pattern(&self) -> (b: bool)
        ensures
            b == self.filename_pattern,
    {
        self.filename_pattern
    }

    /// `true` when the whole text matches the pattern.
    pub fn is_match(&self, haystack: &str) -> (b: bool)
        ensures
            b == regex_is_match(self.regex@, haystack@),
    {
        regex_matches(self.regex.as_str(), haystack)
    }

    /// The pattern as written.
    pub fn to_string(&self) -> (s: String)
        ensures
            s@ == self.pattern@,
    {
        self.pattern.clone()
    }

    /// Reads one pattern.
    pub fn parse(pattern: &str) -> (r: Result<FilePattern, FilePatternError>)
        ensures
            file_pattern_result_view(r) == file_pattern_of(pattern@),
            plain_pattern(pattern@) ==> r is Ok,
    {
        let chars = chars_of(pattern);
        if chars.len() == 0 {
            return Err(FilePatternError::EmptySubPatternNotAllowed);
        }
        let invalid = scan_for_invalid_characters(pattern);
        proof {
            law_invalid_characters(pattern@);
        }
        if invalid.len() > 0 {
            return Err(FilePatternError::InvalidCharacter(invalid));
        }
        let source = regex_source(chars.as_slice());
        proof {
            if plain_pattern(chars@) {
                assert(plain_pattern(chars@) && source@ == regex_source_of(chars@));
            }
        }
        match regex_error(source.as_str()) {
            Some(message) => Err(FilePatternError::InvalidPattern(message)),
            None => {
                let filename_pattern = !contains_char(chars.as_slice(), '/');
                Ok(FilePattern { pattern: string_of(chars.as_slice()), regex: source, filename_pattern })
            },
        }
    }
}

/// Patterns of files to exclude; a file is excluded when any of them matches.
#[derive(Clone, Debug, PartialEq, Eq)]
pub struct ExcludedFiles {
    pub pattern: Vec<FilePattern>,
}

/// The views of patterns.
pub open spec fn pattern_views(v: Seq<FilePattern>) -> Seq<FilePatternView> {
    v.map_values(|p: FilePattern| p@)
}

/// What reading the patterns of the parts gives: the first part that is not
/// a pattern decides the error.
pub open spec fn file_patterns_of(parts: Seq<Seq<char>>) -> Result<
    Seq<FilePatternView>,
    FilePatternErrorView,
>
    decreases parts.len(),
{
    if parts.len() == 0 {
        Ok(Seq::empty())
    } else {
        match file_patterns_of(parts.drop_last()) {
            Err(e) => Err(e),
            Ok(ps) => match file_pattern_of(parts.last()) {
                Err(e) => Err(e),
                Ok(p) => Ok(ps.push(p)),
            },
        }
    }
}

/// A text of patterns separated by `|` that is empty or whose patterns are
/// all plain.
pub open spec fn plain_excludes_text(s: Seq<char>) -> bool {
    s.len() == 0 || forall|i: int|
        0 <= i < split_on(s, '|').len() ==> plain_pattern(#[trigger] split_on(s, '|')[i])
}

/// What reading patterns separated by `|` gives; an empty text has no pattern.
pub open spec fn excluded_files_of(s: Seq<char>) -> Result<Seq<FilePatternView>, FilePatternErrorView> {
    if s.len() == 0 {
        Ok(Seq::empty())
    } else {
        file_patterns_of(split_on(s, '|'))
    }
}

pub open spec fn excluded_files_result_view(r: Result<ExcludedFiles, FilePatternError>) -> Result<
    Seq<FilePatternView>,
    FilePatternErrorView,
> {
    match r {
        Ok(e) => Ok(pattern_views(e.pattern@)),
        Err(e) => Err(e@),
    }
}

/// The text of patterns: each as written, separated by `|`.
pub open spec fn patterns_text(patterns: Seq<FilePatternView>) -> Seq<char> {
    join_with(patterns.map_values(|p: FilePatternView| p.pattern), '|')
}

impl Default for ExcludedFiles {
    /// The default patterns `DEFAULT_EXCLUDED_FILES`: `.*`, `README*` and
    /// `TODO*`.
    fn default() -> (e: ExcludedFiles)
        ensures
            pattern_views(e.pattern@) == crate::config::default_excluded_patterns(),
            patterns_text(pattern_views(e.pattern@)) == DEFAULT_EXCLUDED_FILES@,
            excluded_files_of(DEFAULT_EXCLUDED_FILES@) == Ok::<
                Seq<FilePatternView>,
                FilePatternErrorView,
            >(crate::config::default_excluded_patterns()),
    {
        let r = ExcludedFiles::parse(DEFAULT_EXCLUDED_FILES);
        proof {
            lemma_default_excluded_files();
        }
        r.unwrap()
    }
}

impl FromStr for ExcludedFiles {
    type Err = FilePatternError;

    fn from_str(s: &str) -> (r: Result<ExcludedFiles, FilePatternError>)
        ensures
            excluded_files_result_view(r) == excluded_files_of(s@),
            plain_excludes_text(s@) ==> (r matches Ok(e) && patterns_text(pattern_views(e.pattern@))
                == s@),
    {
        ExcludedFiles::parse(s)
    }
}

impl FromStr for FilePattern {
    type Err = FilePatternError;

    fn from_str(s: &str) -> (r: Result<FilePattern, FilePatternError>)
        ensures
            file_pattern_result_view(r) == file_pattern_of(s@),
            plain_pattern(s@) ==> r is Ok,
    {
        FilePattern::parse(s)
    }
}

/// A pattern matches a file: a pattern of file names its name `name`, another
/// pattern its path `full`.
pub open spec fn pattern_hits(p: FilePatternView, name: Seq<char>, full: Seq<char>) -> bool {
    if p.filename_pattern {
        regex_is_match(p.regex, name)
    } else {
        regex_is_match(p.regex, full)
    }
}

/// The patterns exclude the file at `path`: it has a file name, and a
/// pattern matches the name or the path written with `/` in place of `\`.
pub open spec fn excludes(patterns: Seq<FilePatternView>, path: Seq<char>) -> bool {
    match std_path_file_name(path) {
        None => false,
        Some(name) => name.len() > 0 && exists|i: int|
            0 <= i < patterns.len() && #[trigger] pattern_hits(
                patterns[i],
                name,
                replace_all(path, seq!['\\'], seq!['/']),
            ),
    }
}

impl ExcludedFiles {
    /// No patterns: no file is excluded.
    pub fn empty() -> (e: ExcludedFiles)
        ensures
            e.pattern@.len() == 0,
    {
        ExcludedFiles { pattern: Vec::new() }
    }

    /// Reads patterns separated by `|`.
    pub fn parse(s: &str) -> (r: Result<ExcludedFiles, FilePatternError>)
        ensures
            excluded_files_result_view(r) == excluded_files_of(s@),
            plain_excludes_text(s@) ==> (r matches Ok(e) && patterns_text(pattern_views(e.pattern@))
                == s@),
    {
        proof {
            law_excluded_files_text_round_trip(s@);
        }
        let chars = chars_of(s);
        if chars.len() == 0 {
            let e = ExcludedFiles::empty();
            assert(pattern_views(e.pattern@) =~= Seq::<FilePatternView>::empty());
            return Ok(e);
        }
        let parts = split_exec(chars.as_slice(), '|');
        let ghost all = split_on(s@, '|');
        let mut patterns: Vec<FilePattern> = Vec::new();
        let mut i: usize = 0;
        assert(all.take(0) =~= Seq::<Seq<char>>::empty());
        assert(pattern_views(patterns@) =~= Seq::<FilePatternView>::empty());
        while i < parts.len()
            invariant
                chars@ == s@,
                s@.len() > 0,
                all == split_on(s@, '|'),
                parts@.len() == all.len(),
                forall|j: int| 0 <= j < parts@.len() ==> (#[trigger] parts@[j])@ == all[j],
                i <= parts.len(),
                file_patterns_of(all.take(i as int)) == Ok::<
                    Seq<FilePatternView>,
                    FilePatternErrorView,
                >(pattern_views(patterns@)),
            decreases parts.len() - i,
        {
            assert(all.take(i + 1).drop_last() =~= all.take(i as int));
            assert(all.take(i + 1).last() == parts@[i as int]@);
            let text = string_of(parts[i].as_slice());
            match FilePattern::parse(text.as_str()) {
                Err(e) => {
                    proof {
                        lemma_first_error_stays(all, i + 1);
                        if plain_excludes_text(s@) {
                            assert(plain_pattern(all[i as int]));
                        }
                    }
                    return Err(e);
                },
                Ok(p) => {
                    let ghost before = patterns@;
                    patterns.push(p);
                    assert(pattern_views(patterns@) =~= pattern_views(before).push(p@));
                },
            }
            i += 1;
        }
        assert(all.take(i as int) =~= all);
        Ok(ExcludedFiles { pattern: patterns })
    }

    /// The patterns as written, separated by `|`.
    pub fn to_string(&self) -> (s: String)
        ensures
            s@ == patterns_text(pattern_views(self.pattern@)),
    {
        let mut out: Vec<char> = Vec::new();
        let mut i: usize = 0;
        let ghost texts = pattern_views(self.pattern@).map_values(|p: FilePatternView| p.pattern);
        while i < self.pattern.len()
            invariant
                i <= self.pattern.len(),
                texts == pattern_views(self.pattern@).map_values(|p: FilePatternView| p.pattern),
                out@ == join_with(texts.take(i as int), '|'),
            decreases self.pattern.len() - i,
        {
            let ghost before = out@;
            if i > 0 {
                out.push('|');
            }
            let text = chars_of(self.pattern[i].pattern.as_str());
            let mut j: usize = 0;
            let ghost mid = out@;
            while j < text.len()
                invariant
                    j <= text.len(),
                    out@ == mid + text@.take(j as int),
                decreases text.len() - j,
            {
                out.push(text[j]);
                j += 1;
                assert(out@ =~= mid + text@.take(j as int));
            }
            assert(text@.take(j as int) =~= text@);
            assert(texts.take(i + 1).drop_last() =~= texts.take(i as int));
            assert(texts[i as int] == text@);
            if i == 0 {
                assert(texts.take(1) =~= seq![text@]);
                assert(out@ =~= join_with(texts.take(1), '|'));
            } else {
                assert(out@ =~= join_with(texts.take(i + 1), '|'));
            }
            i += 1;
        }
        assert(texts.take(i as int) =~= texts);
        string_of(out.as_slice())
    }

    /// `true` when a pattern matches the file: a pattern of file names
    /// matches its file name, another one its path written with `/`. A path
    /// without a file name is never excluded.
    pub fn matches(&self, path: &str) -> (b: bool)
        ensures
            b == excludes(pattern_views(self.pattern@), path@),
    {
        let name = match path_file_name(path) {
            None => {
                return false;
            },
            Some(n) => n,
        };
        if chars_of(name.as_str()).len() == 0 {
            return false;
        }
        let path_chars = chars_of(path);
        let backslash: Vec<char> = vec!['\\'];
        let slash: Vec<char> = vec!['/'];
        assert(backslash@ =~= seq!['\\']);
        assert(slash@ =~= seq!['/']);
        let full = string_of(
            replace_all_exec(path_chars.as_slice(), backslash.as_slice(), slash.as_slice()).as_slice(),
        );
        let mut i: usize = 0;
        while i < self.pattern.len()
            invariant
                i <= self.pattern.len(),
                std_path_file_name(path@) == Some(name@),
                name@.len() > 0,
                full@ == replace_all(path@, seq!['\\'], seq!['/']),
                forall|j: int|
                    0 <= j < i ==> !#[trigger] pattern_hits(self.pattern@[j]@, name@, full@),
            decreases self.pattern.len() - i,
        {
            let p = &self.pattern[i];
            let hit = if p.is_filename_pattern() {
                p.is_match(name.as_str())
            } else {
                p.is_match(full.as_str())
            };
            if hit {
                assert(pattern_views(self.pattern@)[i as int] == p@);
                assert(pattern_hits(
                    pattern_views(self.pattern@)[i as int],
                    name@,
                    replace_all(path@, seq!['\\'], seq!['/']),
                ));
                assert(pattern_views(self.pattern@).len() == self.pattern@.len());
                assert(std_path_file_name(path@) == Some(name@));
                assert(excludes(pattern_views(self.pattern@), path@));
                return true;
            }
            i += 1;
        }
        assert forall|j: int| 0 <= j < self.pattern@.len() implies !#[trigger] pattern_hits(
            pattern_views(self.pattern@)[j],
            name@,
            full@,
        ) by {
            assert(pattern_views(self.pattern@)[j] == self.pattern@[j]@);
        }
        false
    }
}

// ---------------------------------------------------------------------------
// Laws
// ---------------------------------------------------------------------------

/// Once a part is not a pattern, reading more parts keeps its error.
proof fn lemma_first_error_stays(parts: Seq<Seq<char>>, k: int)
    requires
        0 <= k <= parts.len(),
        file_patterns_of(parts.take(k)) is Err,
    ensures
        file_patterns_of(parts) == file_patterns_of(parts.take(k)),
    decreases parts.len() - k,
{
    if k < parts.len() {
        let next = parts.take(k + 1);
        assert(next.drop_last() =~= parts.take(k));
        lemma_first_error_stays(parts, k + 1);
    } else {
        assert(parts.take(k) =~= parts);
    }
}

proof fn lemma_file_patterns_of(parts: Seq<Seq<char>>)
    ensures
        file_patterns_of(parts) matches Ok(ps) ==> ps.map_values(|p: FilePatternView| p.pattern)
            == parts,
    decreases parts.len(),
{
    if parts.len() > 0 {
        lemma_file_patterns_of(parts.drop_last());
        if let Ok(ps) = file_patterns_of(parts) {
            let qs = match file_patterns_of(parts.drop_last()) {
                Ok(q) => q,
                Err(_) => Seq::empty(),
            };
            assert(ps.map_values(|p: FilePatternView| p.pattern) =~= qs.map_values(
                |p: FilePatternView| p.pattern,
            ).push(parts.last()));
            assert(parts =~= parts.drop_last().push(parts.last()));
        }
    } else {
        if let Ok(ps) = file_patterns_of(parts) {
            assert(ps.map_values(|p: FilePatternView| p.pattern) =~= parts);
        }
    }
}

/// Writing the patterns read from a text gives the text back.
pub proof fn law_excluded_files_text_round_trip(s: Seq<char>)
    ensures
        excluded_files_of(s) matches Ok(ps) ==> patterns_text(ps) == s,
{
    if s.len() > 0 {
        lemma_split_on(s, '|');
        lemma_file_patterns_of(split_on(s, '|'));
    } else {
        if let Ok(ps) = excluded_files_of(s) {
            assert(ps.map_values(|p: FilePatternView| p.pattern) =~= Seq::<Seq<char>>::empty());
        }
    }
}

/// Writing a pattern read from a text gives the text back; a pattern is a
/// pattern of file names exactly when it holds no `/`.
pub proof fn law_file_pattern_text_round_trip(s: Seq<char>)
    ensures
        file_pattern_of(s) matches Ok(p) ==> p.pattern == s && p.filename_pattern == !s.contains(
            '/',
        ),
{
}

/// A text of valid pattern characters has no invalid character; a text of
/// invalid ones has all its characters invalid.
pub proof fn law_invalid_characters(s: Seq<char>)
    ensures
        (forall|i: int| 0 <= i < s.len() ==> valid_pattern_char(#[trigger] s[i])) ==> invalid_chars(
            s,
        ).len() == 0,
        (forall|i: int| 0 <= i < s.len() ==> !valid_pattern_char(#[trigger] s[i])) ==> invalid_chars(
            s,
        ) == s,
    decreases s.len(),
{
    if s.len() > 0 {
        let r = s.drop_last();
        law_invalid_characters(r);
        if forall|i: int| 0 <= i < s.len() ==> valid_pattern_char(#[trigger] s[i]) {
            assert forall|i: int| 0 <= i < r.len() implies valid_pattern_char(#[trigger] r[i]) by {
                assert(r[i] == s[i]);
            }
            assert(valid_pattern_char(s[s.len() - 1]));
        }
        if forall|i: int| 0 <= i < s.len() ==> !valid_pattern_char(#[trigger] s[i]) {
            assert forall|i: int| 0 <= i < r.len() implies !valid_pattern_char(#[trigger] r[i]) by {
                assert(r[i] == s[i]);
            }
            assert(!valid_pattern_char(s[s.len() - 1]));
            assert(invalid_chars(s) =~= s);
        }
    }
}

/// Without patterns no file is excluded.
pub proof fn law_no_pattern_excludes_nothing(path: Seq<char>)
    ensures
        !excludes(Seq::empty(), path),
{
}


/// A pattern as reading it gives it: its regular expression, and whether it
/// is a pattern of file names.
pub open spec fn read_pattern(p: Seq<char>) -> FilePatternView {
    FilePatternView { pattern: p, regex: regex_source_of(p), filename_pattern: !p.contains('/') }
}

/// The default text of excluded files is plain, and what reading it gives is
/// its three patterns.
proof fn lemma_default_excluded_files()
    ensures
        plain_excludes_text(DEFAULT_EXCLUDED_FILES@),
        excluded_files_of(DEFAULT_EXCLUDED_FILES@) is Ok ==> excluded_files_of(DEFAULT_EXCLUDED_FILES@)
            == Ok::<Seq<FilePatternView>, FilePatternErrorView>(
            crate::config::default_excluded_patterns(),
        ),
{
    reveal_strlit(".*|README*|TODO*");
    reveal_strlit(".*");
    reveal_strlit("README*");
    reveal_strlit("TODO*");
    let s = DEFAULT_EXCLUDED_FILES@;
    let parts = seq![".*"@, "README*"@, "TODO*"@];
    assert(split_on(s, '|') =~= parts) by {
        assert(s.len() == 16);
        assert(s.take(0) =~= Seq::<char>::empty());
        assert(split_on(s.take(0), '|') =~= seq![Seq::<char>::empty()]);
        assert(s.take(1).drop_last() =~= s.take(0));
        assert(Seq::<char>::empty().push('.') =~= seq!['.']);
        assert(split_on(s.take(1), '|') =~= seq![seq!['.']]);
        assert(s.take(2).drop_last() =~= s.take(1));
        assert(seq!['.'].push('*') =~= seq!['.', '*']);
        assert(split_on(s.take(2), '|') =~= seq![seq!['.', '*']]);
        assert(s.take(3).drop_last() =~= s.take(2));
        assert(split_on(s.take(3), '|') =~= seq![seq!['.', '*'], Seq::<char>::empty()]);
        assert(s.take(4).drop_last() =~= s.take(3));
        assert(Seq::<char>::empty().push('R') =~= seq!['R']);
        assert(split_on(s.take(4), '|') =~= seq![seq!['.', '*'], seq!['R']]);
        assert(s.take(5).drop_last() =~= s.take(4));
        assert(seq!['R'].push('E') =~= seq!['R', 'E']);
        assert(split_on(s.take(5), '|') =~= seq![seq!['.', '*'], seq!['R', 'E']]);
        assert(s.take(6).drop_last() =~= s.take(5));
        assert(seq!['R', 'E'].push('A') =~= seq!['R', 'E', 'A']);
        assert(split_on(s.take(6), '|') =~= seq![seq!['.', '*'], seq!['R', 'E', 'A']]);
        assert(s.take(7).drop_last() =~= s.take(6));
        assert(seq!['R', 'E', 'A'].push('D') =~= seq!['R', 'E', 'A', 'D']);
        assert(split_on(s.take(7), '|') =~= seq![seq!['.', '*'], seq!['R', 'E', 'A', 'D']]);
        assert(s.take(8).drop_last() =~= s.take(7));
        assert(seq!['R', 'E', 'A', 'D'].push('M') =~= seq!['R', 'E', 'A', 'D', 'M']);
        assert(split_on(s.take(8), '|') =~= seq![seq!['.', '*'], seq!['R', 'E', 'A', 'D', 'M']]);
        assert(s.take(9).drop_last() =~= s.take(8));
        assert(seq!['R', 'E', 'A', 'D', 'M'].push('E') =~= seq!['R', 'E', 'A', 'D', 'M', 'E']);
        assert(split_on(s.take(9), '|') =~= seq![seq!['.', '*'], seq!['R', 'E', 'A', 'D', 'M', 'E']]);
        assert(s.take(10).drop_last() =~= s.take(9));
        assert(seq!['R', 'E', 'A', 'D', 'M', 'E'].push('*') =~= seq!['R', 'E', 'A', 'D', 'M', 'E', '*']);
        assert(split_on(s.take(10), '|') =~= seq![seq!['.', '*'], seq!['R', 'E', 'A', 'D', 'M', 'E', '*']]);
        assert(s.take(11).drop_last() =~= s.take(10));
        assert(split_on(s.take(11), '|') =~= seq![seq!['.', '*'], seq!['R', 'E', 'A', 'D', 'M', 'E', '*'], Seq::<char>::empty()]);
        assert(s.take(12).drop_last() =~= s.take(11));
        assert(Seq::<char>::empty().push('T') =~= seq!['T']);
        assert(split_on(s.take(12), '|') =~= seq![seq!['.', '*'], seq!['R', 'E', 'A', 'D', 'M', 'E', '*'], seq!['T']]);
        assert(s.take(13).drop_last() =~= s.take(12));
        assert(seq!['T'].push('O') =~= seq!['T', 'O']);
        assert(split_on(s.take(13), '|') =~= seq![seq!['.', '*'], seq!['R', 'E', 'A', 'D', 'M', 'E', '*'], seq!['T', 'O']]);
        assert(s.take(14).drop_last() =~= s.take(13));
        assert(seq!['T', 'O'].push('D') =~= seq!['T', 'O', 'D']);
        assert(split_on(s.take(14), '|') =~= seq![seq!['.', '*'], seq!['R', 'E', 'A', 'D', 'M', 'E', '*'], seq!['T', 'O', 'D']]);
        assert(s.take(15).drop_last() =~= s.take(14));
        assert(seq!['T', 'O', 'D'].push('O') =~= seq!['T', 'O', 'D', 'O']);
        assert(split_on(s.take(15), '|') =~= seq![seq!['.', '*'], seq!['R', 'E', 'A', 'D', 'M', 'E', '*'], seq!['T', 'O', 'D', 'O']]);
        assert(s.take(16).drop_last() =~= s.take(15));
        assert(seq!['T', 'O', 'D', 'O'].push('*') =~= seq!['T', 'O', 'D', 'O', '*']);
        assert(split_on(s.take(16), '|') =~= seq![seq!['.', '*'], seq!['R', 'E', 'A', 'D', 'M', 'E', '*'], seq!['T', 'O', 'D', 'O', '*']]);
        assert(s.take(16) =~= s);
        assert(".*"@ =~= seq!['.', '*']);
        assert("README*"@ =~= seq!['R', 'E', 'A', 'D', 'M', 'E', '*']);
        assert("TODO*"@ =~= seq!['T', 'O', 'D', 'O', '*']);
    }
    assert(plain_pattern(parts[0]));
    assert(plain_pattern(parts[1]));
    assert(plain_pattern(parts[2]));
    assert forall|i: int| 0 <= i < split_on(s, '|').len() implies plain_pattern(
        #[trigger] split_on(s, '|')[i],
    ) by {
        assert(split_on(s, '|')[i] == parts[i]);
    }
    if excluded_files_of(s) is Ok {
        let p0 = seq![parts[0]];
        let p01 = seq![parts[0], parts[1]];
        assert(p0.drop_last() =~= Seq::<Seq<char>>::empty());
        assert(p01.drop_last() =~= p0);
        assert(parts.drop_last() =~= p01);
        assert(file_patterns_of(parts) is Ok);
        assert(file_patterns_of(p01) is Ok);
        assert(file_patterns_of(p0) is Ok);
        assert(file_pattern_of(parts[0]) == Ok::<FilePatternView, FilePatternErrorView>(read_pattern(parts[0])));
        assert(file_pattern_of(parts[1]) == Ok::<FilePatternView, FilePatternErrorView>(read_pattern(parts[1])));
        assert(file_pattern_of(parts[2]) == Ok::<FilePatternView, FilePatternErrorView>(read_pattern(parts[2])));
        assert(file_patterns_of(Seq::<Seq<char>>::empty()) == Ok::<
            Seq<FilePatternView>,
            FilePatternErrorView,
        >(Seq::empty()));
        assert(p0.last() == parts[0]);
        assert(Seq::<FilePatternView>::empty().push(read_pattern(parts[0])) =~= seq![
            read_pattern(parts[0]),
        ]);
        assert(file_patterns_of(p0) == Ok::<Seq<FilePatternView>, FilePatternErrorView>(
            seq![read_pattern(parts[0])],
        ));
        assert(seq![read_pattern(parts[0])].push(read_pattern(parts[1])) =~= seq![
            read_pattern(parts[0]),
            read_pattern(parts[1]),
        ]);
        assert(seq![read_pattern(parts[0]), read_pattern(parts[1])].push(read_pattern(parts[2]))
            =~= crate::config::default_excluded_patterns());
    }
}

} // verus!

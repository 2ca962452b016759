use std::str::FromStr;
use surrealdb_migrate::error::FilePatternError;
use surrealdb_migrate::pattern::{
    is_valid_pattern_char, scan_for_invalid_characters, ExcludedFiles, FilePattern,
};

fn regexes(excluded_files: &ExcludedFiles) -> Vec<String> {
    excluded_files.pattern.iter().map(|p| p.regex.clone()).collect()
}

#[test]
fn tests_parse_from_empty_string() {
    let result = FilePattern::from_str("");

    assert_eq!(result, Err(FilePatternError::EmptySubPatternNotAllowed));
}

#[test]
fn parse_from_pattern_without_wildcards_and_without_pipechar() {
    let file_pattern = FilePattern::from_str("README.md")
        .unwrap_or_else(|err| panic!("failed to parse FilePattern: {err:?}"));

    assert_eq!(file_pattern.pattern, "README.md".to_string());
    assert!(file_pattern.filename_pattern);
    assert_eq!(file_pattern.regex.as_str(), "^README\\.md$");
}

#[test]
fn parse_from_pattern_with_dot_env() {
    let file_pattern = FilePattern::from_str(".env")
        .unwrap_or_else(|err| panic!("failed to parse FilePattern: {err:?}"));

    assert_eq!(file_pattern.pattern, ".env".to_string());
    assert!(file_pattern.filename_pattern);
    assert_eq!(file_pattern.regex.as_str(), "^\\.env$");
}

#[test]
fn parse_from_pattern_for_all_dot_files() {
    let file_pattern = FilePattern::from_str(".*")
        .unwrap_or_else(|err| panic!("failed to parse FilePattern: {err:?}"));

    assert_eq!(file_pattern.pattern, ".*".to_string());
    assert!(file_pattern.filename_pattern);
    assert_eq!(file_pattern.regex.as_str(), "^\\.[^/]*$");
}

#[test]
fn parse_from_pattern_for_files_in_all_subdirs() {
    let file_pattern = FilePattern::from_str("**/README*")
        .unwrap_or_else(|err| panic!("failed to parse FilePattern: {err:?}"));

    assert_eq!(file_pattern.pattern, "**/README*".to_string());
    assert!(!file_pattern.filename_pattern);
    assert_eq!(file_pattern.regex.as_str(), "^.*/README[^/]*$");
}

#[test]
fn parse_from_pattern_for_all_dot_files_in_all_subdirs() {
    let file_pattern = FilePattern::from_str("**/.*")
        .unwrap_or_else(|err| panic!("failed to parse FilePattern: {err:?}"));

    assert_eq!(file_pattern.pattern, "**/.*".to_string());
    assert!(!file_pattern.filename_pattern);
    assert_eq!(file_pattern.regex.as_str(), "^.*/\\.[^/]*$");
}

#[test]
fn tests_parse_from_pattern_with_invalid_char() {
    let result = ExcludedFiles::from_str("README:");

    assert_eq!(result, Err(FilePatternError::InvalidCharacter(vec![':'])));
}

#[test]
fn excluded_files_parse_from_empty_string() {
    let excluded_files = ExcludedFiles::from_str("")
        .unwrap_or_else(|err| panic!("failed to parse ExcludedFilenames: {err:?}"));

    assert!(regexes(&excluded_files).is_empty());
}

#[test]
fn parse_from_pattern_with_pipechar() {
    let excluded_files = ExcludedFiles::from_str(".env|TODO.txt")
        .unwrap_or_else(|err| panic!("failed to parse ExcludedFilenames: {err:?}"));

    assert_eq!(
        regexes(&excluded_files),
        vec!["^\\.env$".to_string(), "^TODO\\.txt$".to_string()]
    );
}

#[test]
fn parse_from_pattern_with_wildcards() {
    let excluded_files = ExcludedFiles::from_str(".*|TODO*")
        .unwrap_or_else(|err| panic!("failed to parse ExcludedFilenames: {err:?}"));

    assert_eq!(
        regexes(&excluded_files),
        vec!["^\\.[^/]*$".to_string(), "^TODO[^/]*$".to_string()]
    );
}

#[test]
fn parse_from_pattern_with_wildcards_and_slash() {
    let excluded_files = ExcludedFiles::from_str("**/.keep|README*|TODO.txt")
        .unwrap_or_else(|err| panic!("failed to parse ExcludedFilenames: {err:?}"));

    assert_eq!(
        regexes(&excluded_files),
        vec![
            "^.*/\\.keep$".to_string(),
            "^README[^/]*$".to_string(),
            "^TODO\\.txt$".to_string(),
        ]
    );
}

#[test]
fn parse_from_pattern_with_pipechar_at_start() {
    let result = ExcludedFiles::from_str("|README*|TODO.txt");

    assert_eq!(result, Err(FilePatternError::EmptySubPatternNotAllowed));
}

#[test]
fn parse_from_pattern_with_pipechar_at_end() {
    let result = ExcludedFiles::from_str(".*|README*|TODO.txt|");

    assert_eq!(result, Err(FilePatternError::EmptySubPatternNotAllowed));
}

#[test]
fn parse_from_pattern_with_two_consecutive_pipechars() {
    let result = ExcludedFiles::from_str(".*||TODO.txt");

    assert_eq!(result, Err(FilePatternError::EmptySubPatternNotAllowed));
}

#[test]
fn excluded_files_parse_from_pattern_with_invalid_char() {
    let result = ExcludedFiles::from_str(".*|README:*|TODO.txt");

    assert_eq!(result, Err(FilePatternError::InvalidCharacter(vec![':'])));
}

#[test]
fn parsed_from_empty_string_is_equal_to_empty_excluded_files() {
    let excluded_files = ExcludedFiles::from_str("")
        .unwrap_or_else(|err| panic!("failed to parse ExcludedFilenames: {err:?}"));

    assert_eq!(excluded_files, ExcludedFiles::empty());
}

#[test]
fn empty_pattern_does_not_match_empty_path() {
    let excluded_files = ExcludedFiles::from_str("")
        .unwrap_or_else(|err| panic!("failed to parse ExcludedFilenames: {err:?}"));

    assert!(!excluded_files.matches(""));
}

#[test]
fn pattern_with_wildcard_at_the_end_matches_filename() {
    let excluded_files = ExcludedFiles::from_str("README*")
        .unwrap_or_else(|err| panic!("failed to parse ExcludedFilenames: {err:?}"));

    assert!(excluded_files.matches("migrations/README.md"));
}

#[test]
fn pattern_for_filename_does_not_match_directory() {
    let excluded_files = ExcludedFiles::from_str("TODO*")
        .unwrap_or_else(|err| panic!("failed to parse ExcludedFilenames: {err:?}"));

    assert!(!excluded_files.matches("TODO/NOTE.md"));
}

#[test]
fn default_excluded_files() {
    let excluded_files = ExcludedFiles::default();

    assert_eq!(excluded_files.to_string(), ".*|README*|TODO*".to_string());
}

#[test]
fn pattern_with_slashes_matches_path_with_backslashes() {
    let excluded_files = ExcludedFiles::from_str("sub dir/file.txt")
        .unwrap_or_else(|err| panic!("failed to parse ExcludedFilenames: {err:?}"));

    assert!(excluded_files.matches("sub dir\\file.txt"));
    assert!(excluded_files.matches("sub dir/file.txt"));
}

#[test]
fn patterns_are_written_back_as_read() {
    for text in ["", ".keep", "**/.keep|README*|TODO.txt", "a b/c-d_e.*|x"] {
        let excluded_files = ExcludedFiles::from_str(text)
            .unwrap_or_else(|err| panic!("failed to parse ExcludedFilenames: {err:?}"));

        assert_eq!(excluded_files.to_string(), text.to_string());
    }
}

#[test]
fn deep_wildcard_matches_subdirectories() {
    let excluded_files = ExcludedFiles::from_str("**/.keep")
        .unwrap_or_else(|err| panic!("failed to parse ExcludedFilenames: {err:?}"));

    assert!(excluded_files.matches("migrations/sub/.keep"));
    assert!(!excluded_files.matches("migrations/sub/keep"));
}

#[test]
fn valid_and_invalid_pattern_chars() {
    assert!(is_valid_pattern_char('*'));
    assert!(is_valid_pattern_char('ä'));
    assert!(is_valid_pattern_char('7'));
    assert!(!is_valid_pattern_char(':'));
    assert!(!is_valid_pattern_char('|'));
    assert_eq!(scan_for_invalid_characters("a:b?c/d"), vec![':', '?']);
    assert!(scan_for_invalid_characters("Straße-1 .txt/**").is_empty());
}

/// Plain patterns of the longest length with the most repetitions and
/// multi-byte letters are accepted and written back unchanged.
#[test]
fn longest_plain_patterns_are_accepted_and_written_back() {
    let stars_and_letters = "*a".repeat(2048);
    let stars_and_wide_letters = "*中".repeat(2048);
    let stars_and_dots = "*.".repeat(2048);
    let mixed = "**/é-_ 9.".repeat(455) + "x";
    for pattern in [&stars_and_letters, &stars_and_wide_letters, &stars_and_dots, &mixed] {
        assert_eq!(pattern.chars().count(), 4096);
        let file_pattern = FilePattern::from_str(pattern).expect("a plain pattern is accepted");
        assert_eq!(file_pattern.to_string(), *pattern);
    }
    let text = [stars_and_letters, stars_and_wide_letters, stars_and_dots, mixed].join("|");
    let excluded_files = ExcludedFiles::from_str(&text).expect("plain patterns are accepted");
    assert_eq!(excluded_files.to_string(), text);
}

#[test]
fn parse_from_pattern_string_and_converted_back_to_pattern_string() {
    for text in [
        "a.b",
        "../x/y.surql",
        "/döcs/*.md|**/README.*|TODO*.txt",
        "Ab 1_-x.*|**/.keep|中文/名.*",
        "z.",
    ] {
        let excluded_files = ExcludedFiles::from_str(text)
            .unwrap_or_else(|err| panic!("failed to parse ExcludedFilenames: {err:?}"));
        assert_eq!(excluded_files.to_string(), text.to_string());
    }
}


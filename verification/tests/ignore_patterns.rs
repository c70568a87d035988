use zrt::ignore::{CompileError, Patterns};

#[test]
fn ignore_test_empty_patterns_match_nothing() {
    let patterns = Patterns::new();
    assert!(!patterns.matches("file.txt"));
}

#[test]
fn ignore_test_simple_file_pattern() {
    let mut patterns = Patterns::new();
    patterns.add_pattern("*.txt").unwrap();
    assert!(patterns.matches("file.txt"));
    assert!(!patterns.matches("file.rs"));
}

#[test]
fn ignore_test_directory_pattern() {
    let mut patterns = Patterns::new();
    patterns.add_pattern("node_modules/").unwrap();

    assert!(
        patterns.matches("node_modules/package.json"),
        "Should match file directly in node_modules"
    );

    assert!(
        patterns.matches("src/node_modules/package.json"),
        "Should match node_modules in subdirectory"
    );

    assert!(
        !patterns.matches("nodemodules/file.txt"),
        "Should not match directory with similar name"
    );
}

#[test]
fn ignore_test_negation_pattern() {
    let mut patterns = Patterns::new();
    patterns.add_pattern("*.txt").unwrap();
    patterns.add_pattern("!important.txt").unwrap();
    assert!(patterns.matches("file.txt"));
    assert!(!patterns.matches("important.txt"));
}

#[test]
fn ignore_test_absolute_path_pattern() {
    let mut patterns = Patterns::new();
    patterns.add_pattern("/src/generated/*.rs").unwrap();
    assert!(patterns.matches("src/generated/file.rs"));
    assert!(!patterns.matches("other/generated/file.rs"));
}

#[test]
fn ignore_test_anchored_path_pattern() {
    let mut patterns = Patterns::new();
    patterns.add_pattern("/absolute_path.md").unwrap();

    assert!(
        patterns.matches("absolute_path.md"),
        "Should match anchored path at root"
    );

    assert!(
        !patterns.matches("subdirectory/absolute_path.md"),
        "Should not match anchored path in subdirectory"
    );
}

#[test]
fn ignore_test_extension_group_pattern() {
    let mut patterns = Patterns::new();
    patterns.add_pattern("*.{js,ts}").unwrap();
    assert!(patterns.matches("file.js"));
    assert!(patterns.matches("file.ts"));
    assert!(!patterns.matches("file.rs"));
}

#[test]
fn ignore_test_double_star_pattern() {
    let mut patterns = Patterns::new();
    patterns.add_pattern("**/temp/**").unwrap();
    assert!(patterns.matches("temp/file.txt"));
    assert!(patterns.matches("src/temp/file.txt"));
    assert!(patterns.matches("src/temp/subfolder/file.txt"));
    assert!(!patterns.matches("src/temporary/file.txt"));
}

#[test]
fn ignore_test_comment_and_empty_lines() {
    let mut patterns = Patterns::new();
    patterns.add_pattern("").unwrap();
    patterns.add_pattern("# This is a comment").unwrap();
    patterns.add_pattern("*.txt").unwrap();
    assert!(patterns.matches("file.txt"));
}

#[test]
fn ignore_test_bare_filename_pattern() {
    let mut patterns = Patterns::new();
    patterns.add_pattern("TODO-CHORES.md").unwrap();

    assert!(
        patterns.matches("TODO-CHORES.md"),
        "Should match exact filename at root"
    );

    assert!(
        patterns.matches("subdir/TODO-CHORES.md"),
        "Should match filename in subdirectory"
    );

    assert!(
        !patterns.matches("NOT-TODO-CHORES.md"),
        "Should not match similar filenames"
    );
}

#[test]
fn patterns_test_empty_patterns_match_nothing() {
    let patterns = Patterns::new();
    assert!(!patterns.matches("file.txt"));
}

#[test]
fn patterns_test_simple_file_pattern() {
    let mut patterns = Patterns::new();
    patterns.add_pattern("*.txt").unwrap();
    assert!(patterns.matches("file.txt"));
    assert!(!patterns.matches("file.rs"));
}

#[test]
fn patterns_test_directory_pattern() {
    let mut patterns = Patterns::new();
    patterns.add_pattern("node_modules/").unwrap();

    assert!(
        patterns.matches("node_modules/package.json"),
        "Should match file directly in node_modules"
    );

    assert!(
        patterns.matches("src/node_modules/package.json"),
        "Should match node_modules in subdirectory"
    );

    assert!(
        !patterns.matches("nodemodules/file.txt"),
        "Should not match directory with similar name"
    );
}

#[test]
fn patterns_test_negation_pattern() {
    let mut patterns = Patterns::new();
    patterns.add_pattern("*.txt").unwrap();
    patterns.add_pattern("!important.txt").unwrap();
    assert!(patterns.matches("file.txt"));
    assert!(!patterns.matches("important.txt"));
}

#[test]
fn patterns_test_absolute_path_pattern() {
    let mut patterns = Patterns::new();
    patterns.add_pattern("/src/generated/*.rs").unwrap();
    assert!(patterns.matches("src/generated/file.rs"));
    assert!(!patterns.matches("other/generated/file.rs"));
}

#[test]
fn patterns_test_anchored_path_pattern() {
    let mut patterns = Patterns::new();
    patterns.add_pattern("/absolute_path.md").unwrap();
    assert!(
        patterns.matches("absolute_path.md"),
        "Should match anchored path at root"
    );
    assert!(
        !patterns.matches("subdirectory/absolute_path.md"),
        "Should not match anchored path in subdirectory"
    );
}

#[test]
fn patterns_test_extension_group_pattern() {
    let mut patterns = Patterns::new();
    patterns.add_pattern("*.{js,ts}").unwrap();
    assert!(patterns.matches("file.js"));
    assert!(patterns.matches("file.ts"));
    assert!(!patterns.matches("file.rs"));
}

#[test]
fn patterns_test_double_star_pattern() {
    let mut patterns = Patterns::new();
    patterns.add_pattern("**/temp/**").unwrap();
    assert!(patterns.matches("temp/file.txt"));
    assert!(patterns.matches("src/temp/file.txt"));
    assert!(patterns.matches("src/temp/subfolder/file.txt"));
    assert!(!patterns.matches("src/temporary/file.txt"));
}

#[test]
fn patterns_test_comment_and_empty_lines() {
    let mut patterns = Patterns::new();
    patterns.add_pattern("").unwrap();
    patterns.add_pattern("# This is a comment").unwrap();
    patterns.add_pattern("*.txt").unwrap();
    assert!(patterns.matches("file.txt"));
}

#[test]
fn patterns_test_bare_filename_pattern() {
    let mut patterns = Patterns::new();
    patterns.add_pattern("TODO-CHORES.md").unwrap();

    assert!(
        patterns.matches("TODO-CHORES.md"),
        "Should match exact filename at root"
    );

    assert!(
        patterns.matches("subdir/TODO-CHORES.md"),
        "Should match filename in subdirectory"
    );

    assert!(
        !patterns.matches("NOT-TODO-CHORES.md"),
        "Should not match similar filenames"
    );
}

#[test]
fn test_negation_wins_regardless_of_order() {
    let mut first = Patterns::new();
    first.add_pattern("!important.txt").unwrap();
    first.add_pattern("*.txt").unwrap();
    assert!(!first.matches("important.txt"));
    assert!(first.matches("other.txt"));

    let mut second = Patterns::new();
    second.add_pattern("*.txt").unwrap();
    second.add_pattern("!important.txt").unwrap();
    assert!(!second.matches("important.txt"));
    assert!(second.matches("other.txt"));
}

#[test]
fn test_missing_closing_brace_is_rejected() {
    let mut patterns = Patterns::new();
    let err = patterns.add_pattern("*.{js,ts").unwrap_err();
    assert_eq!(err, CompileError::MissingClosingBrace);
    assert!(!patterns.matches("file.js"), "a rejected line adds no rule");
}

#[test]
fn test_unmatched_closing_brace_is_rejected() {
    let mut patterns = Patterns::new();
    let err = patterns.add_pattern("x}*").unwrap_err();
    assert_eq!(err, CompileError::MissingOpeningBrace);
    assert!(!patterns.matches("x}y"), "a rejected line adds no rule");

    let mut bare = Patterns::new();
    let err = bare.add_pattern("a}b").unwrap_err();
    assert_eq!(err, CompileError::MissingOpeningBrace);
    assert!(!bare.matches("a}b"));

    let mut leading = Patterns::new();
    let err = leading.add_pattern("a}b{c,d}").unwrap_err();
    assert_eq!(err, CompileError::MissingOpeningBrace);
    assert!(!leading.matches("a}bc"));
}

#[test]
fn test_trailing_separator_keeps_final_component() {
    let mut patterns = Patterns::new();
    patterns.add_pattern("NOTES.md").unwrap();
    assert!(patterns.matches("NOTES.md/"), "the final component ignores a trailing separator");

    let mut dirs = Patterns::new();
    dirs.add_pattern("foo.x").unwrap();
    assert!(dirs.matches("a/foo.x/"));
    assert!(!dirs.matches("a/foo.xy/"));
}

#[test]
fn test_invalid_glob_is_rejected() {
    let mut patterns = Patterns::new();
    let err = patterns.add_pattern("a**").unwrap_err();
    assert_eq!(err, CompileError::InvalidGlob);
    assert!(!patterns.matches("a"), "a rejected line adds no rule");
}

#[test]
fn test_invalid_extension_group_leaves_set_unchanged() {
    let mut patterns = Patterns::new();
    patterns.add_pattern("*.md").unwrap();
    let err = patterns.add_pattern("x**{a,b}").unwrap_err();
    assert_eq!(err, CompileError::InvalidGlob);
    assert!(patterns.matches("note.md"));
    assert!(!patterns.matches("xa"), "no partial rule from the bad group");
    assert!(!patterns.matches("xb"), "no partial rule from the bad group");
}

#[test]
fn test_from_lines_end_to_end() {
    let spec_text = "*.tmp\ndraft/\n!draft/important.md\nnode_modules/\n";
    let patterns = Patterns::from_lines(spec_text).unwrap();
    assert!(patterns.matches("a.tmp"));
    assert!(patterns.matches("draft/x.md"));
    assert!(!patterns.matches("draft/important.md"));
    assert!(patterns.matches("node_modules/pkg/index.js"));
    assert!(!patterns.matches("src/index.js"));
}

#[test]
fn test_from_lines_identical_text_identical_verdicts() {
    let spec_text = "*.txt\n!keep.txt\nbuild/\n# note\n";
    let first = Patterns::from_lines(spec_text).unwrap();
    let second = Patterns::from_lines(spec_text).unwrap();
    let candidates = [
        "a.txt",
        "keep.txt",
        "build/x.o",
        "deep/build/y.o",
        "src/main.rs",
        "",
    ];
    for path in candidates {
        assert_eq!(first.matches(path), second.matches(path));
    }
}

#[test]
fn test_from_lines_comment_only_matches_nothing() {
    let patterns = Patterns::from_lines("# only a comment\n\n   \n# another\n").unwrap();
    assert!(!patterns.matches("anything.txt"));
    assert!(!patterns.matches("deep/anything"));
    assert!(!patterns.matches(""));
}

#[test]
fn test_from_lines_stops_at_first_bad_line() {
    let err = Patterns::from_lines("*.md\n*.{js,ts\n*.rs\n").unwrap_err();
    assert_eq!(err, CompileError::MissingClosingBrace);
}

#[test]
fn test_from_lines_accepts_crlf_endings() {
    let patterns = Patterns::from_lines("*.txt\r\n!important.txt\r\n").unwrap();
    assert!(patterns.matches("file.txt"));
    assert!(!patterns.matches("important.txt"));
}

#[test]
fn test_whitespace_around_extension_group_entries() {
    let mut patterns = Patterns::new();
    patterns.add_pattern("*.{ js , ts }").unwrap();
    assert!(patterns.matches("a.js"));
    assert!(patterns.matches("a.ts"));
    assert!(!patterns.matches("a.rs"));
}

#[test]
fn test_plain_path_gets_directory_expansion() {
    let mut patterns = Patterns::new();
    patterns.add_pattern("out/cache").unwrap();
    assert!(patterns.matches("out/cache/item.bin"));
    assert!(!patterns.matches("out/cachet"));
}

#[test]
fn test_negated_directory_restores_contents() {
    let patterns = Patterns::from_lines("*.md\n!draft/\n").unwrap();
    assert!(!patterns.matches("draft/a.md"), "the negated directory re-includes its files");
    assert!(patterns.matches("other/a.md"));
}

#[test]
fn test_directive_whitespace_is_trimmed() {
    let mut patterns = Patterns::new();
    patterns.add_pattern("   *.txt\t").unwrap();
    assert!(patterns.matches("file.txt"));
    assert!(!patterns.matches("file.rs"));
}

#[test]
fn test_default_patterns_match_nothing() {
    let patterns = Patterns::default();
    assert!(!patterns.matches("file.txt"));
    assert!(!patterns.matches("a/b/c"));
}

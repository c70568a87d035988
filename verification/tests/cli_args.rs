use zrt::cli::{ArgError, Args, RunMode};

fn argv(tokens: &[&str]) -> Vec<String> {
    tokens.iter().map(|t| t.to_string()).collect()
}

#[test]
fn test_default_directory_is_current() {
    let args = Args::parse_from(&argv(&["program"])).unwrap();
    assert_eq!(args.directory, ".");
}

#[test]
fn test_custom_directory_is_parsed() {
    let args = Args::parse_from(&argv(&["program", "-d", "/some/path"])).unwrap();
    assert_eq!(args.directory, "/some/path");
}

#[test]
fn test_count_flag_is_parsed() {
    let args = Args::parse_from(&argv(&["program", "--count"])).unwrap();
    assert!(args.count);
}

#[test]
fn test_stats_option_is_parsed() {
    let args = Args::parse_from(&argv(&["program", "--stats", "refactored"])).unwrap();
    assert_eq!(args.stats, Some("refactored".to_string()));
}

#[test]
fn test_defaults_without_flags() {
    let args = Args::parse_from(&argv(&["program"])).unwrap();
    assert!(!args.count);
    assert!(!args.words);
    assert_eq!(args.exclude, ".git");
    assert_eq!(args.top, 10);
    assert!(args.done_tag.is_none());
    assert!(args.todo_tag.is_none());
    assert!(args.filter_out.is_none());
    assert!(args.pattern.is_none());
    assert!(args.stats.is_none());
}

#[test]
fn test_all_value_flags_are_parsed() {
    let args = Args::parse_from(&argv(&[
        "program", "-r", "done", "-u", "todo", "-f", "skip", "-t", "tagged", "-e", "a,b", "-n",
        "25", "-w",
    ]))
    .unwrap();
    assert_eq!(args.done_tag, Some("done".to_string()));
    assert_eq!(args.todo_tag, Some("todo".to_string()));
    assert_eq!(args.filter_out, Some("skip".to_string()));
    assert_eq!(args.pattern, Some("tagged".to_string()));
    assert_eq!(args.exclude, "a,b");
    assert_eq!(args.top, 25);
    assert!(args.words);
}

#[test]
fn test_number_with_plus_and_zeroes() {
    let args = Args::parse_from(&argv(&["program", "-n", "+007"])).unwrap();
    assert_eq!(args.top, 7);
}

#[test]
fn test_unknown_argument_is_rejected() {
    let err = Args::parse_from(&argv(&["program", "-x"])).unwrap_err();
    assert_eq!(err, ArgError::UnknownArgument);
}

#[test]
fn test_missing_value_is_rejected() {
    let err = Args::parse_from(&argv(&["program", "-d"])).unwrap_err();
    assert_eq!(err, ArgError::MissingValue);
}

#[test]
fn test_bad_number_is_rejected() {
    let err = Args::parse_from(&argv(&["program", "-n", "abc"])).unwrap_err();
    assert_eq!(err, ArgError::InvalidNumber);
    let err = Args::parse_from(&argv(&["program", "-n", ""])).unwrap_err();
    assert_eq!(err, ArgError::InvalidNumber);
    let err =
        Args::parse_from(&argv(&["program", "-n", "99999999999999999999999999"])).unwrap_err();
    assert_eq!(err, ArgError::InvalidNumber);
}

#[test]
fn test_mode_precedence() {
    let count_mode = Args::parse_from(&argv(&["program", "-c", "-w"])).unwrap().mode();
    assert!(matches!(count_mode, RunMode::CountFiles));

    let stats_mode = Args::parse_from(&argv(&["program", "-s", "refactored"])).unwrap().mode();
    match stats_mode {
        RunMode::WordStats(tag) => assert_eq!(tag, "refactored"),
        other => panic!("expected word stats, got {:?}", other),
    }

    let words_mode = Args::parse_from(&argv(&["program", "-w"])).unwrap().mode();
    assert!(matches!(words_mode, RunMode::WordCounts));

    let single_mode = Args::parse_from(&argv(&["program", "-t", "todo"])).unwrap().mode();
    match single_mode {
        RunMode::SinglePattern(tag) => assert_eq!(tag, "todo"),
        other => panic!("expected single pattern, got {:?}", other),
    }

    let compare_mode =
        Args::parse_from(&argv(&["program", "-r", "done", "-u", "todo"])).unwrap().mode();
    match compare_mode {
        RunMode::CompareTags(done, todo) => {
            assert_eq!(done, "done");
            assert_eq!(todo, "todo");
        },
        other => panic!("expected comparison, got {:?}", other),
    }

    let default_mode = Args::parse_from(&argv(&["program"])).unwrap().mode();
    match default_mode {
        RunMode::SinglePattern(tag) => assert_eq!(tag, "to_refactor"),
        other => panic!("expected default single pattern, got {:?}", other),
    }
}

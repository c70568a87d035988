use zrt::ignore::Patterns;
use zrt::scan::{
    comparison_stats_from, count_words_from, is_hidden_name, only_tag_stats_from, should_exclude,
    single_pattern_stats_from, word_count_chars, word_stats_from,
};
use zrt::stats::{ComparisonStats, FileEntry, SinglePatternStats, WordCountStats};

fn strings(texts: &[&str]) -> Vec<String> {
    texts.iter().map(|t| t.to_string()).collect()
}

#[test]
fn test_is_hidden_names() {
    assert!(is_hidden_name(".hidden"));
    assert!(!is_hidden_name(".tmp_file"));
    assert!(!is_hidden_name("normal.txt"));
    assert!(!is_hidden_name(""));
    assert!(is_hidden_name(".tm"));
}

#[test]
fn test_should_exclude_hidden_entry() {
    assert!(should_exclude("root/.hidden.md", ".hidden.md", false, &Vec::new(), None));
    assert!(!should_exclude("root/normal.md", "normal.md", false, &Vec::new(), None));
}

#[test]
fn test_should_exclude_named_directory() {
    let excluded = strings(&["nested"]);
    assert!(should_exclude("root/nested", "nested", true, &excluded, None));
    assert!(should_exclude("root/nested/file.md", "file.md", false, &excluded, None));
    assert!(!should_exclude("root/other/file.md", "file.md", false, &excluded, None));
}

#[test]
fn test_should_exclude_by_ignore_patterns() {
    let mut patterns = Patterns::new();
    patterns.add_pattern("*.tmp").unwrap();
    assert!(should_exclude("root/ignore_me.tmp", "ignore_me.tmp", false, &Vec::new(), Some(
        &patterns,
    )));
    assert!(!should_exclude("root/keep_me.md", "keep_me.md", false, &Vec::new(), Some(&patterns)));
}

#[test]
fn test_word_count_exact() {
    assert_eq!(word_count_chars(&"two words".chars().collect()), 2);
    assert_eq!(word_count_chars(&"".chars().collect()), 0);
    assert_eq!(word_count_chars(&"   ".chars().collect()), 0);
    assert_eq!(word_count_chars(&" a\tb\nc  d ".chars().collect()), 4);
}

#[test]
fn test_word_stats_from_counts() {
    let contents = strings(&[
        "---\ntags: [refactored]\n---\nThis file has five words",
        "---\ntags: [other]\n---\nThis file has four words",
        "---\ntags: [refactored]\n---\nThis file has five more words",
        "No tags in this file",
    ]);
    let stats = word_stats_from(&contents, "refactored");
    assert_eq!(stats.total_files, 4, "Should count all 4 files");
    assert_eq!(stats.tagged_files, 2, "Should find 2 files with 'refactored' tag");
    assert_eq!(stats.tagged_words, 11, "Tagged files have 11 words total");
    assert_eq!(stats.total_words, 21, "All files have 21 words total");
}

#[test]
fn test_word_stats_empty() {
    let stats = word_stats_from(&Vec::new(), "any");
    assert_eq!(stats, WordCountStats::new());
}

#[test]
fn test_count_words_from_sorts_and_filters() {
    let files = vec![
        FileEntry { path: "file1.md".to_string(), content: "This is file one".to_string() },
        FileEntry {
            path: "file2.md".to_string(),
            content: "This is file two\nWith more words".to_string(),
        },
        FileEntry { path: "nested/file3.md".to_string(), content: "File in subfolder".to_string() },
        FileEntry {
            path: "tagged.md".to_string(),
            content: "---\ntags: [test, draft]\n---\nThis is a tagged file".to_string(),
        },
    ];

    let all = count_words_from(&files, None);
    assert_eq!(all.len(), 4, "Should process all files");
    let file2 = all.iter().find(|f| f.path.ends_with("file2.md")).expect("file2.md should exist");
    assert_eq!(file2.words, 7, "file2.md should have 7 words");
    for pair in all.windows(2) {
        assert!(pair[0].words >= pair[1].words, "largest counts come first");
    }

    let filtered = count_words_from(&files, Some("draft"));
    assert_eq!(filtered.len(), 3, "Should exclude file with 'draft' tag");
    assert!(filtered.iter().all(|f| f.path != "tagged.md"));
}

#[test]
fn test_count_words_keeps_order_of_equal_counts() {
    let files = vec![
        FileEntry { path: "a.md".to_string(), content: "one two".to_string() },
        FileEntry { path: "b.md".to_string(), content: "three four five".to_string() },
        FileEntry { path: "c.md".to_string(), content: "six seven".to_string() },
    ];
    let out = count_words_from(&files, None);
    assert_eq!(out[0].path, "b.md");
    assert_eq!(out[1].path, "a.md");
    assert_eq!(out[2].path, "c.md");
}

#[test]
fn test_single_pattern_stats() {
    let contents = strings(&[
        "---\ntags: [todo]\n---\nItem one",
        "---\ntags: [todo]\n---\nItem two",
        "Just regular content",
    ]);
    let stats = single_pattern_stats_from(&contents, "todo");
    assert_eq!(stats.total_files, 3);
    assert_eq!(stats.files_with_pattern, 2);
    assert_eq!(single_pattern_stats_from(&Vec::new(), "todo"), SinglePatternStats::new());
}

#[test]
fn test_only_tag_stats() {
    let contents = strings(&[
        "---\ntags: [refactored]\n---\nContent",
        "---\ntags: [refactored, reviewed]\n---\nContent",
        "---\ntags: [draft]\n---\nContent",
        "Just content",
    ]);
    let stats = only_tag_stats_from(&contents, "refactored");
    assert_eq!(stats.total_files, 4);
    assert_eq!(stats.files_with_pattern, 1, "only the single-tag file counts");
}

#[test]
fn test_comparison_stats() {
    let contents = strings(&[
        "---\ntags: [done]\n---\nTask one",
        "---\ntags: [done]\n---\nTask two",
        "---\ntags: [todo]\n---\nTask three",
        "---\ntags: [done, todo]\n---\nTask four",
    ]);
    let stats = comparison_stats_from(&contents, "done", "todo");
    assert_eq!(stats.total, 4);
    assert_eq!(stats.done, 3);
    assert_eq!(stats.todo, 2);
    assert_eq!(comparison_stats_from(&Vec::new(), "done", "todo"), ComparisonStats::new());
}

#[test]
fn test_word_stats_strip_frontmatter_only_when_fenced() {
    let contents = strings(&["---\ntags: [x]\n---\nfour words are here"]);
    let stats = word_stats_from(&contents, "x");
    assert_eq!(stats.total_words, 4, "frontmatter words are not counted");

    let plain = strings(&["four words are here"]);
    let stats = word_stats_from(&plain, "x");
    assert_eq!(stats.total_words, 4);
}

//! The result records of the scanners.

use vstd::prelude::*;

verus! {

/// Counts of files carrying a "done" tag and a "todo" tag.
#[derive(Debug, PartialEq, Eq, Structural)]
pub struct ComparisonStats {
    /// How many scanned files carry the "done" tag.
    pub done: u64,
    /// How many scanned files carry the "todo" tag.
    pub todo: u64,
    /// How many files were scanned.
    pub total: u64,
}

impl ComparisonStats {
    /// All counts at zero.
    pub fn new() -> (r: Self)
        ensures
            r == (ComparisonStats { done: 0, todo: 0, total: 0 }),
    {
        ComparisonStats { done: 0, todo: 0, total: 0 }
    }
}

/// Counts of files matching a single pattern.
#[derive(Debug, PartialEq, Eq, Structural)]
pub struct SinglePatternStats {
    /// How many scanned files match the pattern.
    pub files_with_pattern: u64,
    /// How many files were scanned.
    pub total_files: u64,
}

impl SinglePatternStats {
    /// All counts at zero.
    pub fn new() -> (r: Self)
        ensures
            r == (SinglePatternStats { files_with_pattern: 0, total_files: 0 }),
    {
        SinglePatternStats { files_with_pattern: 0, total_files: 0 }
    }
}

/// Word counts over all scanned files and over the tagged ones.
#[derive(Debug, PartialEq, Eq, Structural)]
pub struct WordCountStats {
    /// How many scanned files carry the tag.
    pub tagged_files: u64,
    /// How many words the tagged files hold.
    pub tagged_words: u64,
    /// How many files were scanned.
    pub total_files: u64,
    /// How many words all scanned files hold.
    pub total_words: u64,
}

impl WordCountStats {
    /// All counts at zero.
    pub fn new() -> (r: Self)
        ensures
            r == (WordCountStats { tagged_files: 0, tagged_words: 0, total_files: 0, total_words: 0 }),
    {
        WordCountStats { tagged_files: 0, tagged_words: 0, total_files: 0, total_words: 0 }
    }
}

/// One scanned file's path and its word count.
#[derive(Debug)]
pub struct FileWordCount {
    /// The file's path.
    pub path: String,
    /// How many whitespace-separated words the file holds.
    pub words: usize,
}

/// The mathematical content of a `FileWordCount`.
pub struct FileWordCountView {
    /// The file's path.
    pub path: Seq<char>,
    /// How many words the file holds.
    pub words: int,
}

impl View for FileWordCount {
    type V = FileWordCountView;

    open spec fn view(&self) -> FileWordCountView {
        FileWordCountView { path: self.path@, words: self.words as int }
    }
}

/// One file handed to a scanner: its path and its whole text.
#[derive(Debug)]
pub struct FileEntry {
    /// The file's path.
    pub path: String,
    /// The file's whole text.
    pub content: String,
}

/// The mathematical content of a `FileEntry`.
pub struct FileEntryView {
    /// The file's path.
    pub path: Seq<char>,
    /// The file's whole text.
    pub content: Seq<char>,
}

impl View for FileEntry {
    type V = FileEntryView;

    open spec fn view(&self) -> FileEntryView {
        FileEntryView { path: self.path@, content: self.content@ }
    }
}

/// Addition on `u64` counters that stops at the largest value.
pub open spec fn sat_add_spec(a: int, b: int) -> int {
    if a + b > u64::MAX {
        u64::MAX as int
    } else {
        a + b
    }
}

/// `a + b`, stopping at the largest `u64` value.
pub fn sat_add(a: u64, b: u64) -> (r: u64)
    ensures
        r == sat_add_spec(a as int, b as int),
{
    if a > u64::MAX - b {
        u64::MAX
    } else {
        a + b
    }
}

} // verus!

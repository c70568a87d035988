//! Ignore-pattern engine and note-scanning library.
//!
//! The core is a gitignore-style pattern engine: directive lines are compiled
//! into glob rules, and candidate paths are matched against the compiled rule
//! set with negation-first precedence (`ignore`). Around it stand the pure
//! halves of the note scanners: frontmatter tag extraction (`frontmatter`),
//! word counting and scan statistics (`scan`), word-frequency rankings
//! (`freq`), and the command-line grammar (`cli`).

use vstd::prelude::*;

pub mod chars;
pub mod cli;
pub mod freq;
pub mod frontmatter;
pub mod globs;
pub mod ignore;
pub mod scan;
pub mod stats;

pub use cli::{ArgError, Args, RunMode};
pub use freq::{word_frequency_rankings, word_frequency_tally};
pub use frontmatter::{contains_tag_in, has_only_tag_in, parse_frontmatter, Frontmatter};
pub use ignore::{CompileError, Patterns};
pub use scan::{
    comparison_stats_from, count_words_from, is_hidden_name, only_tag_stats_from, should_exclude,
    single_pattern_stats_from, word_stats_from,
};
pub use stats::{ComparisonStats, FileEntry, FileWordCount, SinglePatternStats, WordCountStats};

verus! {

} // verus!

//! Command-line arguments and mode selection.
//!
//! The grammar is small: boolean flags, and flags that take the next token as
//! their value. `Args::parse_from` is the verified parser, and `Args::mode`
//! decides which scan the arguments ask for.

use vstd::prelude::*;

use crate::chars::chars_of;

verus! {

/// The tool's arguments.
#[derive(Debug)]
pub struct Args {
    /// Show the total file count only (`-c`, `--count`).
    pub count: bool,
    /// The directory to scan (`-d`, `--dir`; defaults to the current one).
    pub directory: String,
    /// The "done" tag to search for (`-r`, `--done`).
    pub done_tag: Option<String>,
    /// Directory names to exclude in word-count mode, comma-separated
    /// (`-e`, `--exclude`).
    pub exclude: String,
    /// Leave out files carrying this tag (`-f`, `--filter`).
    pub filter_out: Option<String>,
    /// A single tag to search for (`-t`, `--tag`).
    pub pattern: Option<String>,
    /// Show word-count statistics for files with this tag (`-s`, `--stats`).
    pub stats: Option<String>,
    /// The "todo" tag to search for (`-u`, `--todo`).
    pub todo_tag: Option<String>,
    /// How many files to list in word-count mode (`-n`, `--num`).
    pub top: usize,
    /// Show word counts instead of a tag percentage (`-w`, `--wordcount`).
    pub words: bool,
}

/// The mathematical content of `Args`.
pub struct ArgsView {
    /// Show the total file count only.
    pub count: bool,
    /// The directory to scan.
    pub directory: Seq<char>,
    /// The "done" tag to search for.
    pub done_tag: Option<Seq<char>>,
    /// Directory names to exclude, comma-separated.
    pub exclude: Seq<char>,
    /// Leave out files carrying this tag.
    pub filter_out: Option<Seq<char>>,
    /// A single tag to search for.
    pub pattern: Option<Seq<char>>,
    /// Show word-count statistics for files with this tag.
    pub stats: Option<Seq<char>>,
    /// The "todo" tag to search for.
    pub todo_tag: Option<Seq<char>>,
    /// How many files to list in word-count mode.
    pub top: int,
    /// Show word counts instead of a tag percentage.
    pub words: bool,
}

/// The view of an optional string.
pub open spec fn opt_view(o: Option<String>) -> Option<Seq<char>> {
    match o {
        Some(s) => Some(s@),
        None => None,
    }
}

impl View for Args {
    type V = ArgsView;

    open spec fn view(&self) -> ArgsView {
        ArgsView {
            count: self.count,
            directory: self.directory@,
            done_tag: opt_view(self.done_tag),
            exclude: self.exclude@,
            filter_out: opt_view(self.filter_out),
            pattern: opt_view(self.pattern),
            stats: opt_view(self.stats),
            todo_tag: opt_view(self.todo_tag),
            top: self.top as int,
            words: self.words,
        }
    }
}

/// Why an argument list was rejected.
#[derive(Clone, Copy, Debug, PartialEq, Eq, Structural)]
pub enum ArgError {
    /// A token is no known flag.
    UnknownArgument,
    /// A flag that takes a value stands last.
    MissingValue,
    /// The value of `-n`/`--num` is no number that fits.
    InvalidNumber,
}

/// The arguments before any flag is read: scan the current directory,
/// exclude `.git`, list ten files.
pub open spec fn default_args() -> ArgsView {
    ArgsView {
        count: false,
        directory: "."@,
        done_tag: None,
        exclude: ".git"@,
        filter_out: None,
        pattern: None,
        stats: None,
        todo_tag: None,
        top: 10,
        words: false,
    }
}

/// A decimal digit.
pub open spec fn is_digit(c: char) -> bool {
    '0' <= c && c <= '9'
}

/// The value of a decimal digit.
pub open spec fn digit_val(c: char) -> int {
    c as u32 - '0' as u32
}

/// The value of a digit string.
pub open spec fn digits_val(s: Seq<char>) -> int
    decreases s.len(),
{
    if s.len() == 0 {
        0
    } else {
        digits_val(s.drop_last()) * 10 + digit_val(s.last())
    }
}

/// The digit part of a number token: what follows an optional leading `+`.
pub open spec fn digits_part(s: Seq<char>) -> Seq<char> {
    if s.len() > 0 && s[0] == '+' {
        s.drop_first()
    } else {
        s
    }
}

/// The number a token denotes: an optional leading `+`, then at least one
/// digit, with a value that fits in `usize`.
pub open spec fn parse_usize_spec(s: Seq<char>) -> Option<int> {
    let d = digits_part(s);
    if d.len() > 0 && (forall|i: int| 0 <= i < d.len() ==> is_digit(#[trigger] d[i]))
        && digits_val(d) <= usize::MAX {
        Some(digits_val(d))
    } else {
        None
    }
}

proof fn lemma_digits_prefix_nonneg(s: Seq<char>, k: int)
    requires
        0 <= k <= s.len(),
        forall|i: int| 0 <= i < k ==> is_digit(#[trigger] s[i]),
    ensures
        digits_val(s.take(k)) >= 0,
    decreases k,
{
    if k > 0 {
        assert(s.take(k).drop_last() =~= s.take(k - 1));
        lemma_digits_prefix_nonneg(s, k - 1);
        assert(digits_val(s.take(k)) == digits_val(s.take(k - 1)) * 10 + digit_val(s[k - 1]));
    }
}

proof fn lemma_digits_grow(s: Seq<char>, k: int)
    requires
        0 <= k <= s.len(),
        forall|i: int| 0 <= i < s.len() ==> is_digit(#[trigger] s[i]),
    ensures
        digits_val(s) >= digits_val(s.take(k)),
    decreases s.len() - k,
{
    if k < s.len() {
        lemma_digits_prefix_nonneg(s, k);
        assert(s.take(k + 1).drop_last() =~= s.take(k));
        assert(digits_val(s.take(k + 1)) == digits_val(s.take(k)) * 10 + digit_val(s[k]));
        lemma_digits_grow(s, k + 1);
    } else {
        assert(s.take(k) =~= s);
    }
}

/// Reads a token as a `usize`.
fn parse_usize_chars(s: &Vec<char>) -> (r: Option<usize>)
    ensures
        match parse_usize_spec(s@) {
            Some(v) => r matches Some(x) && x == v,
            None => r is None,
        },
{
    let start: usize = if s.len() > 0 && s[0] == '+' {
        1
    } else {
        0
    };
    let ghost d = digits_part(s@);
    if s.len() == start {
        return None;
    }
    let n = s.len();
    let mut val: u128 = 0;
    let mut i: usize = start;
    while i < n
        invariant
            start <= i <= n,
            n == s@.len(),
            start == (if s@.len() > 0 && s@[0] == '+' { 1int } else { 0int }),
            n > start,
            d == digits_part(s@),
            d.len() == n - start,
            forall|j: int| 0 <= j < d.len() ==> #[trigger] d[j] == s@[j + start],
            forall|j: int| start <= j < i ==> is_digit(#[trigger] s@[j]),
            val == digits_val(d.take(i - start)),
            val <= usize::MAX,
        decreases n - i,
    {
        let c = s[i];
        if !('0' <= c && c <= '9') {
            proof {
                assert(0 <= i - start);
                assert(i - start < d.len());
                assert(d[i - start] == s@[i as int]);
                assert(!is_digit(d[i - start]));
                assert(!(forall|j: int| 0 <= j < d.len() ==> is_digit(#[trigger] d[j])));
                assert(parse_usize_spec(s@) is None);
            }
            return None;
        }
        let dv: u32 = (c as u32) - 48;
        proof {
            assert(d.take(i - start + 1).drop_last() =~= d.take(i - start));
            assert(d.take(i - start + 1).last() == s@[i as int]);
            assert(digits_val(d.take(i - start + 1)) == val * 10 + digit_val(s@[i as int]));
            assert(digit_val(s@[i as int]) == dv);
            assert(usize::MAX <= u64::MAX);
        }
        val = val * 10 + dv as u128;
        if val > usize::MAX as u128 {
            proof {
                if forall|j: int| 0 <= j < d.len() ==> is_digit(#[trigger] d[j]) {
                    lemma_digits_grow(d, i - start + 1);
                    assert(digits_val(d) >= digits_val(d.take(i - start + 1)));
                }
            }
            return None;
        }
        i = i + 1;
    }
    proof {
        assert(d.take(i - start) =~= d);
        assert forall|j: int| 0 <= j < d.len() implies is_digit(#[trigger] d[j]) by {
            assert(d[j] == s@[j + start]);
        }
    }
    Some(val as usize)
}

/// The arguments read from the tokens after the program name, left to right,
/// updating `acc`: boolean flags switch their field on, value flags take the
/// next token, and `-n`/`--num` reads its value as a number. An unknown
/// token, a missing value or a bad number rejects the whole list; a repeated
/// flag keeps its last value.
pub open spec fn parse_args_rec(toks: Seq<Seq<char>>, acc: ArgsView) -> Result<ArgsView, ArgError>
    decreases toks.len(),
{
    if toks.len() == 0 {
        Ok(acc)
    } else {
        let t = toks[0];
        if t == "-c"@ || t == "--count"@ {
            parse_args_rec(toks.drop_first(), ArgsView { count: true, ..acc })
        } else if t == "-w"@ || t == "--wordcount"@ {
            parse_args_rec(toks.drop_first(), ArgsView { words: true, ..acc })
        } else if t == "-d"@ || t == "--dir"@ {
            if toks.len() < 2 {
                Err(ArgError::MissingValue)
            } else {
                parse_args_rec(toks.skip(2), ArgsView { directory: toks[1], ..acc })
            }
        } else if t == "-e"@ || t == "--exclude"@ {
            if toks.len() < 2 {
                Err(ArgError::MissingValue)
            } else {
                parse_args_rec(toks.skip(2), ArgsView { exclude: toks[1], ..acc })
            }
        } else if t == "-r"@ || t == "--done"@ {
            if toks.len() < 2 {
                Err(ArgError::MissingValue)
            } else {
                parse_args_rec(toks.skip(2), ArgsView { done_tag: Some(toks[1]), ..acc })
            }
        } else if t == "-f"@ || t == "--filter"@ {
            if toks.len() < 2 {
                Err(ArgError::MissingValue)
            } else {
                parse_args_rec(toks.skip(2), ArgsView { filter_out: Some(toks[1]), ..acc })
            }
        } else if t == "-t"@ || t == "--tag"@ {
            if toks.len() < 2 {
                Err(ArgError::MissingValue)
            } else {
                parse_args_rec(toks.skip(2), ArgsView { pattern: Some(toks[1]), ..acc })
            }
        } else if t == "-s"@ || t == "--stats"@ {
            if toks.len() < 2 {
                Err(ArgError::MissingValue)
            } else {
                parse_args_rec(toks.skip(2), ArgsView { stats: Some(toks[1]), ..acc })
            }
        } else if t == "-u"@ || t == "--todo"@ {
            if toks.len() < 2 {
                Err(ArgError::MissingValue)
            } else {
                parse_args_rec(toks.skip(2), ArgsView { todo_tag: Some(toks[1]), ..acc })
            }
        } else if t == "-n"@ || t == "--num"@ {
            if toks.len() < 2 {
                Err(ArgError::MissingValue)
            } else {
                match parse_usize_spec(toks[1]) {
                    Some(v) => parse_args_rec(toks.skip(2), ArgsView { top: v, ..acc }),
                    None => Err(ArgError::InvalidNumber),
                }
            }
        } else {
            Err(ArgError::UnknownArgument)
        }
    }
}

/// The arguments denoted by a full argument list: the first token is the
/// program name and is skipped; the rest start from the defaults.
pub open spec fn parse_args_spec(argv: Seq<Seq<char>>) -> Result<ArgsView, ArgError> {
    if argv.len() == 0 {
        Ok(default_args())
    } else {
        parse_args_rec(argv.drop_first(), default_args())
    }
}

/// Whether the token equals the given flag text.
fn tok_is(tok: &String, flag: &str) -> (r: bool)
    ensures
        r == (tok@ == flag@),
{
    let tv = chars_of(tok.as_str());
    let fv = chars_of(flag);
    crate::chars::eq_chars(&tv, &fv)
}

impl Args {
    /// The argument values denoted by the token list, the program name first.
    ///
    /// Boolean flags switch their field on; a value flag takes the next token
    /// as its value; `-n`/`--num` takes a number. An unknown token, a flag
    /// without its value, or a bad number rejects the whole list.
    pub fn parse_from(argv: &Vec<String>) -> (r: Result<Args, ArgError>)
        ensures
            match parse_args_spec(crate::chars::string_views(argv@)) {
                Ok(a) => r matches Ok(got) && got@ == a,
                Err(e) => r == Err::<Args, ArgError>(e),
            },
    {
        let ghost av = crate::chars::string_views(argv@);
        let mut cur = Args {
            count: false,
            directory: String::from_str("."),
            done_tag: None,
            exclude: String::from_str(".git"),
            filter_out: None,
            pattern: None,
            stats: None,
            todo_tag: None,
            top: 10,
            words: false,
        };
        proof {
            assert(cur@ == default_args());
        }
        if argv.len() == 0 {
            return Ok(cur);
        }
        let n = argv.len();
        let mut i: usize = 1;
        proof {
            assert(av.drop_first() =~= av.skip(1));
        }
        while i < n
            invariant
                1 <= i <= n,
                n == argv@.len(),
                av == crate::chars::string_views(argv@),
                parse_args_rec(av.skip(1), default_args()) == parse_args_rec(
                    av.skip(i as int),
                    cur@,
                ),
            decreases n - i,
        {
            let ghost tail = av.skip(i as int);
            proof {
                assert(tail[0] == av[i as int]);
                assert(av[i as int] == argv@[i as int]@);
                assert(tail.drop_first() =~= av.skip(i as int + 1));
                if i + 1 < n {
                    assert(tail[1] == av[i as int + 1]);
                    assert(tail.skip(2) =~= av.skip(i as int + 2));
                }
            }
            let t = &argv[i];
            if tok_is(t, "-c") || tok_is(t, "--count") {
                cur.count = true;
                i = i + 1;
            } else if tok_is(t, "-w") || tok_is(t, "--wordcount") {
                cur.words = true;
                i = i + 1;
            } else if tok_is(t, "-d") || tok_is(t, "--dir") {
                if i + 1 >= n {
                    return Err(ArgError::MissingValue);
                }
                cur.directory = argv[i + 1].clone();
                i = i + 2;
            } else if tok_is(t, "-e") || tok_is(t, "--exclude") {
                if i + 1 >= n {
                    return Err(ArgError::MissingValue);
                }
                cur.exclude = argv[i + 1].clone();
                i = i + 2;
            } else if tok_is(t, "-r") || tok_is(t, "--done") {
                if i + 1 >= n {
                    return Err(ArgError::MissingValue);
                }
                cur.done_tag = Some(argv[i + 1].clone());
                i = i + 2;
            } else if tok_is(t, "-f") || tok_is(t, "--filter") {
                if i + 1 >= n {
                    return Err(ArgError::MissingValue);
                }
                cur.filter_out = Some(argv[i + 1].clone());
                i = i + 2;
            } else if tok_is(t, "-t") || tok_is(t, "--tag") {
                if i + 1 >= n {
                    return Err(ArgError::MissingValue);
                }
                cur.pattern = Some(argv[i + 1].clone());
                i = i + 2;
            } else if tok_is(t, "-s") || tok_is(t, "--stats") {
                if i + 1 >= n {
                    return Err(ArgError::MissingValue);
                }
                cur.stats = Some(argv[i + 1].clone());
                i = i + 2;
            } else if tok_is(t, "-u") || tok_is(t, "--todo") {
                if i + 1 >= n {
                    return Err(ArgError::MissingValue);
                }
                cur.todo_tag = Some(argv[i + 1].clone());
                i = i + 2;
            } else if tok_is(t, "-n") || tok_is(t, "--num") {
                if i + 1 >= n {
                    return Err(ArgError::MissingValue);
                }
                let num = chars_of(argv[i + 1].as_str());
                match parse_usize_chars(&num) {
                    Some(v) => {
                        cur.top = v;
                        i = i + 2;
                    },
                    None => {
                        return Err(ArgError::InvalidNumber);
                    },
                }
            } else {
                return Err(ArgError::UnknownArgument);
            }
        }
        proof {
            assert(av.skip(n as int) =~= Seq::<Seq<char>>::empty());
        }
        Ok(cur)
    }
}

/// What the tool is asked to do.
#[derive(Debug)]
pub enum RunMode {
    /// Count the files under the directory.
    CountFiles,
    /// Show word-count statistics for files carrying the tag.
    WordStats(String),
    /// List files by word count.
    WordCounts,
    /// Count files carrying a single tag.
    SinglePattern(String),
    /// Compare the files carrying a "done" tag against a "todo" tag.
    CompareTags(String, String),
}

/// The mathematical content of `RunMode`.
pub enum RunModeView {
    /// Count the files under the directory.
    CountFiles,
    /// Show word-count statistics for files carrying the tag.
    WordStats(Seq<char>),
    /// List files by word count.
    WordCounts,
    /// Count files carrying a single tag.
    SinglePattern(Seq<char>),
    /// Compare the files carrying a "done" tag against a "todo" tag.
    CompareTags(Seq<char>, Seq<char>),
}

impl View for RunMode {
    type V = RunModeView;

    open spec fn view(&self) -> RunModeView {
        match self {
            RunMode::CountFiles => RunModeView::CountFiles,
            RunMode::WordStats(s) => RunModeView::WordStats(s@),
            RunMode::WordCounts => RunModeView::WordCounts,
            RunMode::SinglePattern(s) => RunModeView::SinglePattern(s@),
            RunMode::CompareTags(d, u) => RunModeView::CompareTags(d@, u@),
        }
    }
}

/// The mode the arguments select, in order of precedence: the count flag,
/// then the stats tag, then the word-count flag, then the single tag, then
/// the pair of done and todo tags, and by default a single-tag scan for
/// `to_refactor`.
pub open spec fn mode_spec(a: ArgsView) -> RunModeView {
    if a.count {
        RunModeView::CountFiles
    } else {
        match a.stats {
            Some(s) => RunModeView::WordStats(s),
            None => if a.words {
                RunModeView::WordCounts
            } else {
                match a.pattern {
                    Some(p) => RunModeView::SinglePattern(p),
                    None => match (a.done_tag, a.todo_tag) {
                        (Some(d), Some(u)) => RunModeView::CompareTags(d, u),
                        _ => RunModeView::SinglePattern("to_refactor"@),
                    },
                }
            },
        }
    }
}

impl Args {
    /// The scan these arguments ask for.
    pub fn mode(&self) -> (m: RunMode)
        ensures
            m@ == mode_spec(self@),
    {
        if self.count {
            return RunMode::CountFiles;
        }
        match &self.stats {
            Some(s) => RunMode::WordStats(s.clone()),
            None => {
                if self.words {
                    return RunMode::WordCounts;
                }
                match &self.pattern {
                    Some(p) => RunMode::SinglePattern(p.clone()),
                    None => match (&self.done_tag, &self.todo_tag) {
                        (Some(d), Some(u)) => RunMode::CompareTags(d.clone(), u.clone()),
                        _ => RunMode::SinglePattern(String::from_str("to_refactor")),
                    },
                }
            },
        }
    }
}

} // verus!

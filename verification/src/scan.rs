//! The pure halves of the directory scanners.
//!
//! The walkers in the surrounding binary hand these functions plain values: a
//! candidate's path text and name, or the collected texts of the visited
//! files. Everything that decides or counts is here and verified.

use vstd::prelude::*;

use crate::chars::{
    chars_of, contains_sub, find_sub, is_ws_char, join_char_spec, join_with, lines_of, lines_spec,
    part_views, push_all, string_views, subvec,
};
use crate::frontmatter::{
    content_has_tag, content_has_only_tag, contains_tag_in, dashes_seq, has_only_tag_in, is_dashes,
    note_tags, parse_frontmatter,
};
use crate::ignore::{set_matches, Patterns, RuleView};
use crate::stats::{
    sat_add, sat_add_spec, ComparisonStats, FileEntry, FileEntryView, FileWordCount,
    FileWordCountView, SinglePatternStats, WordCountStats,
};

verus! {

/// A hidden name: it begins with a dot, unless it begins with `.tmp`.
pub open spec fn hidden_name(name: Seq<char>) -> bool {
    &&& name.len() > 0
    &&& name[0] == '.'
    &&& !(name.len() >= 4 && name[1] == 't' && name[2] == 'm' && name[3] == 'p')
}

/// Whether a directory entry's name counts as hidden.
pub fn is_hidden_name(name: &str) -> (r: bool)
    ensures
        r == hidden_name(name@),
{
    let v = chars_of(name);
    if v.len() == 0 || v[0] != '.' {
        return false;
    }
    if v.len() >= 4 && v[1] == 't' && v[2] == 'm' && v[3] == 'p' {
        return false;
    }
    true
}

/// Whether the excluded directory name `d` rules the candidate out: either
/// the entry is a directory of that very name, or the path holds `/<d>/`.
pub open spec fn dir_excluded(path: Seq<char>, name: Seq<char>, is_dir: bool, d: Seq<char>)
    -> bool {
    (is_dir && name == d) || contains_sub(path, seq!['/'] + d + seq!['/'])
}

/// Whether a directory entry is excluded from a scan: hidden entries, the
/// explicitly excluded directory names, and everything the ignore rules match.
pub open spec fn excluded_spec(
    path: Seq<char>,
    name: Seq<char>,
    is_dir: bool,
    exclude_dirs: Seq<Seq<char>>,
    rules: Option<Seq<RuleView>>,
) -> bool {
    ||| hidden_name(name)
    ||| exists|i: int|
        0 <= i < exclude_dirs.len() && dir_excluded(path, name, is_dir, #[trigger] exclude_dirs[i])
    ||| (rules matches Some(rs) && set_matches(rs, path))
}

/// Whether a directory entry should be excluded from a scan.
///
/// `path` is the entry's path text, `name` its final component and `is_dir`
/// whether it is a directory.
pub fn should_exclude(
    path: &str,
    name: &str,
    is_dir: bool,
    exclude_dirs: &Vec<String>,
    ignore_patterns: Option<&Patterns>,
) -> (r: bool)
    ensures
        r == excluded_spec(
            path@,
            name@,
            is_dir,
            string_views(exclude_dirs@),
            match ignore_patterns {
                Some(p) => Some(p@),
                None => None,
            },
        ),
{
    if is_hidden_name(name) {
        return true;
    }
    let pv = chars_of(path);
    let nv = chars_of(name);
    let ghost exv = string_views(exclude_dirs@);
    let mut i: usize = 0;
    while i < exclude_dirs.len()
        invariant
            i <= exclude_dirs@.len(),
            pv@ == path@,
            nv@ == name@,
            exv == string_views(exclude_dirs@),
            forall|j: int| 0 <= j < i ==> !dir_excluded(path@, name@, is_dir, #[trigger] exv[j]),
        decreases exclude_dirs@.len() - i,
    {
        let d = chars_of(exclude_dirs[i].as_str());
        proof {
            assert(d@ == exv[i as int]);
        }
        if is_dir && crate::chars::eq_chars(&nv, &d) {
            proof {
                assert(dir_excluded(path@, name@, is_dir, exv[i as int]));
            }
            return true;
        }
        let mut wrapped: Vec<char> = Vec::new();
        wrapped.push('/');
        push_all(&mut wrapped, &d);
        wrapped.push('/');
        proof {
            assert(wrapped@ =~= seq!['/'] + d@ + seq!['/']);
        }
        if find_sub(&pv, &wrapped) {
            proof {
                assert(dir_excluded(path@, name@, is_dir, exv[i as int]));
            }
            return true;
        }
        i = i + 1;
    }
    match ignore_patterns {
        Some(p) => p.matches(path),
        None => false,
    }
}

/// The number of maximal whitespace-separated words in `s[i..]`, given
/// whether position `i` continues a word.
pub open spec fn wc_rec(s: Seq<char>, i: int, in_word: bool) -> int
    decreases s.len() - i,
{
    if i < 0 || i >= s.len() {
        0
    } else if is_ws_char(s[i]) {
        wc_rec(s, i + 1, false)
    } else if in_word {
        wc_rec(s, i + 1, true)
    } else {
        1 + wc_rec(s, i + 1, true)
    }
}

/// The number of whitespace-separated words in `s`, as
/// `str::split_whitespace` would yield them.
pub open spec fn word_count_spec(s: Seq<char>) -> int {
    wc_rec(s, 0, false)
}

proof fn lemma_wc_bound(s: Seq<char>, i: int, in_word: bool)
    ensures
        0 <= wc_rec(s, i, in_word) <= s.len() - i || wc_rec(s, i, in_word) == 0,
    decreases s.len() - i,
{
    if 0 <= i < s.len() {
        lemma_wc_bound(s, i + 1, false);
        lemma_wc_bound(s, i + 1, true);
    }
}

/// Counts the whitespace-separated words of `v`.
pub fn word_count_chars(v: &Vec<char>) -> (r: usize)
    ensures
        r == word_count_spec(v@),
{
    let mut count: usize = 0;
    let mut in_word = false;
    let mut i: usize = 0;
    while i < v.len()
        invariant
            i <= v@.len(),
            count <= i,
            count + wc_rec(v@, i as int, in_word) == word_count_spec(v@),
        decreases v@.len() - i,
    {
        if crate::chars::char_is_ws(v[i]) {
            in_word = false;
        } else if !in_word {
            count = count + 1;
            in_word = true;
        }
        i = i + 1;
    }
    count
}

/// The index of the first fence line at or after `k`, or -1 when none
/// follows.
pub open spec fn fence_at(ls: Seq<Seq<char>>, k: int) -> int
    decreases ls.len() - k,
{
    if k < 0 || k >= ls.len() {
        -1
    } else if ls[k] == dashes_seq() {
        k
    } else {
        fence_at(ls, k + 1)
    }
}

/// The note's text without its frontmatter block, as the word-count scanner
/// sees it: when the note has more than two lines and opens with a fence, the
/// lines after the closing fence joined by newlines; otherwise the whole
/// text.
pub open spec fn body_without_frontmatter(content: Seq<char>) -> Seq<char> {
    let ls = lines_spec(content);
    if ls.len() > 2 && ls[0] == dashes_seq() {
        let e = fence_at(ls, 1);
        if e < 0 {
            content
        } else {
            join_char_spec(ls.skip(e + 1), '\n')
        }
    } else {
        content
    }
}

/// The note's text without its frontmatter block.
fn strip_frontmatter_chars(content: &Vec<char>) -> (r: Vec<char>)
    ensures
        r@ == body_without_frontmatter(content@),
{
    let ls = lines_of(content);
    let ghost lsv = part_views(ls@);
    if !(ls.len() > 2 && is_dashes(&ls[0])) {
        proof {
            if lsv.len() > 0 {
                assert(lsv[0] == ls@[0]@);
            }
            assert(content@.subrange(0, content@.len() as int) =~= content@);
        }
        return subvec(content, 0, content.len());
    }
    proof {
        assert(lsv[0] == ls@[0]@);
    }
    let mut k: usize = 1;
    while k < ls.len() && !is_dashes(&ls[k])
        invariant
            1 <= k <= ls@.len(),
            lsv == part_views(ls@),
            fence_at(lsv, 1) == fence_at(lsv, k as int),
        decreases ls@.len() - k,
    {
        proof {
            assert(lsv[k as int] == ls@[k as int]@);
        }
        k = k + 1;
    }
    if k == ls.len() {
        proof {
            assert(fence_at(lsv, k as int) == -1);
            assert(content@.subrange(0, content@.len() as int) =~= content@);
        }
        return subvec(content, 0, content.len());
    }
    proof {
        assert(lsv[k as int] == ls@[k as int]@);
        assert(fence_at(lsv, k as int) == k as int);
    }
    let mut tail: Vec<Vec<char>> = Vec::new();
    let mut m: usize = k + 1;
    proof {
        assert(part_views(tail@) =~= lsv.skip(k as int + 1).take(0));
    }
    while m < ls.len()
        invariant
            k + 1 <= m <= ls@.len(),
            lsv == part_views(ls@),
            part_views(tail@) =~= lsv.skip(k as int + 1).take(m - k - 1),
        decreases ls@.len() - m,
    {
        let ghost t0 = part_views(tail@);
        let piece = subvec(&ls[m], 0, ls[m].len());
        proof {
            assert(piece@ =~= ls@[m as int]@);
            assert(ls@[m as int]@ == lsv[m as int]);
        }
        tail.push(piece);
        m = m + 1;
        proof {
            assert(part_views(tail@) =~= t0.push(lsv[m - 1]));
            assert(part_views(tail@) =~= lsv.skip(k as int + 1).take(m - k - 1));
        }
    }
    proof {
        assert(part_views(tail@) =~= lsv.skip(k as int + 1));
    }
    join_with(&tail, '\n')
}

/// The note's word count as the stats scanner takes it: the frontmatter block
/// is left out when it can be read, and the whole text is counted otherwise.
pub open spec fn tallied_words(content: Seq<char>) -> int {
    if note_tags(content) is Ok {
        word_count_spec(body_without_frontmatter(content))
    } else {
        word_count_spec(content)
    }
}

/// A word count clamped to the largest `u64` counter value.
pub open spec fn clamp_u64(x: int) -> int {
    if x > u64::MAX {
        u64::MAX as int
    } else {
        x
    }
}

/// The word-count statistics of the given note texts: every note counts
/// toward the totals, and a note carrying `tag` counts toward the tagged
/// figures too. All counters stop at the largest `u64` value.
pub open spec fn word_stats_spec(contents: Seq<Seq<char>>, tag: Seq<char>) -> WordCountStats
    decreases contents.len(),
{
    if contents.len() == 0 {
        WordCountStats { tagged_files: 0, tagged_words: 0, total_files: 0, total_words: 0 }
    } else {
        let prev = word_stats_spec(contents.drop_last(), tag);
        let c = contents.last();
        let has = content_has_tag(c, tag);
        let wc = clamp_u64(tallied_words(c));
        WordCountStats {
            tagged_files: if has {
                sat_add_spec(prev.tagged_files as int, 1) as u64
            } else {
                prev.tagged_files
            },
            tagged_words: if has {
                sat_add_spec(prev.tagged_words as int, wc) as u64
            } else {
                prev.tagged_words
            },
            total_files: sat_add_spec(prev.total_files as int, 1) as u64,
            total_words: sat_add_spec(prev.total_words as int, wc) as u64,
        }
    }
}

/// Word-count statistics over the given note texts, for the notes carrying
/// `tag` against all notes.
pub fn word_stats_from(contents: &Vec<String>, tag: &str) -> (r: WordCountStats)
    ensures
        r == word_stats_spec(string_views(contents@), tag@),
{
    let ghost cv = string_views(contents@);
    let mut st = WordCountStats::new();
    let mut k: usize = 0;
    proof {
        assert(cv.take(0) =~= Seq::<Seq<char>>::empty());
    }
    while k < contents.len()
        invariant
            k <= contents@.len(),
            cv == string_views(contents@),
            st == word_stats_spec(cv.take(k as int), tag@),
        decreases contents@.len() - k,
    {
        let c = &contents[k];
        proof {
            assert(c@ == cv[k as int]);
            assert(cv.take(k as int + 1).drop_last() =~= cv.take(k as int));
            assert(cv.take(k as int + 1).last() == cv[k as int]);
        }
        let has = contains_tag_in(c.as_str(), tag);
        let readable = match parse_frontmatter(c.as_str()) {
            Ok(_f) => true,
            Err(_e) => false,
        };
        let chars = chars_of(c.as_str());
        let body = if readable {
            strip_frontmatter_chars(&chars)
        } else {
            chars
        };
        let wc = word_count_chars(&body);
        proof {
            lemma_wc_bound(body@, 0, false);
            assert(usize::MAX <= u64::MAX);
            assert(wc as int == clamp_u64(tallied_words(cv[k as int])));
        }
        let wc64: u64 = wc as u64;
        if has {
            st.tagged_files = sat_add(st.tagged_files, 1);
            st.tagged_words = sat_add(st.tagged_words, wc64);
        }
        st.total_files = sat_add(st.total_files, 1);
        st.total_words = sat_add(st.total_words, wc64);
        k = k + 1;
    }
    proof {
        assert(cv.take(contents@.len() as int) =~= cv);
    }
    st
}

/// The single-pattern statistics of the given note texts: every note counts,
/// and a note carrying `tag` counts toward the matching figure.
pub open spec fn single_stats_spec(contents: Seq<Seq<char>>, tag: Seq<char>) -> SinglePatternStats
    decreases contents.len(),
{
    if contents.len() == 0 {
        SinglePatternStats { files_with_pattern: 0, total_files: 0 }
    } else {
        let prev = single_stats_spec(contents.drop_last(), tag);
        SinglePatternStats {
            files_with_pattern: if content_has_tag(contents.last(), tag) {
                sat_add_spec(prev.files_with_pattern as int, 1) as u64
            } else {
                prev.files_with_pattern
            },
            total_files: sat_add_spec(prev.total_files as int, 1) as u64,
        }
    }
}

/// Counts, over the given note texts, the notes whose frontmatter carries
/// `tag`.
pub fn single_pattern_stats_from(contents: &Vec<String>, tag: &str) -> (r: SinglePatternStats)
    ensures
        r == single_stats_spec(string_views(contents@), tag@),
{
    let ghost cv = string_views(contents@);
    let mut st = SinglePatternStats::new();
    let mut k: usize = 0;
    proof {
        assert(cv.take(0) =~= Seq::<Seq<char>>::empty());
    }
    while k < contents.len()
        invariant
            k <= contents@.len(),
            cv == string_views(contents@),
            st == single_stats_spec(cv.take(k as int), tag@),
        decreases contents@.len() - k,
    {
        proof {
            assert(contents@[k as int]@ == cv[k as int]);
            assert(cv.take(k as int + 1).drop_last() =~= cv.take(k as int));
            assert(cv.take(k as int + 1).last() == cv[k as int]);
        }
        if contains_tag_in(contents[k].as_str(), tag) {
            st.files_with_pattern = sat_add(st.files_with_pattern, 1);
        }
        st.total_files = sat_add(st.total_files, 1);
        k = k + 1;
    }
    proof {
        assert(cv.take(contents@.len() as int) =~= cv);
    }
    st
}

/// The only-tag statistics of the given note texts: every note counts, and a
/// note carrying `tag` as its only tag counts toward the matching figure.
pub open spec fn only_tag_stats_spec(contents: Seq<Seq<char>>, tag: Seq<char>)
    -> SinglePatternStats
    decreases contents.len(),
{
    if contents.len() == 0 {
        SinglePatternStats { files_with_pattern: 0, total_files: 0 }
    } else {
        let prev = only_tag_stats_spec(contents.drop_last(), tag);
        SinglePatternStats {
            files_with_pattern: if content_has_only_tag(contents.last(), tag) {
                sat_add_spec(prev.files_with_pattern as int, 1) as u64
            } else {
                prev.files_with_pattern
            },
            total_files: sat_add_spec(prev.total_files as int, 1) as u64,
        }
    }
}

/// Counts, over the given note texts, the notes whose frontmatter carries
/// `tag` and no other tag.
pub fn only_tag_stats_from(contents: &Vec<String>, tag: &str) -> (r: SinglePatternStats)
    ensures
        r == only_tag_stats_spec(string_views(contents@), tag@),
{
    let ghost cv = string_views(contents@);
    let mut st = SinglePatternStats::new();
    let mut k: usize = 0;
    proof {
        assert(cv.take(0) =~= Seq::<Seq<char>>::empty());
    }
    while k < contents.len()
        invariant
            k <= contents@.len(),
            cv == string_views(contents@),
            st == only_tag_stats_spec(cv.take(k as int), tag@),
        decreases contents@.len() - k,
    {
        proof {
            assert(contents@[k as int]@ == cv[k as int]);
            assert(cv.take(k as int + 1).drop_last() =~= cv.take(k as int));
            assert(cv.take(k as int + 1).last() == cv[k as int]);
        }
        if has_only_tag_in(contents[k].as_str(), tag) {
            st.files_with_pattern = sat_add(st.files_with_pattern, 1);
        }
        st.total_files = sat_add(st.total_files, 1);
        k = k + 1;
    }
    proof {
        assert(cv.take(contents@.len() as int) =~= cv);
    }
    st
}

/// The two-tag comparison statistics of the given note texts.
pub open spec fn comparison_stats_spec(
    contents: Seq<Seq<char>>,
    done_tag: Seq<char>,
    todo_tag: Seq<char>,
) -> ComparisonStats
    decreases contents.len(),
{
    if contents.len() == 0 {
        ComparisonStats { done: 0, todo: 0, total: 0 }
    } else {
        let prev = comparison_stats_spec(contents.drop_last(), done_tag, todo_tag);
        let c = contents.last();
        ComparisonStats {
            done: if content_has_tag(c, done_tag) {
                sat_add_spec(prev.done as int, 1) as u64
            } else {
                prev.done
            },
            todo: if content_has_tag(c, todo_tag) {
                sat_add_spec(prev.todo as int, 1) as u64
            } else {
                prev.todo
            },
            total: sat_add_spec(prev.total as int, 1) as u64,
        }
    }
}

/// Counts, over the given note texts, the notes carrying the "done" tag and
/// the notes carrying the "todo" tag.
pub fn comparison_stats_from(contents: &Vec<String>, done_tag: &str, todo_tag: &str) -> (r:
    ComparisonStats)
    ensures
        r == comparison_stats_spec(string_views(contents@), done_tag@, todo_tag@),
{
    let ghost cv = string_views(contents@);
    let mut st = ComparisonStats::new();
    let mut k: usize = 0;
    proof {
        assert(cv.take(0) =~= Seq::<Seq<char>>::empty());
    }
    while k < contents.len()
        invariant
            k <= contents@.len(),
            cv == string_views(contents@),
            st == comparison_stats_spec(cv.take(k as int), done_tag@, todo_tag@),
        decreases contents@.len() - k,
    {
        proof {
            assert(contents@[k as int]@ == cv[k as int]);
            assert(cv.take(k as int + 1).drop_last() =~= cv.take(k as int));
            assert(cv.take(k as int + 1).last() == cv[k as int]);
        }
        if contains_tag_in(contents[k].as_str(), done_tag) {
            st.done = sat_add(st.done, 1);
        }
        if contains_tag_in(contents[k].as_str(), todo_tag) {
            st.todo = sat_add(st.todo, 1);
        }
        st.total = sat_add(st.total, 1);
        k = k + 1;
    }
    proof {
        assert(cv.take(contents@.len() as int) =~= cv);
    }
    st
}

/// The views of a vector of file word counts.
pub open spec fn fwc_views(s: Seq<FileWordCount>) -> Seq<FileWordCountView> {
    Seq::new(s.len(), |i: int| s[i]@)
}

/// The views of a vector of file entries.
pub open spec fn entry_views(s: Seq<FileEntry>) -> Seq<FileEntryView> {
    Seq::new(s.len(), |i: int| s[i]@)
}

/// The word counts of the kept files, in the given order: a file is dropped
/// when a filter tag is given and its frontmatter carries that tag.
pub open spec fn counted_files(files: Seq<FileEntryView>, filter_out: Option<Seq<char>>)
    -> Seq<FileWordCountView>
    decreases files.len(),
{
    if files.len() == 0 {
        Seq::<FileWordCountView>::empty()
    } else {
        let prev = counted_files(files.drop_last(), filter_out);
        let e = files.last();
        let kept = match filter_out {
            None => true,
            Some(tag) => !content_has_tag(e.content, tag),
        };
        if kept {
            prev.push(FileWordCountView { path: e.path, words: word_count_spec(e.content) })
        } else {
            prev
        }
    }
}

/// `x` inserted into `s` after every entry whose count is at least `x`'s, so
/// that a descending order (and, among equal counts, the prior order) is
/// kept.
pub open spec fn insert_by_words(s: Seq<FileWordCountView>, x: FileWordCountView)
    -> Seq<FileWordCountView>
    decreases s.len(),
{
    if s.len() > 0 && s[0].words >= x.words {
        seq![s[0]] + insert_by_words(s.drop_first(), x)
    } else {
        seq![x] + s
    }
}

/// `s` stably sorted by word count, largest first.
pub open spec fn sorted_by_words(s: Seq<FileWordCountView>) -> Seq<FileWordCountView>
    decreases s.len(),
{
    if s.len() == 0 {
        s
    } else {
        insert_by_words(sorted_by_words(s.drop_last()), s.last())
    }
}

/// The word counts of the kept files, largest first.
pub open spec fn count_words_spec(files: Seq<FileEntryView>, filter_out: Option<Seq<char>>)
    -> Seq<FileWordCountView> {
    sorted_by_words(counted_files(files, filter_out))
}

proof fn lemma_insert_by_words_at(s: Seq<FileWordCountView>, x: FileWordCountView, idx: int)
    requires
        0 <= idx <= s.len(),
        forall|j: int| 0 <= j < idx ==> s[j].words >= x.words,
        idx < s.len() ==> s[idx].words < x.words,
    ensures
        insert_by_words(s, x) == s.insert(idx, x),
    decreases idx,
{
    if idx == 0 {
        assert(insert_by_words(s, x) =~= s.insert(0, x));
    } else {
        lemma_insert_by_words_at(s.drop_first(), x, idx - 1);
        assert(insert_by_words(s, x) == seq![s[0]] + s.drop_first().insert(idx - 1, x));
        assert(seq![s[0]] + s.drop_first().insert(idx - 1, x) =~= s.insert(idx, x));
    }
}

/// Inserts `x` into the descending vector `r`, after the entries whose count
/// is at least `x`'s.
fn insert_sorted(r: &mut Vec<FileWordCount>, x: FileWordCount)
    ensures
        fwc_views(final(r)@) == insert_by_words(fwc_views(old(r)@), x@),
{
    let ghost s = fwc_views(r@);
    let mut idx: usize = 0;
    while idx < r.len() && r[idx].words >= x.words
        invariant
            idx <= r@.len(),
            s == fwc_views(r@),
            forall|j: int| 0 <= j < idx ==> s[j].words >= x@.words,
        decreases r@.len() - idx,
    {
        proof {
            assert(s[idx as int] == r@[idx as int]@);
        }
        idx = idx + 1;
    }
    proof {
        if idx < r@.len() {
            assert(s[idx as int] == r@[idx as int]@);
        }
        lemma_insert_by_words_at(s, x@, idx as int);
    }
    let ghost xv = x@;
    r.insert(idx, x);
    proof {
        assert(fwc_views(r@) =~= s.insert(idx as int, xv));
    }
}

/// The word counts of the kept files, largest first and, among equal counts,
/// in the given order. A file is dropped when `filter_out` names a tag that
/// its frontmatter carries; the kept files' whole texts are counted,
/// frontmatter included.
pub fn count_words_from(files: &Vec<FileEntry>, filter_out: Option<&str>) -> (r: Vec<
    FileWordCount,
>)
    ensures
        fwc_views(r@) == count_words_spec(
            entry_views(files@),
            match filter_out {
                Some(t) => Some(t@),
                None => None,
            },
        ),
{
    let ghost fv = entry_views(files@);
    let ghost filt: Option<Seq<char>> = match filter_out {
        Some(t) => Some(t@),
        None => None,
    };
    let mut out: Vec<FileWordCount> = Vec::new();
    let mut k: usize = 0;
    proof {
        assert(fv.take(0) =~= Seq::<FileEntryView>::empty());
        assert(fwc_views(out@) =~= sorted_by_words(counted_files(fv.take(0), filt)));
    }
    while k < files.len()
        invariant
            k <= files@.len(),
            fv == entry_views(files@),
            filt == (match filter_out {
                Some(t) => Some(t@),
                None => None,
            }),
            fwc_views(out@) == sorted_by_words(counted_files(fv.take(k as int), filt)),
        decreases files@.len() - k,
    {
        let e = &files[k];
        proof {
            assert(e@ == fv[k as int]);
            assert(fv.take(k as int + 1).drop_last() =~= fv.take(k as int));
            assert(fv.take(k as int + 1).last() == fv[k as int]);
        }
        let kept = match filter_out {
            None => true,
            Some(tag) => !contains_tag_in(e.content.as_str(), tag),
        };
        if kept {
            let cv = chars_of(e.content.as_str());
            let wc = word_count_chars(&cv);
            let item = FileWordCount { path: e.path.clone(), words: wc };
            proof {
                assert(item@ == (FileWordCountView {
                    path: fv[k as int].path,
                    words: word_count_spec(fv[k as int].content),
                }));
            }
            insert_sorted(&mut out, item);
            proof {
                let prev = counted_files(fv.take(k as int), filt);
                let elem = FileWordCountView {
                    path: fv[k as int].path,
                    words: word_count_spec(fv[k as int].content),
                };
                assert(counted_files(fv.take(k as int + 1), filt) == prev.push(elem));
                assert(prev.push(elem).drop_last() =~= prev);
                assert(prev.push(elem).last() == elem);
                assert(sorted_by_words(prev.push(elem)) == insert_by_words(
                    sorted_by_words(prev),
                    elem,
                ));
            }
        } else {
            proof {
                assert(counted_files(fv.take(k as int + 1), filt) == counted_files(
                    fv.take(k as int),
                    filt,
                ));
            }
        }
        k = k + 1;
    }
    proof {
        assert(fv.take(files@.len() as int) =~= fv);
    }
    out
}

} // verus!

//! Word-frequency rankings for one note.
//!
//! Every whitespace-separated word is cleaned — surrounding non-alphabetic
//! characters removed, then lowercased — and the cleaned words are tallied
//! and ranked by count, ties broken alphabetically. Case folding and the
//! alphabetic property are left to std behind trusted wrappers.

use vstd::pervasive::VecAdditionalExecFns;
use vstd::prelude::*;

use crate::chars::{chars_of, is_ws_char};

verus! {

/// Whether `char::is_alphabetic` holds of the character.
pub uninterp spec fn alphabetic_char(c: char) -> bool;

/// What `str::to_lowercase` yields for the characters `s`.
pub uninterp spec fn lower_of(s: Seq<char>) -> Seq<char>;

/// Relies on `char::is_alphabetic` (std): a property of the character alone,
/// named `alphabetic_char`.
#[verifier::external_body]
fn is_alphabetic_char(c: char) -> (r: bool)
    ensures
        r == alphabetic_char(c),
{
    c.is_alphabetic()
}

/// Relies on `str::to_lowercase` (std): the result depends on the characters
/// alone, and is named `lower_of`.
#[verifier::external_body]
fn lowercase_chars(s: &Vec<char>) -> (r: String)
    ensures
        r@ == lower_of(s@),
{
    let text: String = s.iter().collect();
    text.to_lowercase()
}

/// What remains of `s` after the leading non-alphabetic characters are
/// removed.
pub open spec fn trim_na_start(s: Seq<char>) -> Seq<char>
    decreases s.len(),
{
    if s.len() > 0 && !alphabetic_char(s[0]) {
        trim_na_start(s.drop_first())
    } else {
        s
    }
}

/// What remains of `s` after the trailing non-alphabetic characters are
/// removed.
pub open spec fn trim_na_end(s: Seq<char>) -> Seq<char>
    decreases s.len(),
{
    if s.len() > 0 && !alphabetic_char(s.last()) {
        trim_na_end(s.drop_last())
    } else {
        s
    }
}

/// `s` without its leading and trailing non-alphabetic characters.
pub open spec fn trim_nonalpha_spec(s: Seq<char>) -> Seq<char> {
    trim_na_end(trim_na_start(s))
}

/// A word in its cleaned form: surrounding non-alphabetic characters
/// removed, the rest lowercased.
pub open spec fn cleaned_spec(w: Seq<char>) -> Seq<char> {
    lower_of(trim_nonalpha_spec(w))
}

/// `s` without its leading and trailing non-alphabetic characters.
fn trim_nonalpha(v: &Vec<char>) -> (r: Vec<char>)
    ensures
        r@ == trim_nonalpha_spec(v@),
{
    proof {
        assert(v@.skip(0) =~= v@);
    }
    let mut start: usize = 0;
    while start < v.len() && !is_alphabetic_char(v[start])
        invariant
            start <= v@.len(),
            trim_na_start(v@) == trim_na_start(v@.skip(start as int)),
        decreases v@.len() - start,
    {
        proof {
            assert(v@.skip(start as int).drop_first() =~= v@.skip(start as int + 1));
        }
        start = start + 1;
    }
    proof {
        assert(trim_na_start(v@) == v@.skip(start as int));
    }
    let mut end: usize = v.len();
    while end > start && !is_alphabetic_char(v[end - 1])
        invariant
            start <= end <= v@.len(),
            trim_na_end(v@.skip(start as int)) == trim_na_end(
                v@.subrange(start as int, end as int),
            ),
        decreases end,
    {
        proof {
            assert(v@.subrange(start as int, end as int).drop_last() =~= v@.subrange(
                start as int,
                end as int - 1,
            ));
        }
        end = end - 1;
    }
    proof {
        assert(v@.skip(start as int) =~= v@.subrange(start as int, v@.len() as int));
        assert(trim_na_end(v@.subrange(start as int, end as int)) == v@.subrange(
            start as int,
            end as int,
        ));
    }
    crate::chars::subvec(v, start, end)
}

/// The whitespace-separated words of `s[i..]`, `cur` being the partial word
/// read so far.
pub open spec fn words_rec(s: Seq<char>, i: int, cur: Seq<char>) -> Seq<Seq<char>>
    decreases s.len() - i,
{
    if i < 0 || i >= s.len() {
        if cur.len() > 0 {
            seq![cur]
        } else {
            Seq::<Seq<char>>::empty()
        }
    } else if is_ws_char(s[i]) {
        if cur.len() > 0 {
            seq![cur] + words_rec(s, i + 1, Seq::<char>::empty())
        } else {
            words_rec(s, i + 1, Seq::<char>::empty())
        }
    } else {
        words_rec(s, i + 1, cur.push(s[i]))
    }
}

/// The whitespace-separated words of `s`, in order.
pub open spec fn words_of(s: Seq<char>) -> Seq<Seq<char>> {
    words_rec(s, 0, Seq::<char>::empty())
}

/// The whitespace-separated words of `v`, in order.
fn split_words(v: &Vec<char>) -> (r: Vec<Vec<char>>)
    ensures
        crate::chars::part_views(r@) == words_of(v@),
{
    let mut r: Vec<Vec<char>> = Vec::new();
    let mut cur: Vec<char> = Vec::new();
    let mut i: usize = 0;
    proof {
        assert(crate::chars::part_views(r@) =~= Seq::<Seq<char>>::empty());
    }
    while i < v.len()
        invariant
            i <= v@.len(),
            words_of(v@) =~= crate::chars::part_views(r@) + words_rec(v@, i as int, cur@),
        decreases v@.len() - i,
    {
        let ghost cur0 = cur@;
        if crate::chars::char_is_ws(v[i]) {
            proof {
                if cur0.len() > 0 {
                    assert(words_rec(v@, i as int, cur0) == seq![cur0] + words_rec(
                        v@,
                        i as int + 1,
                        Seq::<char>::empty(),
                    ));
                } else {
                    assert(words_rec(v@, i as int, cur0) == words_rec(
                        v@,
                        i as int + 1,
                        Seq::<char>::empty(),
                    ));
                }
            }
            if cur.len() > 0 {
                let ghost r0 = crate::chars::part_views(r@);
                let done = cur;
                cur = Vec::new();
                r.push(done);
                proof {
                    assert(crate::chars::part_views(r@) =~= r0.push(cur0));
                    assert(r0.push(cur0) + words_rec(v@, i as int + 1, cur@) =~= r0 + (seq![cur0]
                        + words_rec(v@, i as int + 1, cur@)));
                    assert(words_of(v@) =~= crate::chars::part_views(r@) + words_rec(
                        v@,
                        i as int + 1,
                        cur@,
                    ));
                }
            } else {
                proof {
                    assert(cur0 =~= Seq::<char>::empty());
                    assert(words_of(v@) =~= crate::chars::part_views(r@) + words_rec(
                        v@,
                        i as int + 1,
                        cur@,
                    ));
                }
            }
        } else {
            proof {
                assert(words_rec(v@, i as int, cur0) == words_rec(
                    v@,
                    i as int + 1,
                    cur0.push(v@[i as int]),
                ));
            }
            cur.push(v[i]);
            proof {
                assert(words_of(v@) =~= crate::chars::part_views(r@) + words_rec(
                    v@,
                    i as int + 1,
                    cur@,
                ));
            }
        }
        i = i + 1;
    }
    if cur.len() > 0 {
        let ghost r0 = crate::chars::part_views(r@);
        let ghost cv = cur@;
        r.push(cur);
        proof {
            assert(crate::chars::part_views(r@) =~= r0.push(cv));
            assert(r0.push(cv) =~= r0 + seq![cv]);
        }
    } else {
        proof {
            assert(crate::chars::part_views(r@) + Seq::<Seq<char>>::empty()
                =~= crate::chars::part_views(r@));
        }
    }
    r
}

/// The views of a tally vector.
pub open spec fn pair_views(s: Seq<(String, usize)>) -> Seq<(Seq<char>, int)> {
    Seq::new(s.len(), |i: int| (s[i].0@, s[i].1 as int))
}

/// The tally with one more occurrence of `w`: the first entry for `w` is
/// raised, or a new entry is appended.
pub open spec fn bump(t: Seq<(Seq<char>, int)>, w: Seq<char>) -> Seq<(Seq<char>, int)>
    decreases t.len(),
{
    if t.len() == 0 {
        seq![(w, 1int)]
    } else if t[0].0 == w {
        seq![(t[0].0, t[0].1 + 1)] + t.drop_first()
    } else {
        seq![t[0]] + bump(t.drop_first(), w)
    }
}

/// The tally after the words from `k` on are counted: every cleaned word
/// that is not empty bumps its entry, entries appearing in first-occurrence
/// order.
pub open spec fn tally_rec(ws: Seq<Seq<char>>, k: int, acc: Seq<(Seq<char>, int)>) -> Seq<
    (Seq<char>, int),
>
    decreases ws.len() - k,
{
    if k < 0 || k >= ws.len() {
        acc
    } else {
        let c = cleaned_spec(ws[k]);
        tally_rec(
            ws,
            k + 1,
            if c.len() == 0 {
                acc
            } else {
                bump(acc, c)
            },
        )
    }
}

/// The word-frequency tally of a note: each distinct cleaned word with the
/// number of its occurrences, in first-occurrence order.
pub open spec fn tally_of(content: Seq<char>) -> Seq<(Seq<char>, int)> {
    tally_rec(words_of(content), 0, Seq::<(Seq<char>, int)>::empty())
}

proof fn lemma_bump_at(t: Seq<(Seq<char>, int)>, w: Seq<char>, m: int)
    requires
        0 <= m < t.len(),
        t[m].0 == w,
        forall|j: int| 0 <= j < m ==> (#[trigger] t[j]).0 != w,
    ensures
        bump(t, w) == t.update(m, (w, t[m].1 + 1)),
    decreases m,
{
    if m == 0 {
        assert(bump(t, w) =~= t.update(0, (w, t[0].1 + 1)));
    } else {
        assert(t.drop_first()[m - 1] == t[m]);
        assert forall|j: int| 0 <= j < m - 1 implies (#[trigger] t.drop_first()[j]).0 != w by {
            assert(t.drop_first()[j] == t[j + 1]);
        }
        lemma_bump_at(t.drop_first(), w, m - 1);
        assert(seq![t[0]] + t.drop_first().update(m - 1, (w, t[m].1 + 1)) =~= t.update(
            m,
            (w, t[m].1 + 1),
        ));
    }
}

proof fn lemma_bump_absent(t: Seq<(Seq<char>, int)>, w: Seq<char>)
    requires
        forall|j: int| 0 <= j < t.len() ==> (#[trigger] t[j]).0 != w,
    ensures
        bump(t, w) == t.push((w, 1int)),
    decreases t.len(),
{
    if t.len() == 0 {
        assert(bump(t, w) =~= t.push((w, 1int)));
    } else {
        assert forall|j: int| 0 <= j < t.drop_first().len() implies (#[trigger] t.drop_first()[
            j
        ]).0 != w by {
            assert(t.drop_first()[j] == t[j + 1]);
        }
        lemma_bump_absent(t.drop_first(), w);
        assert(seq![t[0]] + t.drop_first().push((w, 1int)) =~= t.push((w, 1int)));
    }
}

/// The index of the first tally entry for `key`, if any.
fn find_key(acc: &Vec<(String, usize)>, key: &String) -> (r: Option<usize>)
    ensures
        r matches Some(m) ==> m < acc@.len() && pair_views(acc@)[m as int].0 == key@ && (
        forall|j: int| 0 <= j < m ==> (#[trigger] pair_views(acc@)[j]).0 != key@),
        r is None ==> forall|j: int|
            0 <= j < acc@.len() ==> (#[trigger] pair_views(acc@)[j]).0 != key@,
{
    let mut m: usize = 0;
    while m < acc.len()
        invariant
            m <= acc@.len(),
            forall|j: int| 0 <= j < m ==> (#[trigger] pair_views(acc@)[j]).0 != key@,
        decreases acc@.len() - m,
    {
        if acc[m].0 == *key {
            proof {
                assert(pair_views(acc@)[m as int].0 == key@);
            }
            return Some(m);
        }
        proof {
            assert(pair_views(acc@)[m as int].0 != key@);
        }
        m = m + 1;
    }
    None
}

/// The word-frequency tally of a note: each distinct cleaned word (at least
/// one alphabetic character) with its number of occurrences, in
/// first-occurrence order.
pub fn word_frequency_tally(content: &str) -> (r: Vec<(String, usize)>)
    ensures
        pair_views(r@) == tally_of(content@),
{
    let cv = chars_of(content);
    let ws = split_words(&cv);
    let ghost wsv = crate::chars::part_views(ws@);
    let mut acc: Vec<(String, usize)> = Vec::new();
    let mut k: usize = 0;
    proof {
        assert(pair_views(acc@) =~= Seq::<(Seq<char>, int)>::empty());
    }
    while k < ws.len()
        invariant
            k <= ws@.len(),
            wsv == crate::chars::part_views(ws@),
            tally_of(content@) == tally_rec(wsv, k as int, pair_views(acc@)),
            forall|m: int| 0 <= m < acc@.len() ==> 0 < (#[trigger] pair_views(acc@)[m]).1 <= k,
        decreases ws@.len() - k,
    {
        let ghost a0 = pair_views(acc@);
        proof {
            assert(wsv[k as int] == ws@[k as int]@);
        }
        let word = trim_nonalpha(&ws[k]);
        let cleaned = lowercase_chars(&word);
        proof {
            assert(cleaned@ == cleaned_spec(wsv[k as int]));
        }
        if cleaned.unicode_len() > 0 {
            match find_key(&acc, &cleaned) {
                Some(m) => {
                    proof {
                        lemma_bump_at(a0, cleaned@, m as int);
                    }
                    let key = acc[m].0.clone();
                    let count = acc[m].1;
                    acc.set(m, (key, count + 1));
                    proof {
                        assert(pair_views(acc@) =~= a0.update(
                            m as int,
                            (cleaned@, a0[m as int].1 + 1),
                        ));
                    }
                },
                None => {
                    proof {
                        lemma_bump_absent(a0, cleaned@);
                    }
                    acc.push((cleaned, 1));
                    proof {
                        assert(pair_views(acc@) =~= a0.push((cleaned@, 1int)));
                    }
                },
            }
        }
        k = k + 1;
    }
    proof {
        assert(tally_rec(wsv, ws@.len() as int, pair_views(acc@)) == pair_views(acc@));
    }
    acc
}

/// Whether `a` comes strictly before `b` in code-point lexicographic order.
pub open spec fn lex_lt(a: Seq<char>, b: Seq<char>) -> bool
    decreases a.len(),
{
    if b.len() == 0 {
        false
    } else if a.len() == 0 {
        true
    } else if a[0] != b[0] {
        (a[0] as u32) < (b[0] as u32)
    } else {
        lex_lt(a.drop_first(), b.drop_first())
    }
}

/// Whether `a` comes strictly before `b` in code-point lexicographic order.
fn lex_lt_chars(a: &Vec<char>, b: &Vec<char>) -> (r: bool)
    ensures
        r == lex_lt(a@, b@),
{
    proof {
        assert(a@.skip(0) =~= a@);
        assert(b@.skip(0) =~= b@);
    }
    let mut i: usize = 0;
    while i < a.len() && i < b.len()
        invariant
            i <= a@.len(),
            i <= b@.len(),
            lex_lt(a@, b@) == lex_lt(a@.skip(i as int), b@.skip(i as int)),
            forall|j: int| 0 <= j < i ==> a@[j] == b@[j],
        decreases a@.len() - i,
    {
        let ghost at = a@.skip(i as int);
        let ghost bt = b@.skip(i as int);
        proof {
            assert(at[0] == a@[i as int]);
            assert(bt[0] == b@[i as int]);
            assert(at.drop_first() =~= a@.skip(i as int + 1));
            assert(bt.drop_first() =~= b@.skip(i as int + 1));
        }
        if a[i] != b[i] {
            return (a[i] as u32) < (b[i] as u32);
        }
        i = i + 1;
    }
    proof {
        if i == a@.len() {
            assert(a@.skip(i as int) =~= Seq::<char>::empty());
        }
        if i == b@.len() {
            assert(b@.skip(i as int) =~= Seq::<char>::empty());
        }
    }
    i < b.len()
}

/// Whether tally entry `a` ranks strictly before `b`: a larger count first,
/// and among equal counts the alphabetically earlier word.
pub open spec fn ranks_before(a: (Seq<char>, int), b: (Seq<char>, int)) -> bool {
    a.1 > b.1 || (a.1 == b.1 && lex_lt(a.0, b.0))
}

/// `x` inserted into `s` after every entry that ranks before it.
pub open spec fn rank_insert(s: Seq<(Seq<char>, int)>, x: (Seq<char>, int)) -> Seq<
    (Seq<char>, int),
>
    decreases s.len(),
{
    if s.len() > 0 && ranks_before(s[0], x) {
        seq![s[0]] + rank_insert(s.drop_first(), x)
    } else {
        seq![x] + s
    }
}

/// `s` sorted by rank: larger counts first, ties alphabetically.
pub open spec fn rank_sorted(s: Seq<(Seq<char>, int)>) -> Seq<(Seq<char>, int)>
    decreases s.len(),
{
    if s.len() == 0 {
        s
    } else {
        rank_insert(rank_sorted(s.drop_last()), s.last())
    }
}

/// The word-frequency ranking of a note: its tally ordered by falling count,
/// ties broken alphabetically.
pub open spec fn rankings_of(content: Seq<char>) -> Seq<(Seq<char>, int)> {
    rank_sorted(tally_of(content))
}

proof fn lemma_rank_insert_at(s: Seq<(Seq<char>, int)>, x: (Seq<char>, int), idx: int)
    requires
        0 <= idx <= s.len(),
        forall|j: int| 0 <= j < idx ==> ranks_before(#[trigger] s[j], x),
        idx < s.len() ==> !ranks_before(s[idx], x),
    ensures
        rank_insert(s, x) == s.insert(idx, x),
    decreases idx,
{
    if idx == 0 {
        assert(rank_insert(s, x) =~= s.insert(0, x));
    } else {
        assert(ranks_before(s[0], x));
        assert forall|j: int| 0 <= j < idx - 1 implies ranks_before(
            #[trigger] s.drop_first()[j],
            x,
        ) by {
            assert(s.drop_first()[j] == s[j + 1]);
        }
        assert(idx - 1 < s.drop_first().len() ==> s.drop_first()[idx - 1] == s[idx]);
        lemma_rank_insert_at(s.drop_first(), x, idx - 1);
        assert(seq![s[0]] + s.drop_first().insert(idx - 1, x) =~= s.insert(idx, x));
    }
}

/// Whether the tally entry ranks strictly before one with word `xc` and
/// count `xcount`.
fn pair_before(a: &(String, usize), xc: &Vec<char>, xcount: usize) -> (r: bool)
    ensures
        r == ranks_before((a.0@, a.1 as int), (xc@, xcount as int)),
{
    if a.1 > xcount {
        return true;
    }
    if a.1 != xcount {
        return false;
    }
    let ac = chars_of(a.0.as_str());
    lex_lt_chars(&ac, xc)
}

/// Inserts the entry into the ranked vector, after the entries that rank
/// before it.
fn rank_insert_exec(r: &mut Vec<(String, usize)>, x: (String, usize))
    ensures
        pair_views(final(r)@) == rank_insert(pair_views(old(r)@), (x.0@, x.1 as int)),
{
    let ghost s = pair_views(r@);
    let ghost xv = (x.0@, x.1 as int);
    let xc = chars_of(x.0.as_str());
    let mut idx: usize = 0;
    while idx < r.len() && pair_before(&r[idx], &xc, x.1)
        invariant
            idx <= r@.len(),
            s == pair_views(r@),
            xv == (x.0@, x.1 as int),
            xc@ == x.0@,
            forall|j: int| 0 <= j < idx ==> ranks_before(#[trigger] s[j], xv),
        decreases r@.len() - idx,
    {
        proof {
            assert(s[idx as int] == (r@[idx as int].0@, r@[idx as int].1 as int));
            assert(ranks_before(s[idx as int], xv));
        }
        idx = idx + 1;
    }
    proof {
        if idx < r@.len() {
            assert(s[idx as int] == (r@[idx as int].0@, r@[idx as int].1 as int));
            assert(!ranks_before(s[idx as int], xv));
        }
        lemma_rank_insert_at(s, xv, idx as int);
    }
    r.insert(idx, x);
    proof {
        assert(pair_views(r@) =~= s.insert(idx as int, xv));
    }
}

/// The word-frequency ranking of a note: each distinct cleaned word with its
/// number of occurrences, the most frequent first and equal counts ordered
/// alphabetically.
pub fn word_frequency_rankings(content: &str) -> (r: Vec<(String, usize)>)
    ensures
        pair_views(r@) == rankings_of(content@),
{
    let tally = word_frequency_tally(content);
    let ghost tv = pair_views(tally@);
    let mut out: Vec<(String, usize)> = Vec::new();
    let mut k: usize = 0;
    proof {
        assert(tv.take(0) =~= Seq::<(Seq<char>, int)>::empty());
        assert(pair_views(out@) =~= rank_sorted(tv.take(0)));
    }
    while k < tally.len()
        invariant
            k <= tally@.len(),
            tv == pair_views(tally@),
            pair_views(out@) == rank_sorted(tv.take(k as int)),
        decreases tally@.len() - k,
    {
        proof {
            assert(tv[k as int] == (tally@[k as int].0@, tally@[k as int].1 as int));
            assert(tv.take(k as int + 1).drop_last() =~= tv.take(k as int));
            assert(tv.take(k as int + 1).last() == tv[k as int]);
        }
        let key = tally[k].0.clone();
        let count = tally[k].1;
        rank_insert_exec(&mut out, (key, count));
        k = k + 1;
    }
    proof {
        assert(tv.take(tally@.len() as int) =~= tv);
    }
    out
}

} // verus!

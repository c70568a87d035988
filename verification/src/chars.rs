//! Character-level utilities shared by the pattern engine and the scanners.
//!
//! All executable code here works on `Vec<char>` buffers; the contracts speak
//! about the corresponding `Seq<char>` views.

use vstd::prelude::*;

verus! {

/// The characters that Rust's `char::is_whitespace` reports as whitespace
/// (the Unicode `White_Space` property).
pub open spec fn is_ws_char(c: char) -> bool {
    ||| c == ' '
    ||| c == '\t'
    ||| c == '\n'
    ||| c == '\u{0B}'
    ||| c == '\u{0C}'
    ||| c == '\r'
    ||| c == '\u{85}'
    ||| c == '\u{A0}'
    ||| c == '\u{1680}'
    ||| ('\u{2000}' <= c && c <= '\u{200A}')
    ||| c == '\u{2028}'
    ||| c == '\u{2029}'
    ||| c == '\u{202F}'
    ||| c == '\u{205F}'
    ||| c == '\u{3000}'
}

/// Executable test for `is_ws_char`.
pub fn char_is_ws(c: char) -> (r: bool)
    ensures
        r == is_ws_char(c),
{
    c == ' ' || c == '\t' || c == '\n' || c == '\u{0B}' || c == '\u{0C}' || c == '\r'
        || c == '\u{85}' || c == '\u{A0}' || c == '\u{1680}'
        || ('\u{2000}' <= c && c <= '\u{200A}') || c == '\u{2028}' || c == '\u{2029}'
        || c == '\u{202F}' || c == '\u{205F}' || c == '\u{3000}'
}

/// What remains of `s` after the leading whitespace is removed.
pub open spec fn trim_start_spec(s: Seq<char>) -> Seq<char>
    decreases s.len(),
{
    if s.len() > 0 && is_ws_char(s[0]) {
        trim_start_spec(s.drop_first())
    } else {
        s
    }
}

/// What remains of `s` after the trailing whitespace is removed.
pub open spec fn trim_end_spec(s: Seq<char>) -> Seq<char>
    decreases s.len(),
{
    if s.len() > 0 && is_ws_char(s.last()) {
        trim_end_spec(s.drop_last())
    } else {
        s
    }
}

/// What remains of `s` after leading and trailing whitespace is removed.
pub open spec fn trim_spec(s: Seq<char>) -> Seq<char> {
    trim_end_spec(trim_start_spec(s))
}

/// The index of the first occurrence of `c` in `s`, or -1 when `c` does not occur.
pub open spec fn find_char_spec(s: Seq<char>, c: char) -> int
    decreases s.len(),
{
    if s.len() == 0 {
        -1
    } else if s[0] == c {
        0
    } else {
        let r = find_char_spec(s.drop_first(), c);
        if r < 0 {
            -1
        } else {
            r + 1
        }
    }
}

pub proof fn lemma_find_char_spec(s: Seq<char>, c: char)
    ensures
        -1 <= find_char_spec(s, c) < s.len(),
        find_char_spec(s, c) >= 0 ==> s[find_char_spec(s, c)] == c,
        find_char_spec(s, c) >= 0 ==> forall|j: int| 0 <= j < find_char_spec(s, c) ==> s[j] != c,
        find_char_spec(s, c) == -1 ==> forall|j: int| 0 <= j < s.len() ==> s[j] != c,
        find_char_spec(s, c) >= 0 <==> s.contains(c),
    decreases s.len(),
{
    if s.len() > 0 && s[0] != c {
        lemma_find_char_spec(s.drop_first(), c);
        let r = find_char_spec(s.drop_first(), c);
        if r >= 0 {
            assert(s[r + 1] == s.drop_first()[r]);
            assert forall|j: int| 0 <= j < r + 1 implies s[j] != c by {
                if j > 0 {
                    assert(s[j] == s.drop_first()[j - 1]);
                }
            }
        } else {
            assert forall|j: int| 0 <= j < s.len() implies s[j] != c by {
                if j > 0 {
                    assert(s[j] == s.drop_first()[j - 1]);
                }
            }
        }
        if s.contains(c) {
            let w = choose|w: int| 0 <= w < s.len() && s[w] == c;
            assert(s.drop_first()[w - 1] == c);
            assert(s.drop_first().contains(c));
        }
    }
}

/// The parts of `s` between occurrences of the separator `c`.
///
/// There is always at least one part; splitting the empty sequence
/// gives one empty part, as `str::split` does.
pub open spec fn split_char_spec(s: Seq<char>, c: char) -> Seq<Seq<char>>
    decreases s.len(),
{
    if s.len() == 0 {
        seq![Seq::<char>::empty()]
    } else if s[0] == c {
        seq![Seq::<char>::empty()] + split_char_spec(s.drop_first(), c)
    } else {
        let rest = split_char_spec(s.drop_first(), c);
        seq![seq![s[0]] + rest[0]] + rest.drop_first()
    }
}

pub proof fn lemma_split_char_len(s: Seq<char>, c: char)
    ensures
        split_char_spec(s, c).len() >= 1,
    decreases s.len(),
{
    if s.len() > 0 {
        lemma_split_char_len(s.drop_first(), c);
    }
}

/// The parts joined back together with the separator `c` between them.
pub open spec fn join_char_spec(parts: Seq<Seq<char>>, c: char) -> Seq<char>
    decreases parts.len(),
{
    if parts.len() == 0 {
        Seq::<char>::empty()
    } else if parts.len() == 1 {
        parts[0]
    } else {
        parts[0] + seq![c] + join_char_spec(parts.drop_first(), c)
    }
}

/// Whether `sub` occurs anywhere in `s`.
pub open spec fn contains_sub(s: Seq<char>, sub: Seq<char>) -> bool {
    exists|i: int| 0 <= i && i + sub.len() <= s.len() && #[trigger] s.subrange(i, i + sub.len())
        == sub
}

/// The character sequences held by a vector of strings.
pub open spec fn string_views(s: Seq<String>) -> Seq<Seq<char>> {
    Seq::new(s.len(), |i: int| s[i]@)
}

/// `p` without a single trailing carriage return, if it has one.
pub open spec fn strip_cr_spec(p: Seq<char>) -> Seq<char> {
    if p.len() > 0 && p.last() == '\r' {
        p.drop_last()
    } else {
        p
    }
}

/// The lines of `s`, as `str::lines` yields them: split at `\n`, a trailing
/// `\r` removed from every line that a `\n` terminated, and no final empty
/// line for a trailing newline.
pub open spec fn lines_spec(s: Seq<char>) -> Seq<Seq<char>> {
    if s.len() == 0 {
        Seq::<Seq<char>>::empty()
    } else {
        let parts = split_char_spec(s, '\n');
        let kept = if s.last() == '\n' {
            parts.drop_last()
        } else {
            parts
        };
        Seq::new(
            kept.len(),
            |i: int|
                if i < kept.len() - 1 || s.last() == '\n' {
                    strip_cr_spec(kept[i])
                } else {
                    kept[i]
                },
        )
    }
}

/// `s` with every non-overlapping occurrence of `pat` replaced by `rep`,
/// scanning from the left, as `str::replace` does.
pub open spec fn replace_spec(s: Seq<char>, pat: Seq<char>, rep: Seq<char>) -> Seq<char>
    decreases s.len(),
{
    if pat.len() == 0 || s.len() < pat.len() {
        s
    } else if s.take(pat.len() as int) == pat {
        rep + replace_spec(s.skip(pat.len() as int), pat, rep)
    } else {
        seq![s[0]] + replace_spec(s.drop_first(), pat, rep)
    }
}

/// The characters of a string slice, as a vector.
pub fn chars_of(s: &str) -> (r: Vec<char>)
    ensures
        r@ == s@,
{
    let n = s.unicode_len();
    let mut r: Vec<char> = Vec::new();
    let mut i: usize = 0;
    while i < n
        invariant
            i <= n,
            n == s@.len(),
            r@ == s@.take(i as int),
        decreases n - i,
    {
        r.push(s.get_char(i));
        i = i + 1;
        proof {
            assert(r@ =~= s@.take(i as int));
        }
    }
    proof {
        assert(r@ =~= s@);
    }
    r
}

/// Whether `c` occurs in `v`.
pub fn contains_char(v: &Vec<char>, c: char) -> (r: bool)
    ensures
        r == v@.contains(c),
{
    let mut i: usize = 0;
    while i < v.len()
        invariant
            i <= v@.len(),
            forall|j: int| 0 <= j < i ==> v@[j] != c,
        decreases v@.len() - i,
    {
        if v[i] == c {
            return true;
        }
        i = i + 1;
    }
    false
}

/// The index of the first occurrence of `c` in `v`, if any.
pub fn find_char(v: &Vec<char>, c: char) -> (r: Option<usize>)
    ensures
        r matches Some(i) ==> i == find_char_spec(v@, c),
        r is None ==> find_char_spec(v@, c) == -1,
{
    proof {
        lemma_find_char_spec(v@, c);
    }
    let mut i: usize = 0;
    while i < v.len()
        invariant
            i <= v@.len(),
            forall|j: int| 0 <= j < i ==> v@[j] != c,
            -1 <= find_char_spec(v@, c) < v@.len(),
            find_char_spec(v@, c) >= 0 ==> v@[find_char_spec(v@, c)] == c,
            find_char_spec(v@, c) >= 0 ==> forall|j: int|
                0 <= j < find_char_spec(v@, c) ==> v@[j] != c,
            find_char_spec(v@, c) == -1 ==> forall|j: int| 0 <= j < v@.len() ==> v@[j] != c,
        decreases v@.len() - i,
    {
        if v[i] == c {
            return Some(i);
        }
        i = i + 1;
    }
    None
}

/// Whether the two vectors hold the same characters.
pub fn eq_chars(a: &Vec<char>, b: &Vec<char>) -> (r: bool)
    ensures
        r == (a@ == b@),
{
    if a.len() != b.len() {
        return false;
    }
    let mut i: usize = 0;
    while i < a.len()
        invariant
            i <= a@.len(),
            a@.len() == b@.len(),
            forall|j: int| 0 <= j < i ==> a@[j] == b@[j],
        decreases a@.len() - i,
    {
        if a[i] != b[i] {
            return false;
        }
        i = i + 1;
    }
    proof {
        assert(a@ =~= b@);
    }
    true
}

/// The characters of `v` from `from` (inclusive) to `to` (exclusive).
pub fn subvec(v: &Vec<char>, from: usize, to: usize) -> (r: Vec<char>)
    requires
        from <= to <= v@.len(),
    ensures
        r@ == v@.subrange(from as int, to as int),
{
    let mut r: Vec<char> = Vec::new();
    let mut i: usize = from;
    while i < to
        invariant
            from <= i <= to <= v@.len(),
            r@ == v@.subrange(from as int, i as int),
        decreases to - i,
    {
        r.push(v[i]);
        i = i + 1;
        proof {
            assert(r@ =~= v@.subrange(from as int, i as int));
        }
    }
    r
}

/// Appends all characters of `src` to `dst`.
pub fn push_all(dst: &mut Vec<char>, src: &Vec<char>)
    ensures
        final(dst)@ == old(dst)@ + src@,
{
    let mut i: usize = 0;
    while i < src.len()
        invariant
            i <= src@.len(),
            dst@ == old(dst)@ + src@.take(i as int),
        decreases src@.len() - i,
    {
        dst.push(src[i]);
        i = i + 1;
        proof {
            assert(dst@ =~= old(dst)@ + src@.take(i as int));
        }
    }
    proof {
        assert(dst@ =~= old(dst)@ + src@);
    }
}

/// `v` without its leading and trailing whitespace.
pub fn trim(v: &Vec<char>) -> (r: Vec<char>)
    ensures
        r@ == trim_spec(v@),
{
    proof {
        assert(v@.skip(0) =~= v@);
    }
    let mut start: usize = 0;
    while start < v.len() && char_is_ws(v[start])
        invariant
            start <= v@.len(),
            trim_start_spec(v@) == trim_start_spec(v@.skip(start as int)),
        decreases v@.len() - start,
    {
        proof {
            assert(v@.skip(start as int).drop_first() =~= v@.skip(start as int + 1));
        }
        start = start + 1;
    }
    proof {
        assert(trim_start_spec(v@) == v@.skip(start as int));
    }
    let mut end: usize = v.len();
    while end > start && char_is_ws(v[end - 1])
        invariant
            start <= end <= v@.len(),
            trim_end_spec(v@.skip(start as int)) == trim_end_spec(
                v@.subrange(start as int, end as int),
            ),
        decreases end,
    {
        proof {
            assert(v@.subrange(start as int, end as int).drop_last() =~= v@.subrange(
                start as int,
                end as int - 1,
            ));
        }
        end = end - 1;
    }
    proof {
        assert(v@.skip(start as int) =~= v@.subrange(start as int, v@.len() as int));
        assert(trim_end_spec(v@.subrange(start as int, end as int)) == v@.subrange(
            start as int,
            end as int,
        ));
    }
    subvec(v, start, end)
}

/// The character sequences held by a vector of character vectors.
pub open spec fn part_views(s: Seq<Vec<char>>) -> Seq<Seq<char>> {
    Seq::new(s.len(), |i: int| s[i]@)
}

/// `parts` with its first part extended on the left by `p`.
spec fn with_first_extended(p: Seq<char>, parts: Seq<Seq<char>>) -> Seq<Seq<char>> {
    seq![p + parts[0]] + parts.drop_first()
}

/// The parts of `v` between occurrences of the separator `c`.
pub fn split_on(v: &Vec<char>, c: char) -> (r: Vec<Vec<char>>)
    ensures
        part_views(r@) == split_char_spec(v@, c),
{
    let mut r: Vec<Vec<char>> = Vec::new();
    let mut cur: Vec<char> = Vec::new();
    let mut i: usize = 0;
    proof {
        assert(v@.skip(0) =~= v@);
        lemma_split_char_len(v@, c);
        assert(with_first_extended(cur@, split_char_spec(v@, c)) =~= split_char_spec(v@, c));
        assert(part_views(r@) =~= Seq::<Seq<char>>::empty());
    }
    while i < v.len()
        invariant
            i <= v@.len(),
            split_char_spec(v@, c) =~= part_views(r@) + with_first_extended(
                cur@,
                split_char_spec(v@.skip(i as int), c),
            ),
        decreases v@.len() - i,
    {
        let ghost tail = v@.skip(i as int);
        proof {
            assert(tail.len() > 0);
            assert(tail[0] == v@[i as int]);
            assert(tail.drop_first() =~= v@.skip(i as int + 1));
            lemma_split_char_len(v@.skip(i as int + 1), c);
        }
        if v[i] == c {
            let ghost r0 = part_views(r@);
            let ghost doneview = cur@;
            let done = cur;
            cur = Vec::new();
            r.push(done);
            proof {
                assert(part_views(r@) =~= r0.push(doneview));
                assert(split_char_spec(tail, c) =~= seq![Seq::<char>::empty()]
                    + split_char_spec(v@.skip(i as int + 1), c));
                assert(with_first_extended(doneview, split_char_spec(tail, c)) =~= seq![doneview]
                    + split_char_spec(v@.skip(i as int + 1), c));
                assert(with_first_extended(
                    cur@,
                    split_char_spec(v@.skip(i as int + 1), c),
                ) =~= split_char_spec(v@.skip(i as int + 1), c));
                assert(split_char_spec(v@, c) =~= part_views(r@) + with_first_extended(
                    cur@,
                    split_char_spec(v@.skip(i as int + 1), c),
                ));
            }
        } else {
            let ghost cur0 = cur@;
            cur.push(v[i]);
            proof {
                let rest = split_char_spec(v@.skip(i as int + 1), c);
                assert(split_char_spec(tail, c) =~= seq![seq![v@[i as int]] + rest[0]]
                    + rest.drop_first());
                assert(cur0 + (seq![v@[i as int]] + rest[0]) =~= cur@ + rest[0]);
                assert(with_first_extended(cur0, split_char_spec(tail, c))
                    =~= with_first_extended(cur@, rest));
                assert(split_char_spec(v@, c) =~= part_views(r@) + with_first_extended(cur@, rest));
            }
        }
        i = i + 1;
    }
    let ghost r0 = part_views(r@);
    let ghost curview = cur@;
    proof {
        assert(v@.skip(v@.len() as int) =~= Seq::<char>::empty());
        assert(split_char_spec(v@.skip(i as int), c) =~= seq![Seq::<char>::empty()]);
        assert(with_first_extended(cur@, split_char_spec(v@.skip(i as int), c)) =~= seq![cur@]);
    }
    r.push(cur);
    proof {
        assert(part_views(r@) =~= r0.push(curview));
        assert(part_views(r@) =~= split_char_spec(v@, c));
    }
    r
}

proof fn lemma_join_push(parts: Seq<Seq<char>>, p: Seq<char>, c: char)
    ensures
        parts.len() == 0 ==> join_char_spec(parts.push(p), c) == p,
        parts.len() > 0 ==> join_char_spec(parts.push(p), c) == join_char_spec(parts, c) + seq![c]
            + p,
    decreases parts.len(),
{
    if parts.len() == 0 {
        assert(join_char_spec(parts.push(p), c) == parts.push(p)[0]);
    } else if parts.len() == 1 {
        assert(parts.push(p).drop_first() =~= seq![p]);
        assert(join_char_spec(seq![p], c) == p);
        assert(join_char_spec(parts.push(p), c) == parts.push(p)[0] + seq![c] + join_char_spec(
            parts.push(p).drop_first(),
            c,
        ));
        assert(join_char_spec(parts.push(p), c) == parts[0] + seq![c] + p);
    } else {
        lemma_join_push(parts.drop_first(), p, c);
        assert(parts.push(p).drop_first() =~= parts.drop_first().push(p));
        assert(join_char_spec(parts.push(p), c) == parts[0] + seq![c] + join_char_spec(
            parts.drop_first().push(p),
            c,
        ));
        assert(parts[0] + seq![c] + (join_char_spec(parts.drop_first(), c) + seq![c] + p) =~= (
        parts[0] + seq![c] + join_char_spec(parts.drop_first(), c)) + seq![c] + p);
    }
}

/// The parts joined with the separator `c` between them.
pub fn join_with(parts: &Vec<Vec<char>>, c: char) -> (r: Vec<char>)
    ensures
        r@ == join_char_spec(part_views(parts@), c),
{
    let mut r: Vec<char> = Vec::new();
    let mut k: usize = 0;
    proof {
        assert(part_views(parts@).take(0) =~= Seq::<Seq<char>>::empty());
    }
    while k < parts.len()
        invariant
            k <= parts@.len(),
            r@ == join_char_spec(part_views(parts@).take(k as int), c),
        decreases parts@.len() - k,
    {
        let ghost pre = part_views(parts@).take(k as int);
        proof {
            lemma_join_push(pre, part_views(parts@)[k as int], c);
            assert(part_views(parts@).take(k as int + 1) =~= pre.push(
                part_views(parts@)[k as int],
            ));
        }
        if k > 0 {
            r.push(c);
        }
        push_all(&mut r, &parts[k]);
        k = k + 1;
    }
    proof {
        assert(part_views(parts@).take(parts@.len() as int) =~= part_views(parts@));
    }
    r
}

/// Whether `pat` occurs in `v` starting at index `i`.
pub fn occurs_at(v: &Vec<char>, i: usize, pat: &Vec<char>) -> (r: bool)
    requires
        i <= v@.len(),
    ensures
        r == (i + pat@.len() <= v@.len() && v@.subrange(i as int, i + pat@.len()) == pat@),
{
    if pat.len() > v.len() - i {
        return false;
    }
    let n = v.len();
    let mut j: usize = 0;
    while j < pat.len()
        invariant
            j <= pat@.len(),
            n == v@.len(),
            i + pat@.len() <= n,
            forall|m: int| 0 <= m < j ==> v@[i + m] == pat@[m],
        decreases pat@.len() - j,
    {
        if v[i + j] != pat[j] {
            return false;
        }
        j = j + 1;
    }
    proof {
        assert(v@.subrange(i as int, i + pat@.len()) =~= pat@);
    }
    true
}

/// `v` with every non-overlapping occurrence of `pat` replaced by `rep`,
/// scanning from the left.
pub fn replace_all(v: &Vec<char>, pat: &Vec<char>, rep: &Vec<char>) -> (r: Vec<char>)
    requires
        pat@.len() > 0,
    ensures
        r@ == replace_spec(v@, pat@, rep@),
{
    let mut r: Vec<char> = Vec::new();
    let mut i: usize = 0;
    proof {
        assert(v@.skip(0) =~= v@);
    }
    while i < v.len()
        invariant
            i <= v@.len(),
            pat@.len() > 0,
            replace_spec(v@, pat@, rep@) == r@ + replace_spec(v@.skip(i as int), pat@, rep@),
        decreases v@.len() - i,
    {
        let ghost tail = v@.skip(i as int);
        if occurs_at(v, i, pat) {
            proof {
                assert(tail.take(pat@.len() as int) =~= v@.subrange(i as int, i + pat@.len()));
                assert(tail.skip(pat@.len() as int) =~= v@.skip(i + pat@.len()));
                assert(replace_spec(tail, pat@, rep@) == rep@ + replace_spec(
                    v@.skip(i + pat@.len()),
                    pat@,
                    rep@,
                ));
            }
            push_all(&mut r, rep);
            i = i + pat.len();
            proof {
                assert(replace_spec(v@, pat@, rep@) == r@ + replace_spec(
                    v@.skip(i as int),
                    pat@,
                    rep@,
                ));
            }
        } else {
            proof {
                if tail.len() >= pat@.len() {
                    assert(tail.take(pat@.len() as int) =~= v@.subrange(
                        i as int,
                        i + pat@.len(),
                    ));
                }
                assert(tail.drop_first() =~= v@.skip(i as int + 1));
                assert(replace_spec(tail, pat@, rep@) == seq![v@[i as int]] + replace_spec(
                    v@.skip(i as int + 1),
                    pat@,
                    rep@,
                ));
            }
            let ghost r0 = r@;
            r.push(v[i]);
            proof {
                assert(r@ =~= r0 + seq![v@[i as int]]);
            }
            i = i + 1;
        }
    }
    proof {
        assert(v@.skip(v@.len() as int) =~= Seq::<char>::empty());
    }
    r
}

/// Whether `pat` occurs anywhere in `v`.
pub fn find_sub(v: &Vec<char>, pat: &Vec<char>) -> (r: bool)
    ensures
        r == contains_sub(v@, pat@),
{
    if pat.len() == 0 {
        proof {
            assert(v@.subrange(0, 0 + pat@.len() as int) =~= pat@);
            assert(contains_sub(v@, pat@));
        }
        return true;
    }
    let mut i: usize = 0;
    while i < v.len()
        invariant
            i <= v@.len(),
            pat@.len() >= 1,
            forall|j: int|
                0 <= j < i && j + pat@.len() <= v@.len() ==> #[trigger] v@.subrange(
                    j,
                    j + pat@.len(),
                ) != pat@,
        decreases v@.len() - i,
    {
        if occurs_at(v, i, pat) {
            return true;
        }
        i = i + 1;
    }
    proof {
        if contains_sub(v@, pat@) {
            let w = choose|w: int|
                0 <= w && w + pat@.len() <= v@.len() && #[trigger] v@.subrange(
                    w,
                    w + pat@.len(),
                ) == pat@;
            assert(v@.subrange(w, w + pat@.len()) != pat@);
        }
    }
    false
}

proof fn lemma_split_trailing_sep(s: Seq<char>, c: char)
    requires
        s.len() > 0,
        s.last() == c,
    ensures
        split_char_spec(s, c).len() >= 2,
    decreases s.len(),
{
    lemma_split_char_len(s.drop_first(), c);
    if s.len() > 1 {
        assert(s.drop_first().last() == c);
        lemma_split_trailing_sep(s.drop_first(), c);
    }
}

/// The lines of `v`, as `str::lines` yields them.
pub fn lines_of(v: &Vec<char>) -> (r: Vec<Vec<char>>)
    ensures
        part_views(r@) == lines_spec(v@),
{
    if v.len() == 0 {
        let r: Vec<Vec<char>> = Vec::new();
        proof {
            assert(part_views(r@) =~= lines_spec(v@));
        }
        return r;
    }
    let mut parts = split_on(v, '\n');
    let trailing_nl = v[v.len() - 1] == '\n';
    proof {
        lemma_split_char_len(v@, '\n');
        if v@.last() == '\n' {
            lemma_split_trailing_sep(v@, '\n');
        }
    }
    if trailing_nl {
        parts.pop();
    }
    let ghost kept = if v@.last() == '\n' {
        split_char_spec(v@, '\n').drop_last()
    } else {
        split_char_spec(v@, '\n')
    };
    proof {
        assert(part_views(parts@) =~= kept);
    }
    let mut r: Vec<Vec<char>> = Vec::new();
    let mut k: usize = 0;
    while k < parts.len()
        invariant
            k <= parts@.len(),
            part_views(parts@) =~= kept,
            v@.len() > 0,
            kept == (if v@.last() == '\n' {
                split_char_spec(v@, '\n').drop_last()
            } else {
                split_char_spec(v@, '\n')
            }),
            trailing_nl == (v@.last() == '\n'),
            r@.len() == k,
            forall|j: int| 0 <= j < k ==> #[trigger] r@[j]@ == lines_spec(v@)[j],
        decreases parts@.len() - k,
    {
        let p = &parts[k];
        let stripped: Vec<char> = if (k < parts.len() - 1 || trailing_nl) && p.len() > 0 && p[p.len()
            - 1] == '\r' {
            subvec(p, 0, p.len() - 1)
        } else {
            subvec(p, 0, p.len())
        };
        proof {
            assert(parts@[k as int]@ == kept[k as int]);
            if (k < parts@.len() - 1 || trailing_nl) {
                assert(lines_spec(v@)[k as int] == strip_cr_spec(kept[k as int]));
                if parts@[k as int]@.len() > 0 && parts@[k as int]@.last() == '\r' {
                    assert(stripped@ =~= strip_cr_spec(kept[k as int]));
                } else {
                    assert(stripped@ =~= kept[k as int]);
                }
            } else {
                assert(lines_spec(v@)[k as int] == kept[k as int]);
                assert(stripped@ =~= kept[k as int]);
            }
        }
        r.push(stripped);
        k = k + 1;
    }
    proof {
        assert(part_views(r@) =~= lines_spec(v@));
    }
    r
}

} // verus!

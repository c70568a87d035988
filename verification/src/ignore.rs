//! The ignore-pattern engine.
//!
//! `Patterns::add_pattern` compiles one directive line into zero or more
//! rules, and `Patterns::matches` evaluates a candidate path against the
//! compiled rules: negation rules are consulted first and always win over a
//! conflicting positive rule, regardless of insertion order.

use vstd::prelude::*;

use crate::chars::{
    chars_of, contains_char, find_char, find_char_spec, lemma_find_char_spec, lines_of,
    lines_spec, part_views, push_all, replace_all, replace_spec, split_char_spec, split_on,
    subvec, trim, trim_spec,
};
use crate::globs::{glob_match, glob_match_chars, glob_ok, glob_syntax_ok};

verus! {

/// The mathematical content of one compiled rule: the glob source text and
/// the two flags.
pub struct RuleView {
    /// The characters of the compiled glob pattern.
    pub source: Seq<char>,
    /// Whether the rule re-includes matching paths instead of ignoring them.
    pub negation: bool,
    /// Whether the rule is anchored to the scan root.
    pub anchored: bool,
}

/// One compiled rule: the glob source plus the negation and anchoring flags.
#[derive(Debug)]
struct CompiledRule {
    source: Vec<char>,
    negation: bool,
    anchored: bool,
}

impl View for CompiledRule {
    type V = RuleView;

    closed spec fn view(&self) -> RuleView {
        RuleView { source: self.source@, negation: self.negation, anchored: self.anchored }
    }
}

/// An ordered collection of compiled ignore rules. It is built by repeated
/// `add_pattern` calls and is read-only thereafter.
#[derive(Debug)]
pub struct Patterns {
    rules: Vec<CompiledRule>,
}

impl View for Patterns {
    type V = Seq<RuleView>;

    closed spec fn view(&self) -> Seq<RuleView> {
        Seq::new(self.rules@.len(), |i: int| self.rules@[i]@)
    }
}

/// The index of the last `/` in `s`, or -1 when none occurs.
pub open spec fn last_slash_spec(s: Seq<char>) -> int
    decreases s.len(),
{
    if s.len() == 0 {
        -1
    } else if s.last() == '/' {
        s.len() - 1
    } else {
        last_slash_spec(s.drop_last())
    }
}

pub proof fn lemma_last_slash(s: Seq<char>)
    ensures
        -1 <= last_slash_spec(s) < s.len(),
        last_slash_spec(s) >= 0 ==> s[last_slash_spec(s)] == '/',
        forall|j: int| last_slash_spec(s) < j < s.len() ==> s[j] != '/',
        forall|j: int| 0 <= j < s.len() && s[j] == '/' ==> j <= last_slash_spec(s),
    decreases s.len(),
{
    if s.len() > 0 && s.last() != '/' {
        lemma_last_slash(s.drop_last());
        assert forall|j: int| 0 <= j < s.len() && s[j] == '/' implies j
            <= last_slash_spec(s) by {
            assert(j < s.len() - 1);
            assert(s.drop_last()[j] == '/');
        }
        assert forall|j: int| last_slash_spec(s) < j < s.len() implies s[j] != '/' by {
            if j < s.len() - 1 {
                assert(s[j] == s.drop_last()[j]);
            }
        }
    }
}

/// `s` without its trailing separators.
pub open spec fn drop_end_slashes(s: Seq<char>) -> Seq<char>
    decreases s.len(),
{
    if s.len() > 0 && s.last() == '/' {
        drop_end_slashes(s.drop_last())
    } else {
        s
    }
}

/// The final path component of `path`: trailing separators are ignored, and
/// the component is the text after the last remaining `/` — all of the path
/// when it holds no separator, and empty for an all-separator path.
pub open spec fn basename_spec(path: Seq<char>) -> Seq<char> {
    let t = drop_end_slashes(path);
    t.skip(last_slash_spec(t) + 1)
}

/// A rule whose glob holds no separator and which is anchored: such a rule is
/// consulted only for root-level candidates.
pub open spec fn simple_anchored(r: RuleView) -> bool {
    r.anchored && !r.source.contains('/')
}

/// Whether rule `r` applies to a candidate with full path `path` and final
/// component `name`: the anchoring rule may exclude it, and otherwise the
/// glob is tested against the full path and against the bare filename.
pub open spec fn rule_applies(r: RuleView, path: Seq<char>, name: Seq<char>) -> bool {
    &&& !(simple_anchored(r) && path.contains('/'))
    &&& (glob_match(r.source, path) || glob_match(r.source, name))
}

/// Whether some negation rule applies to the candidate.
pub open spec fn neg_match_exists(rules: Seq<RuleView>, path: Seq<char>, name: Seq<char>) -> bool {
    exists|i: int| 0 <= i < rules.len() && (#[trigger] rules[i]).negation && rule_applies(
        rules[i],
        path,
        name,
    )
}

/// Whether some positive (non-negation) rule applies to the candidate.
pub open spec fn pos_match_exists(rules: Seq<RuleView>, path: Seq<char>, name: Seq<char>) -> bool {
    exists|i: int| 0 <= i < rules.len() && !(#[trigger] rules[i]).negation && rule_applies(
        rules[i],
        path,
        name,
    )
}

/// The ignore verdict for `path` under `rules`: ignored exactly when some
/// positive rule applies and no negation rule does.
pub open spec fn set_matches(rules: Seq<RuleView>, path: Seq<char>) -> bool {
    let name = basename_spec(path);
    !neg_match_exists(rules, path, name) && pos_match_exists(rules, path, name)
}

/// Why a directive line was rejected: malformed extension-group braces (an
/// unmatched `{` or `}`) or invalid glob syntax.
#[derive(Clone, Copy, Debug, PartialEq, Eq, Structural)]
pub enum CompileError {
    /// An extension group opened with `{` but no `}` follows.
    MissingClosingBrace,
    /// A `}` stands with no `{` before it.
    MissingOpeningBrace,
    /// A produced pattern is not valid glob syntax.
    InvalidGlob,
}

/// The literal globstar token `**`.
pub open spec fn globstar_seq() -> Seq<char> {
    seq!['*', '*']
}

/// The any-depth prefix `**/`.
pub open spec fn depth_prefix_seq() -> Seq<char> {
    seq!['*', '*', '/']
}

/// The internal placeholder that protects globstar tokens while the body is
/// rewritten.
pub open spec fn placeholder_seq() -> Seq<char> {
    seq!['[', 'G', 'L', 'O', 'B', 'S', 'T', 'A', 'R', ']']
}

/// Whether the body holds a glob metacharacter.
pub open spec fn has_meta(p: Seq<char>) -> bool {
    p.contains('*') || p.contains('?') || p.contains('[')
}

/// A bare filename: no path separator and no glob metacharacter.
pub open spec fn is_bare_filename(p: Seq<char>) -> bool {
    !p.contains('/') && !p.contains('\\') && !has_meta(p)
}

/// Whether the body holds the two-character globstar token.
pub open spec fn has_globstar(p: Seq<char>) -> bool {
    exists|i: int| 0 <= i && i + 2 <= p.len() && #[trigger] p[i] == '*' && p[i + 1] == '*'
}

/// The body after the expansion rules: a body with metacharacters keeps its
/// text (globstar tokens protected); a directory marker expands to the
/// directory and what is beneath it (re-including only the contents when
/// negated); a plain name destined to behave as a directory gains `/**`.
pub open spec fn expanded_body(p: Seq<char>, neg: bool) -> Seq<char> {
    if has_meta(p) {
        if has_globstar(p) {
            replace_spec(p, globstar_seq(), placeholder_seq())
        } else {
            p
        }
    } else if p.len() > 0 && p.last() == '/' {
        if neg {
            depth_prefix_seq() + p + globstar_seq() + seq!['/', '*']
        } else {
            depth_prefix_seq() + p + globstar_seq()
        }
    } else if neg || p.contains('.') || is_bare_filename(p) {
        p
    } else {
        p + seq!['/'] + globstar_seq()
    }
}

/// A non-anchored pattern without a separator is prefixed with `**/` so that
/// it matches at any depth.
pub open spec fn depth_prefixed(g: Seq<char>, anchored: bool) -> Seq<char> {
    if !anchored && !g.contains('/') && !g.contains('\\') {
        depth_prefix_seq() + g
    } else {
        g
    }
}

/// Protected globstar tokens restored to `**`.
pub open spec fn restore_globstar(g: Seq<char>) -> Seq<char> {
    replace_spec(g, placeholder_seq(), globstar_seq())
}

/// Every part trimmed of surrounding whitespace.
pub open spec fn trimmed_all(parts: Seq<Seq<char>>) -> Seq<Seq<char>> {
    parts.map_values(|e: Seq<char>| trim_spec(e))
}

/// One full pattern per extension: `prefix<ext>rest`, globstar restored.
pub open spec fn expanded_patterns(prefix: Seq<char>, exts: Seq<Seq<char>>, rest: Seq<char>)
    -> Seq<Seq<char>> {
    exts.map_values(|e: Seq<char>| restore_globstar(prefix + e + rest))
}

/// The extension-group expansion of `g`: the part before the first `{`, the
/// comma-separated extensions up to the first following `}`, and the rest.
pub open spec fn brace_expanded(g: Seq<char>) -> Result<Seq<Seq<char>>, CompileError> {
    let i = find_char_spec(g, '{');
    let prefix = g.take(i);
    let suffix = g.skip(i + 1);
    let j = find_char_spec(suffix, '}');
    if j < 0 {
        Err(CompileError::MissingClosingBrace)
    } else {
        Ok(
            expanded_patterns(
                prefix,
                trimmed_all(split_char_spec(suffix.take(j), ',')),
                suffix.skip(j + 1),
            ),
        )
    }
}

/// Whether the pattern holds a `}` with no `{` before it: the first `}`
/// comes before the first `{`, or there is a `}` and no `{` at all.
pub open spec fn unmatched_close_brace(g: Seq<char>) -> bool {
    let i = find_char_spec(g, '{');
    let j = find_char_spec(g, '}');
    j >= 0 && (i < 0 || j < i)
}

/// Whether every produced pattern is valid glob syntax.
pub open spec fn all_globs_ok(pats: Seq<Seq<char>>) -> bool {
    forall|k: int| 0 <= k < pats.len() ==> glob_ok(#[trigger] pats[k])
}

/// One rule per pattern, all carrying the same flags.
pub open spec fn rules_of(pats: Seq<Seq<char>>, neg: bool, anch: bool) -> Seq<RuleView> {
    pats.map_values(|p: Seq<char>| RuleView { source: p, negation: neg, anchored: anch })
}

/// The rules compiled from one raw directive line, or the error that rejects
/// the whole line. A blank or `#`-comment line compiles to no rules. An
/// optional leading `!` marks negation and an optional leading `/` anchors
/// the rule; a bare filename produces both an any-depth path form and a
/// filename-only form. Malformed extension-group braces reject the line: a
/// `}` with no `{` before it, and a `{` with no `}` after it.
pub open spec fn compile_line(line: Seq<char>) -> Result<Seq<RuleView>, CompileError> {
    let t = trim_spec(line);
    if t.len() == 0 || t[0] == '#' {
        Ok(Seq::<RuleView>::empty())
    } else {
        let neg = t[0] == '!';
        let b1 = if neg {
            t.drop_first()
        } else {
            t
        };
        let anch = b1.len() > 0 && b1[0] == '/';
        let p = if anch {
            b1.drop_first()
        } else {
            b1
        };
        let g = depth_prefixed(expanded_body(p, neg), anch);
        if unmatched_close_brace(g) {
            Err(CompileError::MissingOpeningBrace)
        } else if g.contains('{') {
            match brace_expanded(g) {
                Ok(pats) => if all_globs_ok(pats) {
                    Ok(rules_of(pats, neg, anch))
                } else {
                    Err(CompileError::InvalidGlob)
                },
                Err(e) => Err(e),
            }
        } else if is_bare_filename(p) && !anch {
            let pats = seq![depth_prefix_seq() + p, p];
            if all_globs_ok(pats) {
                Ok(rules_of(pats, neg, false))
            } else {
                Err(CompileError::InvalidGlob)
            }
        } else {
            let full = restore_globstar(g);
            if glob_ok(full) {
                Ok(seq![RuleView { source: full, negation: neg, anchored: anch }])
            } else {
                Err(CompileError::InvalidGlob)
            }
        }
    }
}

/// The views of a buffered rule vector.
spec fn rule_views(s: Seq<CompiledRule>) -> Seq<RuleView> {
    Seq::new(s.len(), |i: int| s[i]@)
}

/// Every rule's glob source compiles.
pub open spec fn rules_wf(rules: Seq<RuleView>) -> bool {
    forall|i: int| 0 <= i < rules.len() ==> glob_ok((#[trigger] rules[i]).source)
}

fn globstar_vec() -> (r: Vec<char>)
    ensures
        r@ == globstar_seq(),
{
    let mut v: Vec<char> = Vec::new();
    v.push('*');
    v.push('*');
    proof {
        assert(v@ =~= globstar_seq());
    }
    v
}

fn depth_prefix_vec() -> (r: Vec<char>)
    ensures
        r@ == depth_prefix_seq(),
{
    let mut v: Vec<char> = Vec::new();
    v.push('*');
    v.push('*');
    v.push('/');
    proof {
        assert(v@ =~= depth_prefix_seq());
    }
    v
}

fn placeholder_vec() -> (r: Vec<char>)
    ensures
        r@ == placeholder_seq(),
{
    let mut v: Vec<char> = Vec::new();
    v.push('[');
    v.push('G');
    v.push('L');
    v.push('O');
    v.push('B');
    v.push('S');
    v.push('T');
    v.push('A');
    v.push('R');
    v.push(']');
    proof {
        assert(v@ =~= placeholder_seq());
    }
    v
}

/// Whether `g` holds a `}` with no `{` before it.
fn has_unmatched_close(g: &Vec<char>) -> (r: bool)
    ensures
        r == unmatched_close_brace(g@),
{
    proof {
        lemma_find_char_spec(g@, '}');
        lemma_find_char_spec(g@, '{');
    }
    match find_char(g, '}') {
        None => false,
        Some(j) => match find_char(g, '{') {
            None => true,
            Some(i) => j < i,
        },
    }
}

fn has_globstar_in(v: &Vec<char>) -> (r: bool)
    ensures
        r == has_globstar(v@),
{
    if v.len() < 2 {
        return false;
    }
    let mut i: usize = 0;
    while i < v.len() - 1
        invariant
            i <= v@.len(),
            v@.len() >= 2,
            forall|j: int| 0 <= j < i ==> !(#[trigger] v@[j] == '*' && v@[j + 1] == '*'),
        decreases v@.len() - i,
    {
        if v[i] == '*' && v[i + 1] == '*' {
            return true;
        }
        i = i + 1;
    }
    false
}

/// The final path component of `v`.
fn basename_of(v: &Vec<char>) -> (r: Vec<char>)
    ensures
        r@ == basename_spec(v@),
{
    proof {
        assert(v@.subrange(0, v@.len() as int) =~= v@);
    }
    let mut end: usize = v.len();
    while end > 0 && v[end - 1] == '/'
        invariant
            end <= v@.len(),
            drop_end_slashes(v@) == drop_end_slashes(v@.subrange(0, end as int)),
        decreases end,
    {
        proof {
            assert(v@.subrange(0, end as int).drop_last() =~= v@.subrange(0, end as int - 1));
        }
        end = end - 1;
    }
    let ghost t = drop_end_slashes(v@);
    proof {
        assert(t == v@.subrange(0, end as int));
        lemma_last_slash(t);
    }
    let mut i: usize = end;
    while i > 0 && v[i - 1] != '/'
        invariant
            i <= end <= v@.len(),
            forall|j: int| i <= j < end ==> v@[j] != '/',
        decreases i,
    {
        i = i - 1;
    }
    proof {
        assert(t.len() == end);
        assert(forall|j: int| 0 <= j < end ==> t[j] == v@[j]);
        if i == 0 {
            assert(last_slash_spec(t) == -1);
        } else {
            assert(v@[i - 1] == '/');
            assert(t[i - 1] == '/');
            assert(last_slash_spec(t) >= i - 1);
            assert(last_slash_spec(t) == i - 1);
        }
        assert(t.skip(last_slash_spec(t) + 1) =~= v@.subrange(i as int, end as int));
    }
    subvec(v, i, end)
}

impl Patterns {
    /// Every stored rule's glob source compiles.
    #[verifier::type_invariant]
    spec fn wf(self) -> bool {
        rules_wf(self@)
    }

    /// An empty rule set, which ignores nothing.
    pub fn new() -> (r: Self)
        ensures
            r@ == Seq::<RuleView>::empty(),
    {
        let r = Patterns { rules: Vec::new() };
        proof {
            assert(r@ =~= Seq::<RuleView>::empty());
        }
        r
    }

    /// The ignore verdict for a candidate path.
    ///
    /// The candidate is tested in two passes: first every negation rule, then
    /// every positive rule, each against the full path text and against its
    /// final path component (the text after the last `/`).
    pub fn matches(&self, path: &str) -> (r: bool)
        ensures
            r == set_matches(self@, path@),
    {
        proof {
            use_type_invariant(&*self);
        }
        let pv = chars_of(path);
        let name = basename_of(&pv);
        let path_has_sep = contains_char(&pv, '/');
        let n = self.rules.len();
        let mut idx: usize = 0;
        while idx < n
            invariant
                n == self@.len(),
                idx <= n,
                self.wf(),
                pv@ == path@,
                name@ == basename_spec(path@),
                path_has_sep == path@.contains('/'),
                forall|k: int|
                    0 <= k < idx ==> !((#[trigger] self@[k]).negation && rule_applies(
                        self@[k],
                        path@,
                        name@,
                    )),
            decreases n - idx,
        {
            let rule = &self.rules[idx];
            proof {
                assert(self@[idx as int] == self.rules@[idx as int]@);
            }
            let skip_rule = rule.anchored && !contains_char(&rule.source, '/') && path_has_sep;
            if rule.negation && !skip_rule {
                if glob_match_chars(&rule.source, &pv) || glob_match_chars(&rule.source, &name) {
                    proof {
                        assert(rule_applies(self@[idx as int], path@, name@));
                        assert(neg_match_exists(self@, path@, name@));
                    }
                    return false;
                }
            }
            idx = idx + 1;
        }
        let mut idx: usize = 0;
        while idx < n
            invariant
                n == self@.len(),
                idx <= n,
                self.wf(),
                pv@ == path@,
                name@ == basename_spec(path@),
                path_has_sep == path@.contains('/'),
                !neg_match_exists(self@, path@, name@),
                forall|k: int|
                    0 <= k < idx ==> !(!(#[trigger] self@[k]).negation && rule_applies(
                        self@[k],
                        path@,
                        name@,
                    )),
            decreases n - idx,
        {
            let rule = &self.rules[idx];
            proof {
                assert(self@[idx as int] == self.rules@[idx as int]@);
            }
            let skip_rule = rule.anchored && !contains_char(&rule.source, '/') && path_has_sep;
            if !rule.negation && !skip_rule {
                if glob_match_chars(&rule.source, &pv) || glob_match_chars(&rule.source, &name) {
                    proof {
                        assert(rule_applies(self@[idx as int], path@, name@));
                        assert(pos_match_exists(self@, path@, name@));
                    }
                    return true;
                }
            }
            idx = idx + 1;
        }
        false
    }

    /// Appends buffered rules, all already checked to compile.
    fn append_rules(&mut self, new_rules: Vec<CompiledRule>)
        requires
            rules_wf(rule_views(new_rules@)),
        ensures
            final(self)@ == old(self)@ + rule_views(new_rules@),
    {
        proof {
            use_type_invariant(&*self);
        }
        let ghost all = rule_views(new_rules@);
        let ghost orig = old(self)@;
        let mut rules: Vec<CompiledRule> = Vec::new();
        std::mem::swap(&mut rules, &mut self.rules);
        proof {
            assert(rule_views(rules@) =~= orig);
            assert(all.take(0) =~= Seq::<RuleView>::empty());
            assert(rule_views(rules@) =~= orig + all.take(0));
            assert(rule_views(new_rules@) =~= all.skip(0));
        }
        let mut rest = new_rules;
        let total = rest.len();
        let mut taken: usize = 0;
        while rest.len() > 0
            invariant
                taken + rest@.len() == total,
                total == all.len(),
                rule_views(rest@) =~= all.skip(taken as int),
                rule_views(rules@) =~= orig + all.take(taken as int),
                rules_wf(orig),
                rules_wf(all),
            decreases rest@.len(),
        {
            let ghost restview = rule_views(rest@);
            let r = rest.remove(0);
            proof {
                assert(r@ == restview[0]);
                assert(r@ == all[taken as int]);
                assert(glob_ok(r.source@));
                assert(rule_views(rest@) =~= restview.drop_first());
                assert(restview.drop_first() =~= all.skip(taken as int + 1));
            }
            let ghost before = rule_views(rules@);
            rules.push(r);
            taken = taken + 1;
            proof {
                assert(rule_views(rules@) =~= before.push(r@));
                assert(rule_views(rules@) =~= orig + all.take(taken as int));
            }
        }
        proof {
            assert(all.take(taken as int) =~= all);
            assert(rules_wf(rule_views(rules@)));
        }
        self.rules = rules;
        proof {
            assert(self@ =~= rule_views(self.rules@));
        }
    }

    /// Compiles one raw directive line and appends the produced rules.
    ///
    /// A blank line or a `#` comment is a no-op. Malformed extension-group
    /// braces (an unmatched `{` or `}`) and invalid glob syntax reject the
    /// line. On any error the rule set is left unchanged: no rule is ever
    /// stored partially compiled.
    pub fn add_pattern(&mut self, pattern: &str) -> (r: Result<(), CompileError>)
        ensures
            compile_line(pattern@) matches Ok(rules) ==> r is Ok && final(self)@ == old(self)@
                + rules,
            compile_line(pattern@) matches Err(e) ==> r == Err::<(), CompileError>(e)
                && final(self)@ == old(self)@,
    {
        let line = chars_of(pattern);
        self.add_pattern_chars(&line)
    }

    /// `add_pattern`, taking the line as characters.
    pub(crate) fn add_pattern_chars(&mut self, line: &Vec<char>) -> (r: Result<(), CompileError>)
        ensures
            compile_line(line@) matches Ok(rules) ==> r is Ok && final(self)@ == old(self)@
                + rules,
            compile_line(line@) matches Err(e) ==> r == Err::<(), CompileError>(e)
                && final(self)@ == old(self)@,
    {
        let t = trim(line);
        if t.len() == 0 {
            proof {
                assert(final(self)@ =~= old(self)@ + Seq::<RuleView>::empty());
            }
            return Ok(());
        }
        if t[0] == '#' {
            proof {
                assert(final(self)@ =~= old(self)@ + Seq::<RuleView>::empty());
            }
            return Ok(());
        }
        let neg = t[0] == '!';
        let tlen = t.len();
        let b1 = if neg {
            subvec(&t, 1, tlen)
        } else {
            t
        };
        proof {
            if neg {
                assert(b1@ =~= trim_spec(line@).drop_first());
            }
        }
        let anch = b1.len() > 0 && b1[0] == '/';
        let b1len = b1.len();
        let p = if anch {
            subvec(&b1, 1, b1len)
        } else {
            b1
        };
        proof {
            if anch {
                assert(p@ =~= b1@.drop_first());
            }
        }
        let meta = contains_char(&p, '*') || contains_char(&p, '?') || contains_char(&p, '[');
        let bare = !contains_char(&p, '/') && !contains_char(&p, '\\') && !meta;
        let g = expand_pattern_body(&p, neg, anch, meta, bare);
        let compiled: Result<Vec<CompiledRule>, CompileError> = if has_unmatched_close(&g) {
            Err(CompileError::MissingOpeningBrace)
        } else if contains_char(&g, '{') {
            compile_brace_rules(&g, neg, anch)
        } else if bare && !anch {
            compile_bare_rules(&p, neg)
        } else {
            compile_plain_rule(&g, neg, anch)
        };
        match compiled {
            Ok(new_rules) => {
                let ghost produced = rule_views(new_rules@);
                proof {
                    assert(compile_line(line@) == Ok::<Seq<RuleView>, CompileError>(produced));
                }
                self.append_rules(new_rules);
                Ok(())
            },
            Err(e) => {
                proof {
                    assert(compile_line(line@) == Err::<Seq<RuleView>, CompileError>(e));
                }
                Err(e)
            },
        }
    }
}

/// The expanded, depth-prefixed glob text of a directive body.
fn expand_pattern_body(p: &Vec<char>, neg: bool, anch: bool, meta: bool, bare: bool) -> (g: Vec<
    char,
>)
    requires
        meta == has_meta(p@),
        bare == is_bare_filename(p@),
    ensures
        g@ == depth_prefixed(expanded_body(p@, neg), anch),
{
    let g0: Vec<char> = if meta {
        if has_globstar_in(p) {
            replace_all(p, &globstar_vec(), &placeholder_vec())
        } else {
            subvec(p, 0, p.len())
        }
    } else if p.len() > 0 && p[p.len() - 1] == '/' {
        let mut v = depth_prefix_vec();
        push_all(&mut v, p);
        v.push('*');
        v.push('*');
        if neg {
            v.push('/');
            v.push('*');
        }
        v
    } else if neg || contains_char(p, '.') || bare {
        subvec(p, 0, p.len())
    } else {
        let mut v = subvec(p, 0, p.len());
        v.push('/');
        v.push('*');
        v.push('*');
        v
    };
    proof {
        assert(p@.subrange(0, p@.len() as int) =~= p@);
        if !meta && p@.len() > 0 && p@.last() == '/' {
            if neg {
                assert(g0@ =~= depth_prefix_seq() + p@ + globstar_seq() + seq!['/', '*']);
            } else {
                assert(g0@ =~= depth_prefix_seq() + p@ + globstar_seq());
            }
        }
        if !meta && !(p@.len() > 0 && p@.last() == '/') && !(neg || p@.contains('.')
            || is_bare_filename(p@)) {
            assert(g0@ =~= p@ + seq!['/'] + globstar_seq());
        }
        assert(g0@ == expanded_body(p@, neg));
    }
    if !anch && !contains_char(&g0, '/') && !contains_char(&g0, '\\') {
        let mut v = depth_prefix_vec();
        push_all(&mut v, &g0);
        v
    } else {
        g0
    }
}

/// The rules of an extension-group pattern, one per extension, or the error
/// rejecting the whole group.
fn compile_brace_rules(g: &Vec<char>, neg: bool, anch: bool) -> (r: Result<
    Vec<CompiledRule>,
    CompileError,
>)
    requires
        g@.contains('{'),
    ensures
        match brace_expanded(g@) {
            Ok(pats) => {
                if all_globs_ok(pats) {
                    r matches Ok(v) && rule_views(v@) == rules_of(pats, neg, anch) && rules_wf(
                        rule_views(v@),
                    )
                } else {
                    r == Err::<Vec<CompiledRule>, CompileError>(CompileError::InvalidGlob)
                }
            },
            Err(e) => r == Err::<Vec<CompiledRule>, CompileError>(e),
        },
{
    proof {
        lemma_find_char_spec(g@, '{');
    }
    let glen = g.len();
    let i = match find_char(g, '{') {
        Some(i) => i,
        None => {
            proof {
                assert(false);
            }
            0
        },
    };
    let prefix = subvec(g, 0, i);
    let suffix = subvec(g, i + 1, glen);
    proof {
        assert(prefix@ =~= g@.take(i as int));
        assert(suffix@ =~= g@.skip(i as int + 1));
    }
    match find_char(&suffix, '}') {
        None => Err(CompileError::MissingClosingBrace),
        Some(j) => {
            proof {
                lemma_find_char_spec(suffix@, '}');
            }
            let slen = suffix.len();
            let ext_src = subvec(&suffix, 0, j);
            let rest = subvec(&suffix, j + 1, slen);
            proof {
                assert(ext_src@ =~= suffix@.take(j as int));
                assert(rest@ =~= suffix@.skip(j as int + 1));
            }
            let parts = split_on(&ext_src, ',');
            let ghost pats = expanded_patterns(prefix@, trimmed_all(part_views(parts@)), rest@);
            proof {
                assert(brace_expanded(g@) == Ok::<Seq<Seq<char>>, CompileError>(pats));
                assert(pats.len() == parts@.len());
            }
            let mut new_rules: Vec<CompiledRule> = Vec::new();
            let mut k: usize = 0;
            while k < parts.len()
                invariant
                    k <= parts@.len(),
                    brace_expanded(g@) == Ok::<Seq<Seq<char>>, CompileError>(pats),
                    pats == expanded_patterns(prefix@, trimmed_all(part_views(parts@)), rest@),
                    pats.len() == parts@.len(),
                    new_rules@.len() == k,
                    forall|m: int|
                        0 <= m < k ==> glob_ok(#[trigger] pats[m]) && rule_views(new_rules@)[m]
                            == rules_of(pats, neg, anch)[m],
                decreases parts@.len() - k,
            {
                let e = trim(&parts[k]);
                proof {
                    assert(part_views(parts@)[k as int] == parts@[k as int]@);
                    assert(trimmed_all(part_views(parts@))[k as int] == trim_spec(
                        parts@[k as int]@,
                    ));
                }
                let mut joined = subvec(&prefix, 0, prefix.len());
                push_all(&mut joined, &e);
                push_all(&mut joined, &rest);
                proof {
                    assert(prefix@.subrange(0, prefix@.len() as int) =~= prefix@);
                }
                let full = replace_all(&joined, &placeholder_vec(), &globstar_vec());
                proof {
                    assert(full@ == pats[k as int]);
                }
                if !glob_syntax_ok(&full) {
                    proof {
                        assert(!all_globs_ok(pats));
                    }
                    return Err(CompileError::InvalidGlob);
                }
                new_rules.push(CompiledRule { source: full, negation: neg, anchored: anch });
                k = k + 1;
                proof {
                    assert(rule_views(new_rules@)[k - 1] == rules_of(pats, neg, anch)[k - 1]);
                }
            }
            proof {
                assert(all_globs_ok(pats));
                assert(rule_views(new_rules@) =~= rules_of(pats, neg, anch));
            }
            Ok(new_rules)
        },
    }
}

/// The two rules of a bare filename: the any-depth path form and the
/// filename-only form, or the error rejecting the line.
fn compile_bare_rules(p: &Vec<char>, neg: bool) -> (r: Result<Vec<CompiledRule>, CompileError>)
    ensures
        ({
            let pats = seq![depth_prefix_seq() + p@, p@];
            if all_globs_ok(pats) {
                r matches Ok(v) && rule_views(v@) == rules_of(pats, neg, false) && rules_wf(
                    rule_views(v@),
                )
            } else {
                r == Err::<Vec<CompiledRule>, CompileError>(CompileError::InvalidGlob)
            }
        }),
{
    let ghost pats = seq![depth_prefix_seq() + p@, p@];
    let mut path_pat = depth_prefix_vec();
    push_all(&mut path_pat, p);
    if !glob_syntax_ok(&path_pat) {
        proof {
            assert(pats[0] == depth_prefix_seq() + p@);
            assert(!all_globs_ok(pats));
        }
        return Err(CompileError::InvalidGlob);
    }
    if !glob_syntax_ok(p) {
        proof {
            assert(pats[1] == p@);
            assert(!all_globs_ok(pats));
        }
        return Err(CompileError::InvalidGlob);
    }
    let name_pat = subvec(p, 0, p.len());
    proof {
        assert(name_pat@ =~= p@);
    }
    let mut new_rules: Vec<CompiledRule> = Vec::new();
    new_rules.push(CompiledRule { source: path_pat, negation: neg, anchored: false });
    new_rules.push(CompiledRule { source: name_pat, negation: neg, anchored: false });
    proof {
        assert forall|m: int| 0 <= m < pats.len() implies glob_ok(#[trigger] pats[m]) by {
            if m == 0 {
                assert(pats[0] == depth_prefix_seq() + p@);
            } else {
                assert(pats[1] == p@);
            }
        }
        assert(rule_views(new_rules@) =~= rules_of(pats, neg, false));
    }
    Ok(new_rules)
}

/// The single rule of an ordinary pattern, globstar restored, or the error
/// rejecting the line.
fn compile_plain_rule(g: &Vec<char>, neg: bool, anch: bool) -> (r: Result<
    Vec<CompiledRule>,
    CompileError,
>)
    ensures
        ({
            let full = restore_globstar(g@);
            if glob_ok(full) {
                r matches Ok(v) && rule_views(v@) == seq![
                    RuleView { source: full, negation: neg, anchored: anch },
                ] && rules_wf(rule_views(v@))
            } else {
                r == Err::<Vec<CompiledRule>, CompileError>(CompileError::InvalidGlob)
            }
        }),
{
    let full = replace_all(g, &placeholder_vec(), &globstar_vec());
    proof {
        assert(full@ == restore_globstar(g@));
    }
    if !glob_syntax_ok(&full) {
        return Err(CompileError::InvalidGlob);
    }
    let ghost rv = RuleView { source: full@, negation: neg, anchored: anch };
    let mut new_rules: Vec<CompiledRule> = Vec::new();
    new_rules.push(CompiledRule { source: full, negation: neg, anchored: anch });
    proof {
        assert(rule_views(new_rules@) =~= seq![rv]);
    }
    Ok(new_rules)
}

/// The rules compiled from a sequence of directive lines, in order; the first
/// failing line rejects the whole sequence.
pub open spec fn compile_all(ls: Seq<Seq<char>>) -> Result<Seq<RuleView>, CompileError>
    decreases ls.len(),
{
    if ls.len() == 0 {
        Ok(Seq::<RuleView>::empty())
    } else {
        match compile_all(ls.drop_last()) {
            Ok(rs) => match compile_line(ls.last()) {
                Ok(nr) => Ok(rs + nr),
                Err(e) => Err(e),
            },
            Err(e) => Err(e),
        }
    }
}

/// The rules compiled from the newline-separated directives of one spec text.
pub open spec fn compile_text(content: Seq<char>) -> Result<Seq<RuleView>, CompileError> {
    compile_all(lines_spec(content))
}

proof fn lemma_compile_all_prefix_err(ls: Seq<Seq<char>>, k: int)
    requires
        0 <= k <= ls.len(),
        compile_all(ls.take(k)) is Err,
    ensures
        compile_all(ls) == compile_all(ls.take(k)),
    decreases ls.len() - k,
{
    if k < ls.len() {
        assert(ls.take(k + 1).drop_last() =~= ls.take(k));
        assert(ls.take(k + 1).last() == ls[k]);
        lemma_compile_all_prefix_err(ls, k + 1);
    } else {
        assert(ls.take(k) =~= ls);
    }
}

impl Patterns {
    /// One rule set built from a whole ignore-spec text, every line fed to
    /// the compiler in order. The first bad line rejects the whole text.
    pub fn from_lines(content: &str) -> (r: Result<Patterns, CompileError>)
        ensures
            compile_text(content@) matches Ok(rules) ==> r matches Ok(p) && p@ == rules,
            compile_text(content@) matches Err(e) ==> r == Err::<Patterns, CompileError>(e),
    {
        let cv = chars_of(content);
        let ls = lines_of(&cv);
        let mut p = Patterns::new();
        let mut k: usize = 0;
        proof {
            assert(part_views(ls@).take(0) =~= Seq::<Seq<char>>::empty());
        }
        while k < ls.len()
            invariant
                k <= ls@.len(),
                part_views(ls@) == lines_spec(content@),
                compile_all(part_views(ls@).take(k as int)) == Ok::<
                    Seq<RuleView>,
                    CompileError,
                >(p@),
            decreases ls@.len() - k,
        {
            let ghost lsv = part_views(ls@);
            let ghost before = p@;
            proof {
                assert(lsv.take(k as int + 1).drop_last() =~= lsv.take(k as int));
                assert(lsv.take(k as int + 1).last() == ls@[k as int]@);
            }
            let line = &ls[k];
            match p.add_pattern_chars(line) {
                Ok(_u) => {
                    proof {
                        assert(compile_all(lsv.take(k as int + 1)) == Ok::<
                            Seq<RuleView>,
                            CompileError,
                        >(p@));
                    }
                },
                Err(e) => {
                    proof {
                        assert(compile_all(lsv.take(k as int + 1)) == Err::<
                            Seq<RuleView>,
                            CompileError,
                        >(e));
                        lemma_compile_all_prefix_err(lsv, k as int + 1);
                    }
                    return Err(e);
                },
            }
            k = k + 1;
        }
        proof {
            assert(part_views(ls@).take(k as int) =~= part_views(ls@));
        }
        Ok(p)
    }
}

/// Law: a single positive rule ignores every path whose text its glob
/// matches, as long as the anchoring rule does not exclude the candidate (a
/// simple anchored rule is skipped for any path that holds a separator).
pub proof fn lemma_single_positive_rule(r: RuleView, path: Seq<char>)
    requires
        !r.negation,
        glob_match(r.source, path),
        !(simple_anchored(r) && path.contains('/')),
    ensures
        set_matches(seq![r], path),
{
    let rules = seq![r];
    let name = basename_spec(path);
    assert(rule_applies(rules[0], path, name));
    assert(pos_match_exists(rules, path, name));
}

/// Law: negation precedence. Wherever some negation rule applies to a path,
/// the verdict is "not ignored", whatever the positive rules say and in
/// whatever order the rules were added. "Applies" includes the anchoring
/// rule: a simple anchored negation rule is skipped for paths that hold a
/// separator, so a mere glob match is not enough there.
pub proof fn lemma_negation_wins(rules: Seq<RuleView>, path: Seq<char>, j: int)
    requires
        0 <= j < rules.len(),
        rules[j].negation,
        rule_applies(rules[j], path, basename_spec(path)),
    ensures
        !set_matches(rules, path),
{
    assert(neg_match_exists(rules, path, basename_spec(path)));
}

/// Law: determinism. Equal rule sequences give equal verdicts on every path;
/// together with `from_lines`' postcondition, which makes the compiled rules
/// a function of the spec text alone, compiling an identical spec twice
/// yields identical match verdicts for any path.
pub proof fn lemma_matches_deterministic(a: Seq<RuleView>, b: Seq<RuleView>, path: Seq<char>)
    requires
        a == b,
    ensures
        set_matches(a, path) == set_matches(b, path),
{
}

/// Law: a blank line or a `#` comment compiles to no rules at all.
pub proof fn lemma_blank_or_comment_is_no_op(line: Seq<char>)
    requires
        trim_spec(line).len() == 0 || trim_spec(line)[0] == '#',
    ensures
        compile_line(line) == Ok::<Seq<RuleView>, CompileError>(Seq::<RuleView>::empty()),
{
}

/// Law: with no rules, no path is ignored.
pub proof fn lemma_empty_matches_nothing(path: Seq<char>)
    ensures
        !set_matches(Seq::<RuleView>::empty(), path),
{
}

/// Law: a spec text whose lines are all blank or comments compiles to an
/// empty rule set, which ignores nothing.
pub proof fn lemma_comment_only_spec(ls: Seq<Seq<char>>)
    requires
        forall|i: int|
            0 <= i < ls.len() ==> trim_spec(#[trigger] ls[i]).len() == 0 || trim_spec(ls[i])[0]
                == '#',
    ensures
        compile_all(ls) == Ok::<Seq<RuleView>, CompileError>(Seq::<RuleView>::empty()),
    decreases ls.len(),
{
    if ls.len() > 0 {
        assert(forall|i: int|
            0 <= i < ls.drop_last().len() ==> trim_spec(#[trigger] ls.drop_last()[i]).len() == 0
                || trim_spec(ls.drop_last()[i])[0] == '#');
        lemma_comment_only_spec(ls.drop_last());
        lemma_blank_or_comment_is_no_op(ls.last());
        assert(Seq::<RuleView>::empty() + Seq::<RuleView>::empty() =~= Seq::<
            RuleView,
        >::empty());
    }
}

/// Law: a spec text whose lines are all blank or comments ignores no path
/// at all.
pub proof fn lemma_comment_only_spec_ignores_nothing(ls: Seq<Seq<char>>, path: Seq<char>)
    requires
        forall|i: int|
            0 <= i < ls.len() ==> trim_spec(#[trigger] ls[i]).len() == 0 || trim_spec(ls[i])[0]
                == '#',
    ensures
        compile_all(ls) == Ok::<Seq<RuleView>, CompileError>(Seq::<RuleView>::empty()),
        !set_matches(Seq::<RuleView>::empty(), path),
{
    lemma_comment_only_spec(ls);
    lemma_empty_matches_nothing(path);
}

impl Default for Patterns {
    /// An empty rule set.
    fn default() -> (r: Self)
        ensures
            r@ == Seq::<RuleView>::empty(),
    {
        Patterns::new()
    }
}

} // verus!

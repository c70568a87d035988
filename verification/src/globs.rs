//! Trusted interface to the `glob` crate's textual pattern matching.
//!
//! The engine never rebuilds glob semantics: whether a pattern compiles and
//! whether it matches a text are both left to the `glob` crate and are named
//! by the two uninterpreted spec functions below. Both read only their
//! character arguments, beyond which the crate consults one fixed fact of the
//! build target: which characters `std::path::is_separator` accepts (`/` on
//! this family).

use vstd::prelude::*;

verus! {

/// Whether `glob::Pattern::new` accepts `pattern` as valid glob syntax.
pub uninterp spec fn glob_ok(pattern: Seq<char>) -> bool;

/// Whether the glob `pattern` matches the whole of `text` under the `glob`
/// crate's default match options (`*`, `?` and `[...]` may cross `/`, and
/// `**` segments match across any number of path components).
pub uninterp spec fn glob_match(pattern: Seq<char>, text: Seq<char>) -> bool;

/// Relies on `glob::Pattern::new` (glob 0.3): compilation reads only the
/// pattern's characters, so its success is the pure predicate `glob_ok`.
#[verifier::external_body]
pub(crate) fn glob_syntax_ok(pattern: &Vec<char>) -> (r: bool)
    ensures
        r == glob_ok(pattern@),
{
    let s: String = pattern.iter().collect();
    glob::Pattern::new(&s).is_ok()
}

/// Relies on `glob::Pattern::new` and `glob::Pattern::matches` (glob 0.3):
/// for a pattern that compiles, whether a text matches is a pure function of
/// the pattern's and the text's characters, named `glob_match`.
#[verifier::external_body]
pub(crate) fn glob_match_chars(pattern: &Vec<char>, text: &Vec<char>) -> (r: bool)
    requires
        glob_ok(pattern@),
    ensures
        r == glob_match(pattern@, text@),
{
    let p: String = pattern.iter().collect();
    let t: String = text.iter().collect();
    match glob::Pattern::new(&p) {
        Ok(compiled) => compiled.matches(&t),
        Err(_) => false,
    }
}

} // verus!

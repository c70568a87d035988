//! YAML frontmatter tag extraction.
//!
//! A note may begin with a frontmatter block fenced by `---` lines; the block
//! may carry a `tags` list. The block is located by verified code; reading the
//! YAML itself is left to `serde_yaml_ng` behind a trusted wrapper.

use vstd::prelude::*;

use crate::chars::{chars_of, lines_of, lines_spec, part_views, push_all};

verus! {

/// A note's frontmatter: the optional list of tags.
#[derive(Debug)]
pub struct Frontmatter {
    /// The `tags` list of the frontmatter block, if one was given.
    pub tags: Option<Vec<String>>,
}

impl Default for Frontmatter {
    /// A frontmatter with no tags.
    fn default() -> (r: Self)
        ensures
            r.tags is None,
    {
        Frontmatter { tags: None }
    }
}

/// Why a frontmatter block was rejected.
#[derive(Clone, Copy, Debug, PartialEq, Eq, Structural)]
pub enum FrontmatterError {
    /// The block is not YAML that carries an optional `tags` list of strings.
    InvalidYaml,
}

/// What the YAML reader yields for a frontmatter text: the optional list of
/// tags, or a rejection.
pub uninterp spec fn yaml_tags_of(s: Seq<char>) -> Result<Option<Seq<Seq<char>>>, ()>;

/// The tag lists of a tag vector.
pub open spec fn tag_views(tags: Seq<String>) -> Seq<Seq<char>> {
    Seq::new(tags.len(), |i: int| tags[i]@)
}

/// Relies on `serde_yaml_ng::from_str` and `serde_yaml_ng::from_value`
/// (serde_yaml_ng 0.10): parsing reads only the text, so its outcome is the
/// pure function named `yaml_tags_of`.
#[verifier::external_body]
fn yaml_tags(s: &Vec<char>) -> (r: Result<Option<Vec<String>>, ()>)
    ensures
        match r {
            Ok(tags) => yaml_tags_of(s@) == Ok::<Option<Seq<Seq<char>>>, ()>(
                match tags {
                    Some(v) => Some(tag_views(v@)),
                    None => None,
                },
            ),
            Err(_) => yaml_tags_of(s@) is Err,
        },
{
    let text: String = s.iter().collect();
    let map: std::collections::BTreeMap<String, serde_yaml_ng::Value> =
        match serde_yaml_ng::from_str(&text) {
            Ok(m) => m,
            Err(_) => return Err(()),
        };
    match map.get("tags") {
        None => Ok(None),
        Some(t) => match serde_yaml_ng::from_value::<Option<Vec<String>>>(t.clone()) {
            Ok(tags) => Ok(tags),
            Err(_) => Err(()),
        },
    }
}

/// The three-dash fence line.
pub open spec fn dashes_seq() -> Seq<char> {
    seq!['-', '-', '-']
}

/// The frontmatter text: the lines from `k` on, each followed by a newline,
/// up to (excluding) the first fence line.
pub open spec fn fm_text(ls: Seq<Seq<char>>, k: int) -> Seq<char>
    decreases ls.len() - k,
{
    if k < 0 || k >= ls.len() || ls[k] == dashes_seq() {
        Seq::<char>::empty()
    } else {
        ls[k] + seq!['\n'] + fm_text(ls, k + 1)
    }
}

/// The frontmatter block of a note: the text between an opening fence on the
/// first line and the next fence (or the end), or nothing when the note does
/// not begin with a fence.
pub open spec fn frontmatter_block(content: Seq<char>) -> Option<Seq<char>> {
    let ls = lines_spec(content);
    if ls.len() == 0 || ls[0] != dashes_seq() {
        None
    } else {
        Some(fm_text(ls, 1))
    }
}

/// The tags of a note: none when it has no frontmatter block, what the YAML
/// reader yields for the block otherwise.
pub open spec fn note_tags(content: Seq<char>) -> Result<Option<Seq<Seq<char>>>, ()> {
    match frontmatter_block(content) {
        None => Ok(None),
        Some(txt) => yaml_tags_of(txt),
    }
}

/// Whether `v` is a fence line.
pub(crate) fn is_dashes(v: &Vec<char>) -> (r: bool)
    ensures
        r == (v@ == dashes_seq()),
{
    if v.len() == 3 && v[0] == '-' && v[1] == '-' && v[2] == '-' {
        proof {
            assert(v@ =~= dashes_seq());
        }
        true
    } else {
        proof {
            assert(v@ == dashes_seq() ==> v@.len() == 3 && v@[0] == '-' && v@[1] == '-' && v@[2]
                == '-');
        }
        false
    }
}

/// Parses the frontmatter of a note.
///
/// A note that does not begin with a `---` fence has the default frontmatter
/// (no tags). Otherwise the lines up to the next fence are read as YAML; an
/// unreadable block is an error.
pub fn parse_frontmatter(content: &str) -> (r: Result<Frontmatter, FrontmatterError>)
    ensures
        match note_tags(content@) {
            Ok(tags) => r matches Ok(f) && (match f.tags {
                Some(v) => tags matches Some(tv) && tag_views(v@) == tv,
                None => tags is None,
            }),
            Err(_) => r == Err::<Frontmatter, FrontmatterError>(FrontmatterError::InvalidYaml),
        },
{
    let cv = chars_of(content);
    let ls = lines_of(&cv);
    let ghost lsv = part_views(ls@);
    if ls.len() == 0 {
        return Ok(Frontmatter { tags: None });
    }
    if !is_dashes(&ls[0]) {
        proof {
            assert(lsv[0] == ls@[0]@);
        }
        return Ok(Frontmatter { tags: None });
    }
    let mut block: Vec<char> = Vec::new();
    let mut k: usize = 1;
    while k < ls.len() && !is_dashes(&ls[k])
        invariant
            1 <= k <= ls@.len(),
            lsv == part_views(ls@),
            fm_text(lsv, 1) == block@ + fm_text(lsv, k as int),
        decreases ls@.len() - k,
    {
        let ghost b0 = block@;
        proof {
            assert(lsv[k as int] == ls@[k as int]@);
            assert(fm_text(lsv, k as int) == lsv[k as int] + seq!['\n'] + fm_text(
                lsv,
                k as int + 1,
            ));
        }
        push_all(&mut block, &ls[k]);
        block.push('\n');
        proof {
            assert(block@ =~= b0 + (lsv[k as int] + seq!['\n']));
            assert(b0 + (lsv[k as int] + seq!['\n']) + fm_text(lsv, k as int + 1) =~= b0 + (
            lsv[k as int] + seq!['\n'] + fm_text(lsv, k as int + 1)));
        }
        k = k + 1;
    }
    proof {
        if k < ls@.len() {
            assert(lsv[k as int] == ls@[k as int]@);
        }
        assert(fm_text(lsv, k as int) == Seq::<char>::empty());
        assert(block@ + Seq::<char>::empty() =~= block@);
        assert(block@ == fm_text(lsv, 1));
    }
    match yaml_tags(&block) {
        Ok(tags) => Ok(Frontmatter { tags }),
        Err(_) => Err(FrontmatterError::InvalidYaml),
    }
}

/// Whether the note's frontmatter carries `tag`. An unreadable frontmatter
/// counts as carrying no tags.
pub open spec fn content_has_tag(content: Seq<char>, tag: Seq<char>) -> bool {
    match note_tags(content) {
        Ok(Some(tags)) => tags.contains(tag),
        _ => false,
    }
}

/// Whether the note's frontmatter carries `tag` as its only tag.
pub open spec fn content_has_only_tag(content: Seq<char>, tag: Seq<char>) -> bool {
    match note_tags(content) {
        Ok(Some(tags)) => tags.len() == 1 && tags.contains(tag),
        _ => false,
    }
}

/// Whether `tags` holds `tag`.
fn tags_contain(tags: &Vec<String>, tag: &str) -> (r: bool)
    ensures
        r == tag_views(tags@).contains(tag@),
{
    let key = String::from_str(tag);
    let mut i: usize = 0;
    while i < tags.len()
        invariant
            i <= tags@.len(),
            key@ == tag@,
            forall|j: int| 0 <= j < i ==> tag_views(tags@)[j] != tag@,
        decreases tags@.len() - i,
    {
        if tags[i] == key {
            proof {
                assert(tag_views(tags@)[i as int] == tag@);
            }
            return true;
        }
        i = i + 1;
    }
    proof {
        if tag_views(tags@).contains(tag@) {
            let w = choose|w: int|
                0 <= w < tag_views(tags@).len() && tag_views(tags@)[w] == tag@;
            assert(tag_views(tags@)[w] != tag@);
        }
    }
    false
}

/// Whether the note text carries `tag` in its frontmatter.
pub fn contains_tag_in(content: &str, tag: &str) -> (r: bool)
    ensures
        r == content_has_tag(content@, tag@),
{
    match parse_frontmatter(content) {
        Ok(fm) => match fm.tags {
            Some(tags) => tags_contain(&tags, tag),
            None => false,
        },
        Err(_) => false,
    }
}

/// Whether the note text carries `tag` as the only tag in its frontmatter.
pub fn has_only_tag_in(content: &str, tag: &str) -> (r: bool)
    ensures
        r == content_has_only_tag(content@, tag@),
{
    match parse_frontmatter(content) {
        Ok(fm) => match fm.tags {
            Some(tags) => tags.len() == 1 && tags_contain(&tags, tag),
            None => false,
        },
        Err(_) => false,
    }
}

} // verus!

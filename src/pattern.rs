//! Motif patterns: a PAM or a guide filter, written with `N` as a wildcard for
//! any of the four bases and matched without regard to case.

use regex::Regex;
use vstd::prelude::*;
use vstd::string::StringSliceAdditionalSpecFns;

use crate::errors::RuntimeError;

verus! {

#[verifier::external_type_specification]
#[verifier::external_body]
pub struct ExRegex(regex::Regex);

#[verifier::external_type_specification]
#[verifier::external_body]
pub struct ExRegexError(regex::Error);

/// Whether `Regex::new` accepts this pattern text.
pub uninterp spec fn regex_accepts(pattern: Seq<char>) -> bool;

/// A pattern text from which `Regex::new` builds a regex that matches as `re`
/// does; for a regex that `Regex::new` built, the text it was built from.
pub uninterp spec fn regex_source(re: Regex) -> Seq<char>;

/// Whether the regex built from `pattern` matches somewhere in `text`.
pub uninterp spec fn regex_finds(pattern: Seq<char>, text: Seq<char>) -> bool;

/// The end offsets of the successive non-overlapping matches of the regex
/// built from `pattern` in `text`, from left to right.
pub uninterp spec fn regex_match_ends(pattern: Seq<char>, text: Seq<char>) -> Seq<usize>;

/// Relies on regex's `Regex::new`: it fails exactly on the patterns that the
/// regex syntax (and its default size limits) refuse, and the regex it builds
/// keeps the text it was built from.
#[verifier::external_body]
fn new_regex(pattern: &str) -> (r: Result<Regex, regex::Error>)
    ensures
        r is Ok <==> regex_accepts(pattern@),
        r matches Ok(re) ==> regex_source(re) == pattern@,
{
    Regex::new(pattern)
}

/// Relies on regex's `Regex::is_match`: whether the regex matches anywhere in
/// the text, which depends on the pattern and the text alone.
#[verifier::external_body]
pub(crate) fn regex_is_match(re: &Regex, text: &str) -> (r: bool)
    ensures
        r == regex_finds(regex_source(*re), text@),
{
    re.is_match(text)
}

/// Relies on regex's `Regex::find_iter` and `Match::end`: the byte offsets at
/// which the successive non-overlapping matches end, none past the text's end.
#[verifier::external_body]
pub(crate) fn regex_find_ends(re: &Regex, text: &str) -> (r: Vec<usize>)
    ensures
        r@ == regex_match_ends(regex_source(*re), text@),
        forall|i: int| 0 <= i < r@.len() ==> r@[i] <= text.spec_bytes().len(),
{
    re.find_iter(text).map(|m| m.end()).collect()
}

/// Whether a motif character is the wildcard for any base.
pub open spec fn is_wildcard(c: char) -> bool {
    c == 'N' || c == 'n'
}

/// The character class that stands for any one base, in either case.
pub open spec fn base_class() -> Seq<char> {
    seq!['[', 'a', 'g', 'c', 't', 'A', 'G', 'C', 'T', ']']
}

/// `p` with every wildcard replaced by the class of the four bases.
pub open spec fn expand_wildcards(p: Seq<char>) -> Seq<char>
    decreases p.len(),
{
    if p.len() == 0 {
        seq![]
    } else if is_wildcard(p.last()) {
        expand_wildcards(p.drop_last()) + base_class()
    } else {
        expand_wildcards(p.drop_last()).push(p.last())
    }
}

/// The regex text that a motif compiles to: the expanded motif behind the
/// flag that makes the match ignore case.
pub open spec fn motif_regex(p: Seq<char>) -> Seq<char> {
    seq!['(', '?', 'i', ')'] + expand_wildcards(p)
}

/// Whether the motif `p` occurs somewhere in `text`.
pub open spec fn motif_found(p: Seq<char>, text: Seq<char>) -> bool {
    regex_finds(motif_regex(p), text)
}

/// Rewrites every `N` or `n` of a motif as the class of the four bases.
pub fn expand_motif(p: &str) -> (r: String)
    ensures
        r@ == expand_wildcards(p@),
{
    let n = p.unicode_len();
    let mut out = String::new();
    let mut i: usize = 0;
    while i < n
        invariant
            n == p@.len(),
            i <= n,
            out@ == expand_wildcards(p@.subrange(0, i as int)),
        decreases n - i,
    {
        let c = p.get_char(i);
        let ghost prefix = p@.subrange(0, i as int + 1);
        assert(prefix.drop_last() =~= p@.subrange(0, i as int));
        assert(prefix.last() == c);
        if c == 'N' || c == 'n' {
            let class = "[agctAGCT]";
            proof {
                reveal_strlit("[agctAGCT]");
            }
            assert(class@ =~= base_class());
            out.append(class);
        } else {
            let one = p.substring_char(i, i + 1);
            assert(one@ =~= seq![c]);
            out.append(one);
        }
        i = i + 1;
    }
    assert(p@.subrange(0, n as int) =~= p@);
    out
}

/// Compiles a motif into a case-insensitive regex in which each wildcard
/// matches any base.
pub fn compile_re_pam_gfxc(p: &str) -> (r: Result<Regex, RuntimeError>)
    ensures
        r is Ok <==> regex_accepts(motif_regex(p@)),
        r matches Ok(re) ==> regex_source(re) == motif_regex(p@),
        r matches Err(e) ==> e == RuntimeError::InvalidPAM,
{
    let mut text = String::from_str("(?i)");
    proof {
        reveal_strlit("(?i)");
    }
    let expanded = expand_motif(p);
    text.append(expanded.as_str());
    assert(text@ =~= motif_regex(p@));
    match new_regex(text.as_str()) {
        Ok(re) => Ok(re),
        Err(_) => Err(RuntimeError::InvalidPAM),
    }
}

} // verus!

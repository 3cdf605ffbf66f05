//! Candidate generation on one strand and the filters that narrow the
//! candidates down.
//!
//! Anchor convention: a PAM occurrence is anchored at the end of its match,
//! and the guide is the `size` bases that end at the anchor, on the strand's
//! own coordinates. The same rule holds on both strands.

use regex::Regex;
use vstd::prelude::*;
use vstd::string::StringSliceAdditionalSpecFns;
use vstd::utf8::{encode_utf8, encode_utf8_decode_utf8};

use crate::errors::RuntimeError;
use crate::pattern::{
    compile_re_pam_gfxc, motif_regex, regex_accepts, regex_find_ends, regex_finds, regex_is_match,
    regex_match_ends, regex_source,
};

verus! {

/// A guide candidate: its sequence, borrowed from the strand it was found on,
/// and the offset of the PAM anchor on that strand.
#[derive(Debug, Clone, Copy)]
pub struct Grna<'a> {
    pub sequence: &'a str,
    pub position: usize,
}

impl<'a> View for Grna<'a> {
    type V = (Seq<char>, usize);

    open spec fn view(&self) -> (Seq<char>, usize) {
        (self.sequence@, self.position)
    }
}

/// The abstract content of a list of candidates.
pub open spec fn guide_views<'a>(v: Seq<Grna<'a>>) -> Seq<(Seq<char>, usize)> {
    v.map_values(|g: Grna<'a>| g@)
}

/// Whether some candidate of `gs` has the sequence `t`.
pub open spec fn has_text(gs: Seq<(Seq<char>, usize)>, t: Seq<char>) -> bool {
    exists|j: int| 0 <= j < gs.len() && (#[trigger] gs[j]).0 == t
}

/// No two candidates of `gs` share a sequence.
pub open spec fn distinct_texts(gs: Seq<(Seq<char>, usize)>) -> bool {
    forall|i: int, j: int| 0 <= i < j < gs.len() ==> (#[trigger] gs[i]).0 != (#[trigger] gs[j]).0
}

/// The guides that the anchors `ends` give on strand `s`: for each anchor with
/// at least `size` bases before it, those bases, unless an earlier anchor
/// already gave the same sequence.
pub open spec fn guides_from(s: Seq<char>, ends: Seq<usize>, size: usize) -> Seq<(Seq<char>, usize)>
    decreases ends.len(),
{
    if ends.len() == 0 {
        seq![]
    } else {
        let prev = guides_from(s, ends.drop_last(), size);
        let e = ends.last();
        let t = s.subrange(e - size, e as int);
        if e < size || has_text(prev, t) {
            prev
        } else {
            prev.push((t, e))
        }
    }
}

/// The guides that a list of anchors gives have distinct sequences.
pub proof fn lemma_guides_distinct(s: Seq<char>, ends: Seq<usize>, size: usize)
    ensures
        distinct_texts(guides_from(s, ends, size)),
    decreases ends.len(),
{
    if ends.len() > 0 {
        let prev = guides_from(s, ends.drop_last(), size);
        lemma_guides_distinct(s, ends.drop_last(), size);
        let e = ends.last();
        if !(e < size || has_text(prev, s.subrange(e - size, e as int))) {
            let all = prev.push((s.subrange(e - size, e as int), e));
            assert forall|i: int, j: int| 0 <= i < j < all.len() implies (#[trigger] all[i]).0 != (#[trigger] all[j]).0 by {
                if j == all.len() - 1 {
                    if all[i].0 == all[j].0 {
                        assert(prev[i].0 == s.subrange(e - size, e as int));
                    }
                }
            }
        }
    }
}

/// Each guide that a list of anchors within the strand gives is the `size`
/// bases of the strand that end at its anchor.
pub proof fn lemma_guides_end_at_anchor(s: Seq<char>, ends: Seq<usize>, size: usize)
    requires
        forall|i: int| 0 <= i < ends.len() ==> ends[i] <= s.len(),
    ensures
        forall|i: int|
            0 <= i < guides_from(s, ends, size).len() ==> {
                let g = #[trigger] guides_from(s, ends, size)[i];
                &&& size <= g.1 <= s.len()
                &&& g.0 == s.subrange(g.1 - size, g.1 as int)
                &&& g.0.len() == size
            },
    decreases ends.len(),
{
    if ends.len() > 0 {
        let prev = guides_from(s, ends.drop_last(), size);
        lemma_guides_end_at_anchor(s, ends.drop_last(), size);
        let e = ends.last();
        assert(e <= s.len());
        let all = guides_from(s, ends, size);
        assert forall|i: int| 0 <= i < all.len() implies ({
            let g = #[trigger] all[i];
            &&& size <= g.1 <= s.len()
            &&& g.0 == s.subrange(g.1 - size, g.1 as int)
            &&& g.0.len() == size
        }) by {
            if i < prev.len() {
                assert(all[i] == prev[i]);
            }
        }
    }
}

/// Whether two texts are the same.
fn same_text(a: &str, b: &str) -> (r: bool)
    ensures
        r == (a@ == b@),
{
    let ab = a.as_bytes();
    let bb = b.as_bytes();
    proof {
        encode_utf8_decode_utf8(a@);
        encode_utf8_decode_utf8(b@);
    }
    if ab.len() != bb.len() {
        return false;
    }
    let mut i: usize = 0;
    while i < ab.len()
        invariant
            ab@ == a.spec_bytes(),
            bb@ == b.spec_bytes(),
            ab@.len() == bb@.len(),
            i <= ab@.len(),
            forall|k: int| 0 <= k < i ==> ab@[k] == bb@[k],
        decreases ab@.len() - i,
    {
        if ab[i] != bb[i] {
            return false;
        }
        i = i + 1;
    }
    assert(ab@ =~= bb@);
    true
}

/// The end offsets of the PAM matches on `s`, or `None` when there is none.
pub fn re_pam_search(s: &str, re: &Regex) -> (r: Option<Vec<usize>>)
    ensures
        r is None <==> regex_match_ends(regex_source(*re), s@).len() == 0,
        r matches Some(v) ==> v@ == regex_match_ends(regex_source(*re), s@),
        r matches Some(v) ==> forall|i: int| 0 <= i < v@.len() ==> v@[i] <= s.spec_bytes().len(),
{
    let ends = regex_find_ends(re, s);
    if ends.len() == 0 {
        None
    } else {
        Some(ends)
    }
}

/// The guides that the anchors `indexes` give on the strand `s`, in the order
/// of the anchors, each sequence kept once; `None` when there is none.
pub fn extract_grna_seq<'a>(s: &'a str, indexes: Vec<usize>, size: &usize) -> (r: Option<Vec<Grna<'a>>>)
    requires
        s.is_ascii(),
        forall|i: int| 0 <= i < indexes@.len() ==> indexes@[i] <= s@.len(),
    ensures
        r is None <==> guides_from(s@, indexes@, *size).len() == 0,
        r matches Some(v) ==> guide_views(v@) == guides_from(s@, indexes@, *size),
{
    let size = *size;
    let mut kept: Vec<Grna<'a>> = Vec::new();
    let mut i: usize = 0;
    while i < indexes.len()
        invariant
            s.is_ascii(),
            forall|k: int| 0 <= k < indexes@.len() ==> indexes@[k] <= s@.len(),
            i <= indexes@.len(),
            guide_views(kept@) == guides_from(s@, indexes@.subrange(0, i as int), size),
        decreases indexes@.len() - i,
    {
        let end = indexes[i];
        let ghost before = indexes@.subrange(0, i as int);
        assert(indexes@.subrange(0, i as int + 1).drop_last() =~= before);
        if end >= size {
            let t = s.substring_ascii(end - size, end);
            let mut seen = false;
            let mut j: usize = 0;
            while j < kept.len()
                invariant
                    j <= kept@.len(),
                    seen == exists|k: int| 0 <= k < j && (#[trigger] kept@[k]).sequence@ == t@,
                decreases kept@.len() - j,
            {
                if !seen && same_text(kept[j].sequence, t) {
                    seen = true;
                }
                j = j + 1;
            }
            let ghost views = guide_views(kept@);
            assert(seen == has_text(views, t@)) by {
                if seen {
                    let k = choose|k: int| 0 <= k < kept@.len() && (#[trigger] kept@[k]).sequence@ == t@;
                    assert(views[k].0 == t@);
                }
                if has_text(views, t@) {
                    let k = choose|k: int| 0 <= k < views.len() && (#[trigger] views[k]).0 == t@;
                    assert(kept@[k].sequence@ == t@);
                }
            }
            if !seen {
                kept.push(Grna { sequence: t, position: end });
                assert(guide_views(kept@) =~= views.push((t@, end)));
            }
        }
        i = i + 1;
    }
    assert(indexes@.subrange(0, indexes@.len() as int) =~= indexes@);
    if kept.len() == 0 {
        None
    } else {
        Some(kept)
    }
}

/// Whether a byte is a G or a C, in either case.
pub open spec fn is_gc(b: u8) -> bool {
    b == 67u8 || b == 71u8 || b == 99u8 || b == 103u8
}

/// The number of G and C bytes in `b`.
pub open spec fn gc_count(b: Seq<u8>) -> nat
    decreases b.len(),
{
    if b.len() == 0 {
        0
    } else {
        gc_count(b.drop_last()) + if is_gc(b.last()) {
            1nat
        } else {
            0nat
        }
    }
}

/// Whether the GC content of `b`, in percent, lies strictly between `min` and
/// `max`. An empty sequence has a GC content of zero.
pub open spec fn gc_within(b: Seq<u8>, min: int, max: int) -> bool {
    if b.len() == 0 {
        min < 0 && 0 < max
    } else {
        min * b.len() < 100 * gc_count(b) && 100 * gc_count(b) < max * b.len()
    }
}

/// Whether a candidate passes the GC bounds.
pub open spec fn passes_gc(g: (Seq<char>, usize), min: int, max: int) -> bool {
    gc_within(encode_utf8(g.0), min, max)
}

/// Whether a candidate holds no match of the regex text `src`.
pub open spec fn passes_exclusion(g: (Seq<char>, usize), src: Seq<char>) -> bool {
    !regex_finds(src, g.0)
}

/// Whether a candidate holds a match of the regex text `src`.
pub open spec fn passes_inclusion(g: (Seq<char>, usize), src: Seq<char>) -> bool {
    regex_finds(src, g.0)
}

proof fn lemma_views_step<'a>(v: Seq<Grna<'a>>, i: int)
    requires
        0 <= i < v.len(),
    ensures
        guide_views(v.subrange(0, i + 1)).drop_last() == guide_views(v.subrange(0, i)),
        guide_views(v.subrange(0, i + 1)).last() == v[i]@,
        guide_views(v.subrange(0, i + 1)).len() > 0,
{
    assert(guide_views(v.subrange(0, i + 1)).drop_last() =~= guide_views(v.subrange(0, i)));
}

/// Whether the GC content of `t` lies strictly between `min` and `max` percent.
fn gc_in_bounds(t: &str, min: i64, max: i64) -> (r: bool)
    ensures
        r == gc_within(t.spec_bytes(), min as int, max as int),
{
    let b = t.as_bytes();
    let n = b.len();
    let mut count: usize = 0;
    let mut i: usize = 0;
    while i < n
        invariant
            n == b@.len(),
            i <= n,
            count == gc_count(b@.subrange(0, i as int)),
            count <= i,
        decreases n - i,
    {
        assert(b@.subrange(0, i as int + 1).drop_last() =~= b@.subrange(0, i as int));
        let c = b[i];
        if c == 67u8 || c == 71u8 || c == 99u8 || c == 103u8 {
            count = count + 1;
        }
        i = i + 1;
    }
    assert(b@.subrange(0, n as int) =~= b@);
    if n == 0 {
        return min < 0 && 0 < max;
    }
    let len = n as i128;
    let gc = count as i128;
    assert(-0x8000_0000_0000_0000 * 0x1_0000_0000_0000_0000 <= (min as int) * (len as int)
        < 0x8000_0000_0000_0000 * 0x1_0000_0000_0000_0000) by (nonlinear_arith)
        requires
            -0x8000_0000_0000_0000 <= min < 0x8000_0000_0000_0000,
            0 <= len < 0x1_0000_0000_0000_0000,
    ;
    assert(-0x8000_0000_0000_0000 * 0x1_0000_0000_0000_0000 <= (max as int) * (len as int)
        < 0x8000_0000_0000_0000 * 0x1_0000_0000_0000_0000) by (nonlinear_arith)
        requires
            -0x8000_0000_0000_0000 <= max < 0x8000_0000_0000_0000,
            0 <= len < 0x1_0000_0000_0000_0000,
    ;
    let low = (min as i128) * len;
    let high = (max as i128) * len;
    let pct = 100 * gc;
    low < pct && pct < high
}

/// Keeps the candidates whose GC content lies strictly between `min` and
/// `max` percent, in their order; `None` when none is left.
pub fn gc_filter<'a>(candidates: Vec<Grna<'a>>, min: &i64, max: &i64) -> (r: Option<Vec<Grna<'a>>>)
    ensures
        r is None <==> guide_views(candidates@).filter(|g| passes_gc(g, *min as int, *max as int)).len() == 0,
        r matches Some(v) ==> guide_views(v@) == guide_views(candidates@).filter(
            |g| passes_gc(g, *min as int, *max as int),
        ),
{
    let ghost pred = |g: (Seq<char>, usize)| passes_gc(g, *min as int, *max as int);
    let mut kept: Vec<Grna<'a>> = Vec::new();
    let mut i: usize = 0;
    while i < candidates.len()
        invariant
            i <= candidates@.len(),
            pred == (|g: (Seq<char>, usize)| passes_gc(g, *min as int, *max as int)),
            guide_views(kept@) == guide_views(candidates@.subrange(0, i as int)).filter(pred),
        decreases candidates@.len() - i,
    {
        let g = candidates[i];
        proof {
            lemma_views_step(candidates@, i as int);
        }
        let ghost s1 = guide_views(candidates@.subrange(0, i as int + 1));
        let ghost before = guide_views(kept@);
        assert(s1.filter(pred) == if pred(s1.last()) {
            s1.drop_last().filter(pred).push(s1.last())
        } else {
            s1.drop_last().filter(pred)
        }) by {
            reveal(Seq::filter);
        }
        if gc_in_bounds(g.sequence, *min, *max) {
            kept.push(g);
            assert(guide_views(kept@) =~= before.push(g@));
        }
        assert(guide_views(kept@) =~= guide_views(candidates@.subrange(0, i as int + 1)).filter(pred));
        i = i + 1;
    }
    assert(candidates@.subrange(0, candidates@.len() as int) =~= candidates@);
    if kept.len() == 0 {
        None
    } else {
        Some(kept)
    }
}

/// Drops the candidates in which the exclusion motif occurs, keeping the
/// order of the others; `None` when none is left.
pub fn exclude_grna<'a>(candidates: Vec<Grna<'a>>, gf_xc: &Regex) -> (r: Option<Vec<Grna<'a>>>)
    ensures
        r is None <==> guide_views(candidates@).filter(|g| passes_exclusion(g, regex_source(*gf_xc))).len() == 0,
        r matches Some(v) ==> guide_views(v@) == guide_views(candidates@).filter(
            |g| passes_exclusion(g, regex_source(*gf_xc)),
        ),
{
    let ghost pred = |g: (Seq<char>, usize)| passes_exclusion(g, regex_source(*gf_xc));
    let mut kept: Vec<Grna<'a>> = Vec::new();
    let mut i: usize = 0;
    while i < candidates.len()
        invariant
            i <= candidates@.len(),
            pred == (|g: (Seq<char>, usize)| passes_exclusion(g, regex_source(*gf_xc))),
            guide_views(kept@) == guide_views(candidates@.subrange(0, i as int)).filter(pred),
        decreases candidates@.len() - i,
    {
        let g = candidates[i];
        proof {
            lemma_views_step(candidates@, i as int);
        }
        let ghost s1 = guide_views(candidates@.subrange(0, i as int + 1));
        let ghost before = guide_views(kept@);
        assert(s1.filter(pred) == if pred(s1.last()) {
            s1.drop_last().filter(pred).push(s1.last())
        } else {
            s1.drop_last().filter(pred)
        }) by {
            reveal(Seq::filter);
        }
        if !regex_is_match(gf_xc, g.sequence) {
            kept.push(g);
            assert(guide_views(kept@) =~= before.push(g@));
        }
        assert(guide_views(kept@) =~= guide_views(candidates@.subrange(0, i as int + 1)).filter(pred));
        i = i + 1;
    }
    assert(candidates@.subrange(0, candidates@.len() as int) =~= candidates@);
    if kept.len() == 0 {
        None
    } else {
        Some(kept)
    }
}

/// Keeps the candidates in which the inclusion motif occurs, in their order;
/// `None` when none is left.
pub fn include_grna<'a>(candidates: Vec<Grna<'a>>, gf_ic: &Regex) -> (r: Option<Vec<Grna<'a>>>)
    ensures
        r is None <==> guide_views(candidates@).filter(|g| passes_inclusion(g, regex_source(*gf_ic))).len() == 0,
        r matches Some(v) ==> guide_views(v@) == guide_views(candidates@).filter(
            |g| passes_inclusion(g, regex_source(*gf_ic)),
        ),
{
    let ghost pred = |g: (Seq<char>, usize)| passes_inclusion(g, regex_source(*gf_ic));
    let mut kept: Vec<Grna<'a>> = Vec::new();
    let mut i: usize = 0;
    while i < candidates.len()
        invariant
            i <= candidates@.len(),
            pred == (|g: (Seq<char>, usize)| passes_inclusion(g, regex_source(*gf_ic))),
            guide_views(kept@) == guide_views(candidates@.subrange(0, i as int)).filter(pred),
        decreases candidates@.len() - i,
    {
        let g = candidates[i];
        proof {
            lemma_views_step(candidates@, i as int);
        }
        let ghost s1 = guide_views(candidates@.subrange(0, i as int + 1));
        let ghost before = guide_views(kept@);
        assert(s1.filter(pred) == if pred(s1.last()) {
            s1.drop_last().filter(pred).push(s1.last())
        } else {
            s1.drop_last().filter(pred)
        }) by {
            reveal(Seq::filter);
        }
        if regex_is_match(gf_ic, g.sequence) {
            kept.push(g);
            assert(guide_views(kept@) =~= before.push(g@));
        }
        assert(guide_views(kept@) =~= guide_views(candidates@.subrange(0, i as int + 1)).filter(pred));
        i = i + 1;
    }
    assert(candidates@.subrange(0, candidates@.len() as int) =~= candidates@);
    if kept.len() == 0 {
        None
    } else {
        Some(kept)
    }
}

/// The candidates of each strand that survived the search and the filters.
/// A strand with no survivor has no entry.
#[derive(Debug)]
pub struct StrandGuides<'a> {
    pub forward: Option<Vec<Grna<'a>>>,
    pub reverse: Option<Vec<Grna<'a>>>,
}

/// The candidates of one entry; none for an absent entry.
pub open spec fn entry_view<'a>(e: Option<Vec<Grna<'a>>>) -> Seq<(Seq<char>, usize)> {
    match e {
        Some(v) => guide_views(v@),
        None => seq![],
    }
}

impl<'a> StrandGuides<'a> {
    /// Every entry that is present holds at least one candidate.
    pub open spec fn wf(&self) -> bool {
        &&& (self.forward matches Some(v) ==> v@.len() > 0)
        &&& (self.reverse matches Some(v) ==> v@.len() > 0)
    }

    /// All candidates, those of the forward strand first.
    pub fn into_candidates(self) -> (r: Vec<Grna<'a>>)
        ensures
            guide_views(r@) == entry_view(self.forward) + entry_view(self.reverse),
    {
        let mut all: Vec<Grna<'a>> = match self.forward {
            Some(v) => v,
            None => Vec::new(),
        };
        let ghost front = all@;
        if let Some(mut rv) = self.reverse {
            let ghost back = rv@;
            all.append(&mut rv);
            assert(guide_views(all@) =~= guide_views(front) + guide_views(back));
        } else {
            assert(guide_views(all@) =~= guide_views(front) + seq![]);
        }
        all
    }
}

/// The regex text of an optional compiled pattern.
pub open spec fn optional_source(o: Option<Regex>) -> Option<Seq<char>> {
    match o {
        Some(re) => Some(regex_source(re)),
        None => None,
    }
}

/// The regex text of an optional motif, where the empty motif means none.
pub open spec fn optional_motif(p: Seq<char>) -> Option<Seq<char>> {
    if p.len() == 0 {
        None
    } else {
        Some(motif_regex(p))
    }
}

/// The candidates of strand `s`: the guides that the matches of the regex
/// text `pam` give, narrowed by GC content, then by the exclusion regex text
/// if there is one, then by the inclusion regex text if there is one.
pub open spec fn strand_guides(
    s: Seq<char>,
    pam: Seq<char>,
    size: usize,
    xc: Option<Seq<char>>,
    ic: Option<Seq<char>>,
    min: int,
    max: int,
) -> Seq<(Seq<char>, usize)> {
    let found = guides_from(s, regex_match_ends(pam, s), size);
    let by_gc = found.filter(|g| passes_gc(g, min, max));
    let by_xc = match xc {
        Some(p) => by_gc.filter(|g| passes_exclusion(g, p)),
        None => by_gc,
    };
    match ic {
        Some(p) => by_xc.filter(|g| passes_inclusion(g, p)),
        None => by_xc,
    }
}

proof fn lemma_filter_keeps_distinct(gs: Seq<(Seq<char>, usize)>, pred: spec_fn((Seq<char>, usize)) -> bool)
    requires
        distinct_texts(gs),
    ensures
        distinct_texts(gs.filter(pred)),
    decreases gs.len(),
{
    reveal(Seq::filter);
    if gs.len() > 0 {
        let rest = gs.drop_last();
        assert(distinct_texts(rest));
        lemma_filter_keeps_distinct(rest, pred);
        let kept = rest.filter(pred);
        if pred(gs.last()) {
            let all = kept.push(gs.last());
            assert forall|i: int, j: int| 0 <= i < j < all.len() implies (#[trigger] all[i]).0 != (#[trigger] all[j]).0 by {
                if j == all.len() - 1 {
                    assert(kept.contains(all[i]));
                    rest.lemma_filter_contains_rev(pred, all[i]);
                    let k = choose|k: int| 0 <= k < rest.len() && rest[k] == all[i];
                    assert(gs[k] == rest[k]);
                }
            }
        }
    }
}

/// The candidates that one strand yields have distinct sequences, whatever
/// the filters.
pub proof fn lemma_strand_guides_distinct(
    s: Seq<char>,
    pam: Seq<char>,
    size: usize,
    xc: Option<Seq<char>>,
    ic: Option<Seq<char>>,
    min: int,
    max: int,
)
    ensures
        distinct_texts(strand_guides(s, pam, size, xc, ic, min, max)),
{
    let found = guides_from(s, regex_match_ends(pam, s), size);
    lemma_guides_distinct(s, regex_match_ends(pam, s), size);
    let by_gc = found.filter(|g| passes_gc(g, min, max));
    lemma_filter_keeps_distinct(found, |g| passes_gc(g, min, max));
    let by_xc = match xc {
        Some(p) => by_gc.filter(|g| passes_exclusion(g, p)),
        None => by_gc,
    };
    if let Some(p) = xc {
        lemma_filter_keeps_distinct(by_gc, |g| passes_exclusion(g, p));
    }
    if let Some(p) = ic {
        lemma_filter_keeps_distinct(by_xc, |g| passes_inclusion(g, p));
    }
}

proof fn lemma_filter_empty(s: Seq<(Seq<char>, usize)>, pred: spec_fn((Seq<char>, usize)) -> bool)
    requires
        s.len() == 0,
    ensures
        s.filter(pred).len() == 0,
{
    reveal(Seq::filter);
}

/// Searches one strand for candidates and applies the configured filters in
/// their fixed order; `None` when no candidate is left.
pub fn run_thread<'a>(
    s: &'a str,
    comp_p: &Regex,
    gf_size: &usize,
    comp_xc: &Option<Regex>,
    comp_ic: &Option<Regex>,
    gf_min_gc: &i64,
    gf_max_gc: &i64,
) -> (r: Option<Vec<Grna<'a>>>)
    requires
        s.is_ascii(),
    ensures
        ({
            let expected = strand_guides(
                s@,
                regex_source(*comp_p),
                *gf_size,
                optional_source(*comp_xc),
                optional_source(*comp_ic),
                *gf_min_gc as int,
                *gf_max_gc as int,
            );
            &&& (r is None <==> expected.len() == 0)
            &&& (r matches Some(v) ==> guide_views(v@) == expected)
        }),
{
    let ghost min = *gf_min_gc as int;
    let ghost max = *gf_max_gc as int;
    let ghost found = guides_from(s@, regex_match_ends(regex_source(*comp_p), s@), *gf_size);
    let ghost by_gc = found.filter(|g| passes_gc(g, min, max));
    let ghost by_xc = match optional_source(*comp_xc) {
        Some(p) => by_gc.filter(|g| passes_exclusion(g, p)),
        None => by_gc,
    };
    let ghost all = match optional_source(*comp_ic) {
        Some(p) => by_xc.filter(|g| passes_inclusion(g, p)),
        None => by_xc,
    };
    proof {
        vstd::string::is_ascii_spec_bytes(s);
    }
    let ends = match re_pam_search(s, comp_p) {
        Some(e) => e,
        None => {
            proof {
                assert(regex_match_ends(regex_source(*comp_p), s@) =~= seq![]);
                assert(found =~= seq![]);
                lemma_filter_empty(found, |g| passes_gc(g, min, max));
                if let Some(p) = optional_source(*comp_xc) {
                    lemma_filter_empty(by_gc, |g| passes_exclusion(g, p));
                }
                if let Some(p) = optional_source(*comp_ic) {
                    lemma_filter_empty(by_xc, |g| passes_inclusion(g, p));
                }
            }
            return None;
        },
    };
    let mut candidates = match extract_grna_seq(s, ends, gf_size) {
        Some(c) => c,
        None => {
            proof {
                lemma_filter_empty(found, |g| passes_gc(g, min, max));
                if let Some(p) = optional_source(*comp_xc) {
                    lemma_filter_empty(by_gc, |g| passes_exclusion(g, p));
                }
                if let Some(p) = optional_source(*comp_ic) {
                    lemma_filter_empty(by_xc, |g| passes_inclusion(g, p));
                }
            }
            return None;
        },
    };
    candidates = match gc_filter(candidates, gf_min_gc, gf_max_gc) {
        Some(c) => c,
        None => {
            proof {
                if let Some(p) = optional_source(*comp_xc) {
                    lemma_filter_empty(by_gc, |g| passes_exclusion(g, p));
                }
                if let Some(p) = optional_source(*comp_ic) {
                    lemma_filter_empty(by_xc, |g| passes_inclusion(g, p));
                }
            }
            return None;
        },
    };
    if let Some(xc) = comp_xc {
        candidates = match exclude_grna(candidates, xc) {
            Some(c) => c,
            None => {
                proof {
                    if let Some(p) = optional_source(*comp_ic) {
                        lemma_filter_empty(by_xc, |g| passes_inclusion(g, p));
                    }
                }
                return None;
            },
        };
    }
    if let Some(ic) = comp_ic {
        candidates = match include_grna(candidates, ic) {
            Some(c) => c,
            None => {
                return None;
            },
        };
    }
    Some(candidates)
}

/// What stops a search before any strand is looked at: the first configured
/// motif, in the order PAM, exclusion, inclusion, that does not compile.
pub open spec fn pattern_error(p: Seq<char>, xc: Seq<char>, ic: Seq<char>) -> Option<RuntimeError> {
    if !regex_accepts(motif_regex(p)) {
        Some(RuntimeError::InvalidPAM)
    } else if xc.len() > 0 && !regex_accepts(motif_regex(xc)) {
        Some(RuntimeError::InvalidGRNAExclusionPattern)
    } else if ic.len() > 0 && !regex_accepts(motif_regex(ic)) {
        Some(RuntimeError::InvalidPAM)
    } else {
        None
    }
}

/// Compiles an optional motif; the empty motif means none.
fn compile_optional(p: &str, fail: RuntimeError) -> (r: Result<Option<Regex>, RuntimeError>)
    ensures
        p@.len() > 0 && !regex_accepts(motif_regex(p@)) ==> r == Err::<Option<Regex>, RuntimeError>(fail),
        !(p@.len() > 0 && !regex_accepts(motif_regex(p@))) ==> (r matches Ok(o) && optional_source(o) == optional_motif(p@)),
{
    if p.is_empty() {
        Ok(None)
    } else {
        match compile_re_pam_gfxc(p) {
            Ok(re) => Ok(Some(re)),
            Err(_) => Err(fail),
        }
    }
}

/// Searches both strands for guides: compiles the PAM and the configured
/// motifs, then searches and filters the forward strand `s` and the reverse
/// strand `rv` alike.
pub fn run<'a>(
    s: &'a str,
    rv: &'a str,
    p: &str,
    gf_size: &usize,
    gf_xc_pattern: &str,
    gf_ic_pattern: &str,
    gf_min_gc: &i64,
    gf_max_gc: &i64,
) -> (r: Result<StrandGuides<'a>, RuntimeError>)
    requires
        s.is_ascii(),
        rv.is_ascii(),
    ensures
        pattern_error(p@, gf_xc_pattern@, gf_ic_pattern@) matches Some(e) ==> r == Err::<StrandGuides<'a>, RuntimeError>(e),
        pattern_error(p@, gf_xc_pattern@, gf_ic_pattern@) is None ==> ({
            let fw = strand_guides(s@, motif_regex(p@), *gf_size, optional_motif(gf_xc_pattern@),
                optional_motif(gf_ic_pattern@), *gf_min_gc as int, *gf_max_gc as int);
            let rc = strand_guides(rv@, motif_regex(p@), *gf_size, optional_motif(gf_xc_pattern@),
                optional_motif(gf_ic_pattern@), *gf_min_gc as int, *gf_max_gc as int);
            &&& (r is Err <==> fw.len() == 0 && rc.len() == 0)
            &&& (r matches Err(e) ==> e == RuntimeError::NoGuidesFound)
            &&& (r matches Ok(m) ==> m.wf() && entry_view(m.forward) == fw && entry_view(m.reverse) == rc)
        }),
{
    let compiled_p = match compile_re_pam_gfxc(p) {
        Ok(re) => re,
        Err(e) => {
            return Err(e);
        },
    };
    let compiled_xc = match compile_optional(gf_xc_pattern, RuntimeError::InvalidGRNAExclusionPattern) {
        Ok(o) => o,
        Err(e) => {
            return Err(e);
        },
    };
    let compiled_ic = match compile_optional(gf_ic_pattern, RuntimeError::InvalidPAM) {
        Ok(o) => o,
        Err(e) => {
            return Err(e);
        },
    };
    let reverse = run_thread(rv, &compiled_p, gf_size, &compiled_xc, &compiled_ic, gf_min_gc, gf_max_gc);
    let forward = run_thread(s, &compiled_p, gf_size, &compiled_xc, &compiled_ic, gf_min_gc, gf_max_gc);
    if forward.is_none() && reverse.is_none() {
        Err(RuntimeError::NoGuidesFound)
    } else {
        Ok(StrandGuides { forward, reverse })
    }
}

} // verus!

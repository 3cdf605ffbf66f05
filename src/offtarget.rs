//! The off-target scan: each candidate is aligned against what is left of a
//! reference sequence, window after window, and the alignments that score high
//! enough are kept as off-target hits.

use bio::alignment::pairwise::{Aligner, MatchParams};
use vstd::prelude::*;
use vstd::string::StringSliceAdditionalSpecFns;
use vstd::utf8::encode_utf8;

use crate::errors::RuntimeError;
use crate::grnas::{guide_views, Grna};

verus! {

#[verifier::external_type_specification]
pub struct ExMatchParams(MatchParams);

/// A pairwise aligner of bio, reused from one alignment to the next. Verus
/// refuses a declaration of bio's `Aligner` (its bound names a trait of bio),
/// so it is held here, out of Verus's sight.
#[verifier::external_body]
pub struct PairAligner {
    inner: Aligner<MatchParams>,
}

/// The scoring an aligner was built with: gap open cost, gap extend cost,
/// match score, mismatch score.
pub uninterp spec fn aligner_scoring(a: PairAligner) -> (i32, i32, i32, i32);

/// The score, and the start and the end in `y`, of the semiglobal alignment
/// (`x` whole, any stretch of `y`) under the given scoring.
pub uninterp spec fn semiglobal_alignment(scoring: (i32, i32, i32, i32), x: Seq<u8>, y: Seq<u8>) -> (i32, usize, usize);

impl PairAligner {
    /// Relies on bio's `pairwise::Aligner::new`: it panics on a positive gap
    /// cost, and otherwise keeps the gap costs and the substitution scores
    /// given.
    #[verifier::external_body]
    fn with_scores(gap_open: i32, gap_extend: i32, scores: MatchParams) -> (r: PairAligner)
        requires
            gap_open <= 0,
            gap_extend <= 0,
        ensures
            aligner_scoring(r) == (gap_open, gap_extend, scores.match_score, scores.mismatch_score),
    {
        PairAligner { inner: Aligner::new(gap_open, gap_extend, scores) }
    }

    /// An aligner with the given gap costs that scores +1 for a match and -1
    /// for a mismatch.
    pub fn new(gap_open: i32, gap_extend: i32) -> (r: PairAligner)
        requires
            gap_open <= 0,
            gap_extend <= 0,
        ensures
            aligner_scoring(r) == unit_scoring(gap_open, gap_extend),
    {
        PairAligner::with_scores(gap_open, gap_extend, MatchParams { match_score: 1, mismatch_score: -1 })
    }

    /// Relies on bio's `pairwise::Aligner::semiglobal`: the result depends on
    /// the scoring and the two texts alone (the scratch space is reset on each
    /// call and the scoring restored), with `ystart <= yend <= y.len()`. Its
    /// `i32` arithmetic stays in range for costs and scores of at most 1000 in
    /// size and texts of at most a million bytes together.
    #[verifier::external_body]
    fn semiglobal(&mut self, x: &[u8], y: &[u8]) -> (r: (i32, usize, usize))
        requires
            scoring_in_range(aligner_scoring(*old(self))),
            x@.len() + y@.len() <= 1_000_000,
        ensures
            r == semiglobal_alignment(aligner_scoring(*old(self)), x@, y@),
            r.1 <= r.2 <= y@.len(),
            aligner_scoring(*final(self)) == aligner_scoring(*old(self)),
    {
        let a = self.inner.semiglobal(x, y);
        (a.score, a.ystart, a.yend)
    }
}

/// Costs and scores small enough for the aligner's arithmetic.
pub open spec fn scoring_in_range(sc: (i32, i32, i32, i32)) -> bool {
    &&& -1000 <= sc.0 <= 0
    &&& -1000 <= sc.1 <= 0
    &&& -1000 <= sc.2 <= 1000
    &&& -1000 <= sc.3 <= 1000
}

/// The scoring of the scan: the given gap costs, +1 for a match, -1 for a
/// mismatch.
pub open spec fn unit_scoring(gap_open: i32, gap_extend: i32) -> (i32, i32, i32, i32) {
    (gap_open, gap_extend, 1i32, -1i32)
}

/// An off-target hit: the alignment score and where the aligned stretch of
/// the reference starts and ends.
#[derive(Debug, Clone, Copy, PartialEq, Eq, Structural)]
pub struct OffTarget {
    pub score: i32,
    pub ystart: usize,
    pub yend: usize,
}

impl View for OffTarget {
    type V = (int, int, int);

    open spec fn view(&self) -> (int, int, int) {
        (self.score as int, self.ystart as int, self.yend as int)
    }
}

impl OffTarget {
    pub fn new(score: i32, ystart: usize, yend: usize) -> (r: Self)
        ensures
            r == (OffTarget { score, ystart, yend }),
    {
        OffTarget { score, ystart, yend }
    }
}

/// The abstract content of a list of hits.
pub open spec fn hit_views(v: Seq<OffTarget>) -> Seq<(int, int, int)> {
    v.map_values(|h: OffTarget| h@)
}

/// A candidate together with its off-target hits, in the order of the scan.
#[derive(Debug)]
pub struct OffTargetList<'a> {
    pub guide: Grna<'a>,
    pub off_targets: Vec<OffTarget>,
}

impl<'a> OffTargetList<'a> {
    pub fn new(guide: Grna<'a>, off_targets: Vec<OffTarget>) -> (r: Self)
        ensures
            r.guide == guide,
            r.off_targets@ == off_targets@,
    {
        OffTargetList { guide, off_targets }
    }
}

/// The hits of guide `x` in the rest `y` of the reference, which starts at
/// `offset` in the reference. The scan stops when fewer than `desired` bases
/// are left, when the alignment scores zero, or when it ends at the very
/// start of `y` (nothing would be consumed); otherwise the alignment counts
/// as a hit if it scores at least `desired`, and the scan goes on after the
/// end of the alignment.
pub open spec fn scan_hits(sc: (i32, i32, i32, i32), x: Seq<u8>, y: Seq<u8>, offset: int, desired: int) -> Seq<(int, int, int)>
    decreases y.len(),
{
    if y.len() < desired {
        seq![]
    } else {
        let a = semiglobal_alignment(sc, x, y);
        if a.0 == 0 || a.2 == 0 || a.2 > y.len() {
            seq![]
        } else {
            let rest = scan_hits(sc, x, y.subrange(a.2 as int, y.len() as int), offset + a.2, desired);
            if a.0 >= desired {
                seq![(a.0 as int, offset + a.1, offset + a.2)] + rest
            } else {
                rest
            }
        }
    }
}

/// When the alignment of a guide against the whole remaining reference
/// scores zero, the scan of that guide ends there with no hit, whatever the
/// threshold.
pub proof fn lemma_zero_score_ends_scan(
    sc: (i32, i32, i32, i32),
    x: Seq<u8>,
    y: Seq<u8>,
    offset: int,
    desired: int,
)
    requires
        semiglobal_alignment(sc, x, y).0 == 0,
    ensures
        scan_hits(sc, x, y, offset, desired).len() == 0,
{
}

/// Every hit of a scan scores at least the threshold and starts and ends
/// within the scanned stretch of the reference, and each hit ends before the
/// next one starts.
pub proof fn lemma_scan_hits_ordered(
    sc: (i32, i32, i32, i32),
    x: Seq<u8>,
    y: Seq<u8>,
    offset: int,
    desired: int,
)
    ensures
        forall|i: int|
            0 <= i < scan_hits(sc, x, y, offset, desired).len() ==> {
                let h = #[trigger] scan_hits(sc, x, y, offset, desired)[i];
                &&& h.0 >= desired
                &&& offset <= h.1
                &&& h.2 <= offset + y.len()
            },
        forall|i: int|
            0 <= i < scan_hits(sc, x, y, offset, desired).len() - 1 ==> #[trigger] scan_hits(sc, x, y, offset, desired)[i].2
                <= scan_hits(sc, x, y, offset, desired)[i + 1].1,
    decreases y.len(),
{
    if y.len() >= desired {
        let a = semiglobal_alignment(sc, x, y);
        if !(a.0 == 0 || a.2 == 0 || a.2 > y.len()) {
            let y2 = y.subrange(a.2 as int, y.len() as int);
            lemma_scan_hits_ordered(sc, x, y2, offset + a.2, desired);
            let rest = scan_hits(sc, x, y2, offset + a.2, desired);
            if a.0 >= desired {
                let all = seq![(a.0 as int, offset + a.1, offset + a.2)] + rest;
                assert(scan_hits(sc, x, y, offset, desired) == all);
                assert forall|i: int| 0 <= i < all.len() - 1 implies #[trigger] all[i].2 <= all[i + 1].1 by {
                    if i > 0 {
                        assert(all[i] == rest[i - 1]);
                        assert(all[i + 1] == rest[i]);
                    } else if rest.len() > 0 {
                        assert(all[1] == rest[0]);
                    }
                }
                assert forall|i: int| 0 <= i < all.len() implies ({
                    let h = #[trigger] all[i];
                    &&& h.0 >= desired
                    &&& offset <= h.1
                &&& h.2 <= offset + y.len()
                }) by {
                    if i > 0 {
                        assert(all[i] == rest[i - 1]);
                    }
                }
            }
        }
    }
}

/// Scans the reference `s2` for off-target hits of the guide `s1`, handing the
/// aligner back for the next guide; `None` when there is no hit.
pub fn run_alignment(
    s1: &str,
    s2: &str,
    aligner: PairAligner,
    gf_size: &usize,
    minimum_mismatch: &usize,
) -> (r: (PairAligner, Option<Vec<OffTarget>>))
    requires
        scoring_in_range(aligner_scoring(aligner)),
        *minimum_mismatch <= *gf_size,
        s1.spec_bytes().len() + s2.spec_bytes().len() <= 1_000_000,
    ensures
        aligner_scoring(r.0) == aligner_scoring(aligner),
        ({
            let hits = scan_hits(aligner_scoring(aligner), encode_utf8(s1@), encode_utf8(s2@), 0,
                *gf_size - *minimum_mismatch);
            &&& (r.1 is None <==> hits.len() == 0)
            &&& (r.1 matches Some(v) ==> hit_views(v@) == hits)
        }),
{
    let mut aligner = aligner;
    let ghost sc = aligner_scoring(aligner);
    let x = s1.as_bytes();
    let whole = s2.as_bytes();
    let desired = *gf_size - *minimum_mismatch;
    let ghost total = scan_hits(sc, x@, whole@, 0, desired as int);
    let mut matches: Vec<OffTarget> = Vec::new();
    let mut reref: &[u8] = whole;
    let mut offset: usize = 0;
    assert(whole@.subrange(0, whole@.len() as int) =~= whole@);
    loop
        invariant
            aligner_scoring(aligner) == sc,
            scoring_in_range(sc),
            x@ == encode_utf8(s1@),
            whole@ == encode_utf8(s2@),
            x@.len() + whole@.len() <= 1_000_000,
            offset + reref@.len() == whole@.len(),
            reref@ == whole@.subrange(offset as int, whole@.len() as int),
            hit_views(matches@) + scan_hits(sc, x@, reref@, offset as int, desired as int) == total,
        ensures
            aligner_scoring(aligner) == sc,
            hit_views(matches@) == total,
        decreases reref@.len(),
    {
        if reref.len() < desired {
            assert(hit_views(matches@) + seq![] =~= hit_views(matches@));
            break;
        }
        let (score, ystart, yend) = aligner.semiglobal(x, reref);
        if score == 0 || yend == 0 {
            assert(hit_views(matches@) + seq![] =~= hit_views(matches@));
            break;
        }
        let ghost before = hit_views(matches@);
        let ghost rest = scan_hits(sc, x@, reref@.subrange(yend as int, reref@.len() as int), offset + yend, desired as int);
        if score >= 0 && score as usize >= desired {
            let hit = OffTarget::new(score, offset + ystart, offset + yend);
            matches.push(hit);
            assert(hit_views(matches@) =~= before.push(hit@));
            assert(before + (seq![hit@] + rest) =~= before.push(hit@) + rest);
        }
        let (_, tail) = reref.split_at(yend);
        reref = tail;
        offset = offset + yend;
        assert(reref@ =~= whole@.subrange(offset as int, whole@.len() as int));
    }
    if matches.len() == 0 {
        (aligner, None)
    } else {
        (aligner, Some(matches))
    }
}

/// The off-target reports of the candidates `cands` against the reference
/// `y`: one per candidate with at least one hit, in the order of the
/// candidates.
pub open spec fn scan_reports(
    sc: (i32, i32, i32, i32),
    cands: Seq<(Seq<char>, usize)>,
    y: Seq<u8>,
    desired: int,
) -> Seq<((Seq<char>, usize), Seq<(int, int, int)>)>
    decreases cands.len(),
{
    if cands.len() == 0 {
        seq![]
    } else {
        let prev = scan_reports(sc, cands.drop_last(), y, desired);
        let hits = scan_hits(sc, encode_utf8(cands.last().0), y, 0, desired);
        if hits.len() == 0 {
            prev
        } else {
            prev.push((cands.last(), hits))
        }
    }
}

/// The abstract content of a list of reports.
pub open spec fn report_views<'a>(v: Seq<OffTargetList<'a>>) -> Seq<((Seq<char>, usize), Seq<(int, int, int)>)> {
    v.map_values(|l: OffTargetList<'a>| (l.guide@, hit_views(l.off_targets@)))
}

/// Scans the reference for off-target hits of every candidate, with one
/// aligner for all of them. Candidates without a hit get no report; `None`
/// when no candidate has one.
pub fn run<'a>(
    candidates: Vec<Grna<'a>>,
    reference: &str,
    gf_size: &usize,
    go: &i32,
    ge: &i32,
    minimum_mismatch: &usize,
) -> (r: Result<Option<Vec<OffTargetList<'a>>>, RuntimeError>)
    requires
        -1000 <= *go <= 0,
        -1000 <= *ge <= 0,
        *minimum_mismatch <= *gf_size,
        forall|i: int|
            0 <= i < candidates@.len() ==> (#[trigger] candidates@[i]).sequence.spec_bytes().len()
                + reference.spec_bytes().len() <= 1_000_000,
    ensures
        ({
            let reports = scan_reports(unit_scoring(*go, *ge), guide_views(candidates@),
                encode_utf8(reference@), *gf_size - *minimum_mismatch);
            &&& r matches Ok(o)
            &&& (o is None <==> reports.len() == 0)
            &&& (o matches Some(v) ==> report_views(v@) == reports)
        }),
{
    let ghost sc = unit_scoring(*go, *ge);
    let ghost desired = *gf_size - *minimum_mismatch;
    let ghost y = encode_utf8(reference@);
    let mut aligner = PairAligner::new(*go, *ge);
    let mut result: Vec<OffTargetList<'a>> = Vec::new();
    let mut i: usize = 0;
    while i < candidates.len()
        invariant
            i <= candidates@.len(),
            aligner_scoring(aligner) == sc,
            scoring_in_range(sc),
            desired == *gf_size - *minimum_mismatch,
            *minimum_mismatch <= *gf_size,
            y == encode_utf8(reference@),
            forall|k: int|
                0 <= k < candidates@.len() ==> (#[trigger] candidates@[k]).sequence.spec_bytes().len()
                    + reference.spec_bytes().len() <= 1_000_000,
            report_views(result@) == scan_reports(sc, guide_views(candidates@.subrange(0, i as int)), y, desired),
        decreases candidates@.len() - i,
    {
        let cand = candidates[i];
        let ghost views = guide_views(candidates@.subrange(0, i as int + 1));
        assert(views.drop_last() =~= guide_views(candidates@.subrange(0, i as int)));
        assert(views.last() == cand@);
        let ghost before = report_views(result@);
        let (next, found) = run_alignment(cand.sequence, reference, aligner, gf_size, minimum_mismatch);
        aligner = next;
        if let Some(list) = found {
            let report = OffTargetList::new(cand, list);
            result.push(report);
            assert(report_views(result@) =~= before.push((cand@, hit_views(report.off_targets@))));
        }
        i = i + 1;
    }
    assert(candidates@.subrange(0, candidates@.len() as int) =~= candidates@);
    if result.len() == 0 {
        Ok(None)
    } else {
        Ok(Some(result))
    }
}

} // verus!

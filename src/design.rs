//! A guide design session: the validated sequences and the settings of the
//! search, and its two operations.

use vstd::prelude::*;
use vstd::string::StringSliceAdditionalSpecFns;
use vstd::utf8::encode_utf8;

use crate::dna::{complement_byte, get_revcomp, is_dna, is_dna_text, reverse_complement};
use crate::errors::RuntimeError;
use crate::grnas::{entry_view, guide_views, optional_motif, pattern_error, run, strand_guides, Grna, StrandGuides};
use crate::offtarget::{report_views, scan_reports, unit_scoring, OffTargetList};
use crate::pattern::motif_regex;

verus! {

/// The sequences and settings of one guide design. It is only built from
/// sequences made of bases, and it does not change afterwards.
#[derive(Debug)]
pub struct GuideDesign {
    seq: String,
    ot_search: String,
    revcomp: String,
    pam: String,
    gf_size: usize,
    gf_xc_pattern: String,
    gf_ic_pattern: String,
    gf_min_gc: i64,
    gf_max_gc: i64,
    ot_go: i32,
    ot_ge: i32,
    ot_mm: usize,
}

/// Text made of bases is ASCII.
proof fn lemma_dna_is_ascii(s: Seq<char>)
    requires
        is_dna(s),
    ensures
        vstd::utf8::is_ascii_chars(s),
{
    assert forall|i: int| 0 <= i < s.len() implies '\0' <= #[trigger] s[i] <= '\u{7f}' by {
        assert(crate::dna::is_dna_char(s[i]));
    }
}

impl GuideDesign {
    /// The forward strand.
    pub closed spec fn sequence(&self) -> Seq<char> {
        self.seq@
    }

    /// The reference searched for off-targets.
    pub closed spec fn reference(&self) -> Seq<char> {
        self.ot_search@
    }

    /// The reverse strand.
    pub closed spec fn reverse_strand(&self) -> Seq<char> {
        self.revcomp@
    }

    /// The PAM motif.
    pub closed spec fn pam(&self) -> Seq<char> {
        self.pam@
    }

    /// The guide length.
    pub closed spec fn guide_size(&self) -> usize {
        self.gf_size
    }

    /// The exclusion motif; empty when not configured.
    pub closed spec fn exclusion(&self) -> Seq<char> {
        self.gf_xc_pattern@
    }

    /// The inclusion motif; empty when not configured.
    pub closed spec fn inclusion(&self) -> Seq<char> {
        self.gf_ic_pattern@
    }

    /// The GC bounds, in percent, both exclusive.
    pub closed spec fn gc_bounds(&self) -> (i64, i64) {
        (self.gf_min_gc, self.gf_max_gc)
    }

    /// The alignment settings: gap open cost, gap extend cost, mismatches
    /// tolerated.
    pub closed spec fn alignment_settings(&self) -> (i32, i32, usize) {
        (self.ot_go, self.ot_ge, self.ot_mm)
    }

    /// Both sequences are made of bases and the reverse strand is the reverse
    /// complement of the forward one.
    pub closed spec fn wf(&self) -> bool {
        &&& is_dna(self.seq@)
        &&& is_dna(self.ot_search@)
        &&& self.revcomp@ == reverse_complement(self.seq@)
    }

    /// Starts a design: checks that both sequences are made of bases and
    /// computes the reverse strand.
    pub fn new(
        s: String,
        ots: String,
        p: String,
        gf_size: usize,
        gf_xc_pattern: String,
        gf_ic_pattern: String,
        gf_min_gc: i64,
        gf_max_gc: i64,
        ot_go: i32,
        ot_ge: i32,
        ot_mm: usize,
    ) -> (r: Result<Self, RuntimeError>)
        ensures
            r is Err <==> !(is_dna(s@) && is_dna(ots@)),
            r matches Err(e) ==> e == RuntimeError::IncorrectDNASequence,
            r matches Ok(g) ==> {
                &&& g.wf()
                &&& g.sequence() == s@
                &&& g.reference() == ots@
                &&& g.reverse_strand() == reverse_complement(s@)
                &&& g.pam() == p@
                &&& g.guide_size() == gf_size
                &&& g.exclusion() == gf_xc_pattern@
                &&& g.inclusion() == gf_ic_pattern@
                &&& g.gc_bounds() == (gf_min_gc, gf_max_gc)
                &&& g.alignment_settings() == (ot_go, ot_ge, ot_mm)
            },
    {
        if !is_dna_text(s.as_str()) || !is_dna_text(ots.as_str()) {
            return Err(RuntimeError::IncorrectDNASequence);
        }
        let s_text = s.as_str();
        let check_s = s_text.as_bytes();
        proof {
            lemma_dna_is_ascii(s@);
            vstd::string::is_ascii_spec_bytes(s_text);
            assert forall|i: int| 0 <= i < check_s@.len() implies crate::dna::is_dna_byte(#[trigger] check_s@[i]) by {
                assert(crate::dna::is_dna_char(s@[i]));
            }
        }
        let rc = match get_revcomp(check_s) {
            Ok(t) => t,
            Err(e) => {
                return Err(e);
            },
        };
        proof {
            let n = s@.len();
            assert forall|i: int| 0 <= i < n implies rc@[i] == #[trigger] reverse_complement(s@)[i] by {
                assert(crate::dna::is_dna_char(s@[n - 1 - i]));
                assert(check_s@[n - 1 - i] == s@[n - 1 - i] as u8);
            }
            assert(rc@ =~= reverse_complement(s@));
        }
        Ok(GuideDesign {
            seq: s,
            ot_search: ots,
            revcomp: rc,
            pam: p,
            gf_size,
            gf_xc_pattern,
            gf_ic_pattern,
            gf_min_gc,
            gf_max_gc,
            ot_go,
            ot_ge,
            ot_mm,
        })
    }

    /// Searches both strands for guides with the PAM and filters of this
    /// design.
    pub fn idgrnas(&self) -> (r: Result<StrandGuides<'_>, RuntimeError>)
        requires
            self.wf(),
        ensures
            pattern_error(self.pam(), self.exclusion(), self.inclusion()) matches Some(e) ==> r
                == Err::<StrandGuides<'_>, RuntimeError>(e),
            pattern_error(self.pam(), self.exclusion(), self.inclusion()) is None ==> ({
                let fw = strand_guides(self.sequence(), motif_regex(self.pam()), self.guide_size(),
                    optional_motif(self.exclusion()), optional_motif(self.inclusion()),
                    self.gc_bounds().0 as int, self.gc_bounds().1 as int);
                let rc = strand_guides(self.reverse_strand(), motif_regex(self.pam()), self.guide_size(),
                    optional_motif(self.exclusion()), optional_motif(self.inclusion()),
                    self.gc_bounds().0 as int, self.gc_bounds().1 as int);
                &&& (r is Err <==> fw.len() == 0 && rc.len() == 0)
                &&& (r matches Err(e) ==> e == RuntimeError::NoGuidesFound)
                &&& (r matches Ok(m) ==> m.wf() && entry_view(m.forward) == fw && entry_view(m.reverse) == rc)
            }),
    {
        proof {
            lemma_dna_is_ascii(self.seq@);
            assert forall|i: int| 0 <= i < self.revcomp@.len() implies crate::dna::is_dna_char(#[trigger] self.revcomp@[i]) by {
                assert(crate::dna::is_dna_char(self.seq@[self.seq@.len() - 1 - i]));
            }
            lemma_dna_is_ascii(self.revcomp@);
        }
        run(
            self.seq.as_str(),
            self.revcomp.as_str(),
            self.pam.as_str(),
            &self.gf_size,
            self.gf_xc_pattern.as_str(),
            self.gf_ic_pattern.as_str(),
            &self.gf_min_gc,
            &self.gf_max_gc,
        )
    }

    /// Scans this design's reference for off-targets of the candidates.
    pub fn idofftargets<'a>(&self, grnas: Vec<Grna<'a>>) -> (r: Result<Option<Vec<OffTargetList<'a>>>, RuntimeError>)
        requires
            -1000 <= self.alignment_settings().0 <= 0,
            -1000 <= self.alignment_settings().1 <= 0,
            self.alignment_settings().2 <= self.guide_size(),
            forall|i: int|
                0 <= i < grnas@.len() ==> encode_utf8((#[trigger] grnas@[i]).sequence@).len()
                    + encode_utf8(self.reference()).len() <= 1_000_000,
        ensures
            ({
                let reports = scan_reports(
                    unit_scoring(self.alignment_settings().0, self.alignment_settings().1),
                    guide_views(grnas@),
                    encode_utf8(self.reference()),
                    self.guide_size() - self.alignment_settings().2,
                );
                &&& r matches Ok(o)
                &&& (o is None <==> reports.len() == 0)
                &&& (o matches Some(v) ==> report_views(v@) == reports)
            }),
    {
        crate::offtarget::run(grnas, self.ot_search.as_str(), &self.gf_size, &self.ot_go, &self.ot_ge, &self.ot_mm)
    }
}

} // verus!

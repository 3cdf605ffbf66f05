use nucleoguide::grnas::Grna;
use nucleoguide::offtarget::{run, run_alignment, OffTarget, PairAligner};

#[test]
fn offtarget_empty_input_strings() {
    let aligner = PairAligner::new(-1, -1);
    let gf_size = 5;
    let mm = 1;
    assert!(run_alignment("", "", aligner, &gf_size, &mm).1.is_none());
}

#[test]
fn offtarget_identical_dna_strings() {
    let aligner = PairAligner::new(-1, -1);
    let gf_size = 5;
    let mm = 1;
    let s1 = "ATCG";
    let s2 = "ATCG";
    assert_eq!(run_alignment(s1, s2, aligner, &gf_size, &mm).1.unwrap().len(), 1);
}

#[test]
fn offtarget_different_dna_strings_with_matching_substring() {
    let aligner = PairAligner::new(-1, -1);
    let gf_size = 5;
    let mm = 1;
    let s1 = "ATCGAATT";
    let s2 = "CAATTGAG";
    let run = run_alignment(s1, s2, aligner, &gf_size, &mm);
    assert!(run.1.is_none())
}

#[test]
fn identical_hit_has_full_score_and_span() {
    let aligner = PairAligner::new(-1, -1);
    let hits = run_alignment("ATCG", "ATCG", aligner, &5, &1).1.unwrap();
    assert_eq!(hits, vec![OffTarget::new(4, 0, 4)]);
}

#[test]
fn zero_score_ends_the_scan() {
    let aligner = PairAligner::new(-1, -1);
    let (_, hits) = run_alignment("AC", "AG", aligner, &2, &0);
    assert!(hits.is_none());
}

#[test]
fn hits_carry_reference_coordinates() {
    let aligner = PairAligner::new(-1, -1);
    let hits = run_alignment("ACGT", "ACGTTTTTACGA", aligner, &4, &2).1.unwrap();
    assert_eq!(hits, vec![OffTarget::new(4, 0, 4), OffTarget::new(2, 8, 12)]);
}

#[test]
fn scan_omits_candidates_without_hits() {
    let a = Grna { sequence: "ACGT", position: 4 };
    let b = Grna { sequence: "GGGG", position: 8 };
    let reports = run(vec![a, b], "TTACGTTT", &4, &-1, &-1, &0).unwrap().unwrap();
    assert_eq!(reports.len(), 1);
    assert_eq!(reports[0].guide.sequence, "ACGT");
    assert_eq!(reports[0].off_targets, vec![OffTarget::new(4, 2, 6)]);
}

#[test]
fn scan_without_any_hit_gives_none() {
    let b = Grna { sequence: "GGGG", position: 8 };
    assert!(run(vec![b], "TTACGTTT", &4, &-1, &-1, &0).unwrap().is_none());
    assert!(run(Vec::new(), "TTACGTTT", &4, &-1, &-1, &0).unwrap().is_none());
}

use nucleoguide::grnas::{
    exclude_grna, extract_grna_seq, gc_filter, include_grna, re_pam_search, run, run_thread, Grna,
};
use nucleoguide::pattern::{compile_re_pam_gfxc, expand_motif};
use nucleoguide::RuntimeError;

const CAS9_UPPER: &str = "NGG";
const CAS9_LOWER: &str = "ngg";
const GRNA_SIZE: usize = 20;
const MIN_GC: i64 = 0;
const MAX_GC: i64 = 100;
const LONG_SEQ: &str = "AGCTTAGCTAGGAAGCTTAGCTAGGAAGCTTAGCTAGGAAGCTTAGCTAGGAACGCATGACTAGCATGCATGCATCGTACGTAGCTTTAAATCGATAGG";

#[test]
fn cas9_pam() {
    let _result = compile_re_pam_gfxc(&CAS9_UPPER.to_string()).unwrap();
}

#[test]
fn cas9_lowercase_pam() {
    let _result = compile_re_pam_gfxc(&CAS9_LOWER.to_string()).unwrap();
}

#[test]
fn basic_search() {
    let seq = String::from("AGCTTAGCTAGGA");
    let compiled_re = compile_re_pam_gfxc(&CAS9_UPPER.to_string()).unwrap();
    let result = re_pam_search(&seq, &compiled_re).unwrap();
    assert_eq!(result, [12])
}

#[test]
fn basic_lowercase_search() {
    let seq = String::from("AGCTTAGCTAGGA");
    let compiled_re = compile_re_pam_gfxc(&CAS9_LOWER.to_string()).unwrap();
    let result = re_pam_search(&seq, &compiled_re).unwrap();
    assert_eq!(result, [12])
}

#[test]
fn multiple_search() {
    let seq = String::from("AGCTTAGCTAGGAAGCTTAGCTAGGAAGCTTAGCTAGGAAGCTTAGCTAGGA");
    let compiled_re = compile_re_pam_gfxc(&CAS9_UPPER.to_string()).unwrap();
    let result = re_pam_search(&seq, &compiled_re).unwrap();
    assert_eq!(result, [12, 25, 38, 51])
}

#[test]
fn single_str_select() {
    let seq = String::from("AGCTTAGCTAGGAAGCTTAGCTAGGAAGCTTAGCTAGGAAGCTTAGCTAGGA");
    let compiled_re = compile_re_pam_gfxc(&CAS9_UPPER.to_string()).unwrap();
    let index = re_pam_search(&seq, &compiled_re).unwrap();
    let result = extract_grna_seq(&seq, index, &GRNA_SIZE).unwrap();
    assert_eq!(result.len(), 1)
}

#[test]
fn multiple_str_select() {
    let seq = String::from(LONG_SEQ);
    let compiled_re = compile_re_pam_gfxc(&CAS9_UPPER.to_string()).unwrap();
    let index = re_pam_search(&seq, &compiled_re).unwrap();
    let result = extract_grna_seq(&seq, index, &GRNA_SIZE).unwrap();
    assert_eq!(result.len(), 2)
}

#[test]
#[should_panic]
fn fail_str_select() {
    let seq = String::from("AGCTTAGCTAGG");
    let compiled_re = compile_re_pam_gfxc(&CAS9_UPPER.to_string()).unwrap();
    let index = re_pam_search(&seq, &compiled_re).unwrap();
    let result = extract_grna_seq(&seq, index, &GRNA_SIZE).unwrap();
    assert_eq!(result.len(), 2)
}

#[test]
fn grna_exclusion() {
    let seq = String::from(LONG_SEQ);
    let compiled_re = compile_re_pam_gfxc(&CAS9_UPPER.to_string()).unwrap();
    let compiled_gf_xc = compile_re_pam_gfxc(&"AGC".to_string()).unwrap();
    let index = re_pam_search(&seq, &compiled_re).unwrap();
    let result_1 = extract_grna_seq(&seq, index, &GRNA_SIZE).unwrap();
    let result = exclude_grna(result_1, &compiled_gf_xc);
    assert!(result.is_none())
}

#[test]
fn grna_inclusion() {
    let seq = String::from(LONG_SEQ);
    let compiled_re = compile_re_pam_gfxc(&CAS9_UPPER.to_string()).unwrap();
    let compiled_gf_xc = compile_re_pam_gfxc(&"TTT".to_string()).unwrap();
    let index = re_pam_search(&seq, &compiled_re).unwrap();
    let result_1 = extract_grna_seq(&seq, index, &GRNA_SIZE).unwrap();
    let result = include_grna(result_1, &compiled_gf_xc);
    assert_eq!(result.unwrap().len(), 1)
}

#[test]
fn grna_exclusion_with_n() {
    let seq = String::from(LONG_SEQ);
    let compiled_re = compile_re_pam_gfxc(&CAS9_UPPER.to_string()).unwrap();
    let compiled_gf_xc = compile_re_pam_gfxc(&"n".to_string()).unwrap();
    let index = re_pam_search(&seq, &compiled_re).unwrap();
    let result_1 = extract_grna_seq(&seq, index, &GRNA_SIZE).unwrap();
    let result = exclude_grna(result_1, &compiled_gf_xc);
    assert!(result.is_none())
}

#[test]
fn thread_test() {
    let seq = String::from(LONG_SEQ);
    let compiled_re = compile_re_pam_gfxc(&CAS9_UPPER.to_string()).unwrap();
    let compiled_gf_xc = Some(compile_re_pam_gfxc(&"TTT".to_string()).unwrap());
    let compiled_gf_ic = None;
    let result = run_thread(&seq, &compiled_re, &GRNA_SIZE, &compiled_gf_xc, &compiled_gf_ic, &MIN_GC, &MAX_GC);
    assert_eq!(result.unwrap().len(), 1)
}

#[test]
fn thread_test_2() {
    let seq = String::from(LONG_SEQ);
    let compiled_re = compile_re_pam_gfxc(&CAS9_UPPER.to_string()).unwrap();
    let compiled_gf_xc = None;
    let compiled_gf_ic = Some(compile_re_pam_gfxc(&"TTTT".to_string()).unwrap());
    let result = run_thread(&seq, &compiled_re, &GRNA_SIZE, &compiled_gf_xc, &compiled_gf_ic, &MIN_GC, &MAX_GC);
    assert!(result.is_none())
}

#[test]
fn thread_test_3() {
    let seq = String::from(LONG_SEQ);
    let compiled_re = compile_re_pam_gfxc(&CAS9_UPPER.to_string()).unwrap();
    let compiled_gf_xc = None;
    let compiled_gf_ic = Some(compile_re_pam_gfxc(&"TTTT".to_string()).unwrap());
    let result = run_thread(&seq, &compiled_re, &GRNA_SIZE, &compiled_gf_xc, &compiled_gf_ic, &MIN_GC, &MAX_GC);
    assert!(result.is_none())
}

#[test]
fn thread_test_4_gc() {
    let seq = String::from(LONG_SEQ);
    let compiled_re = compile_re_pam_gfxc(&CAS9_UPPER.to_string()).unwrap();
    let compiled_gf_xc = None;
    let compiled_gf_ic = None;
    let min: i64 = 40;
    let max: i64 = 70;
    let result = run_thread(&seq, &compiled_re, &GRNA_SIZE, &compiled_gf_xc, &compiled_gf_ic, &min, &max);
    assert_eq!(result.unwrap().len(), 1)
}

#[test]
fn wildcard_expands_to_base_class() {
    assert_eq!(expand_motif("NGG"), "[agctAGCT]GG");
    assert_eq!(expand_motif("nGnA"), "[agctAGCT]G[agctAGCT]A");
    assert_eq!(expand_motif(""), "");
}

#[test]
fn upper_and_lower_pam_match_alike() {
    let upper = compile_re_pam_gfxc("NGG").unwrap();
    let lower = compile_re_pam_gfxc("ngg").unwrap();
    for text in ["AGG", "CGG", "GGG", "TGG", "agg", "tGg", "AGC", "GAG", "NGG", "AG"] {
        assert_eq!(upper.is_match(text), lower.is_match(text), "{}", text);
    }
    for base in ["A", "C", "G", "T", "a", "c", "g", "t"] {
        assert!(upper.is_match(&format!("{}GG", base)));
    }
    assert!(!upper.is_match("NGG"));
    assert!(!upper.is_match("AGC"));
}

#[test]
fn invalid_motif_is_refused() {
    assert_eq!(compile_re_pam_gfxc("(").unwrap_err(), RuntimeError::InvalidPAM);
    assert_eq!(compile_re_pam_gfxc("AG[").unwrap_err(), RuntimeError::InvalidPAM);
}

#[test]
fn search_without_match_gives_none() {
    let re = compile_re_pam_gfxc("NGG").unwrap();
    assert!(re_pam_search("ACACACAC", &re).is_none());
    assert!(re_pam_search("", &re).is_none());
}

#[test]
fn short_anchor_is_skipped() {
    let result = run_thread("AGCTTAGCTAGGA", &compile_re_pam_gfxc("NGG").unwrap(), &20, &None, &None, &MIN_GC, &MAX_GC);
    assert!(result.is_none());
}

#[test]
fn extract_takes_bases_ending_at_anchor() {
    let seq = "AACCGGTTAAGG";
    let result = extract_grna_seq(seq, vec![4, 12, 2, 8], &4).unwrap();
    let got: Vec<(&str, usize)> = result.iter().map(|g| (g.sequence, g.position)).collect();
    assert_eq!(got, vec![("AACC", 4), ("AAGG", 12), ("GGTT", 8)]);
}

#[test]
fn extract_keeps_first_of_equal_sequences() {
    let seq = "ACGTACGT";
    let result = extract_grna_seq(seq, vec![4, 8], &4).unwrap();
    assert_eq!(result.len(), 1);
    assert_eq!(result[0].sequence, "ACGT");
    assert_eq!(result[0].position, 4);
}

#[test]
fn multiplicity_of_repeats() {
    let seq = "AGCTTAGCTAGGAAGCTTAGCTAGGAAGCTTAGCTAGGAAGCTTAGCTAGGA";
    let result = run_thread(seq, &compile_re_pam_gfxc("NGG").unwrap(), &20, &None, &None, &MIN_GC, &MAX_GC).unwrap();
    assert_eq!(result.len(), 1);
    assert_eq!(result[0].sequence, "AGCTAGGAAGCTTAGCTAGG");
    assert_eq!(result[0].position, 25);
}

#[test]
fn gc_bounds_are_exclusive() {
    let g = Grna { sequence: "AACG", position: 4 };
    assert_eq!(gc_filter(vec![g], &49, &51).unwrap().len(), 1);
    assert!(gc_filter(vec![g], &50, &51).is_none());
    assert!(gc_filter(vec![g], &49, &50).is_none());
    let low = Grna { sequence: "aacg", position: 8 };
    assert_eq!(gc_filter(vec![low], &49, &51).unwrap().len(), 1);
}

#[test]
fn gc_filter_keeps_order() {
    let a = Grna { sequence: "GGCC", position: 4 };
    let b = Grna { sequence: "ATAT", position: 8 };
    let c = Grna { sequence: "GCAT", position: 12 };
    let d = Grna { sequence: "CGTA", position: 16 };
    let kept = gc_filter(vec![a, b, c, d], &10, &90).unwrap();
    let got: Vec<usize> = kept.iter().map(|g| g.position).collect();
    assert_eq!(got, vec![12, 16]);
}

#[test]
fn empty_guide_has_zero_gc() {
    let g = Grna { sequence: "", position: 0 };
    assert!(gc_filter(vec![g], &0, &100).is_none());
    assert_eq!(gc_filter(vec![g], &-1, &100).unwrap().len(), 1);
}

#[test]
fn inclusion_selects_one_of_two() {
    let a = Grna { sequence: "ACTTTG", position: 6 };
    let b = Grna { sequence: "ACTTAG", position: 12 };
    let re = compile_re_pam_gfxc("TTT").unwrap();
    let kept = include_grna(vec![a, b], &re).unwrap();
    assert_eq!(kept.len(), 1);
    assert_eq!(kept[0].position, 6);
    let dropped = exclude_grna(vec![a, b], &re).unwrap();
    assert_eq!(dropped.len(), 1);
    assert_eq!(dropped[0].position, 12);
}

#[test]
fn run_reports_pattern_errors_in_order() {
    let s = LONG_SEQ;
    assert_eq!(run(s, s, "(", &20, "", "", &0, &100).unwrap_err(), RuntimeError::InvalidPAM);
    assert_eq!(run(s, s, "NGG", &20, "(", "", &0, &100).unwrap_err(), RuntimeError::InvalidGRNAExclusionPattern);
    assert_eq!(run(s, s, "NGG", &20, "", "(", &0, &100).unwrap_err(), RuntimeError::InvalidPAM);
    assert_eq!(run(s, s, "NGG", &20, "(", "(", &0, &100).unwrap_err(), RuntimeError::InvalidGRNAExclusionPattern);
}

#[test]
fn run_without_guides_fails() {
    let s = "AGCTTAGCTAGGA";
    assert_eq!(run(s, "TCCTAGCTAAGCT", "NGG", &20, "", "", &0, &100).unwrap_err(), RuntimeError::NoGuidesFound);
}

#[test]
fn run_keeps_strands_apart() {
    let s = LONG_SEQ;
    let result = run(s, "ACGT", "NGG", &20, "", "", &0, &100).unwrap();
    assert_eq!(result.forward.as_ref().unwrap().len(), 2);
    assert!(result.reverse.is_none());
    let all = result.into_candidates();
    assert_eq!(all.len(), 2);
}

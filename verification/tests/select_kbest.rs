use featrs::feature_selection::select_kbest::rank_scores;

fn scored(v: &[(&str, f64)]) -> Vec<(String, u64)> {
    v.iter().map(|(n, s)| (n.to_string(), s.to_bits())).collect()
}

fn names(v: &[(String, u64)]) -> Vec<&str> {
    v.iter().map(|(n, _)| n.as_str()).collect()
}

#[test]
fn ranks_from_highest_score_down() {
    let r = rank_scores(&scored(&[("a", 1.0), ("b", 3.5), ("c", -2.0), ("d", 2.0)]));
    assert_eq!(names(&r), vec!["b", "d", "a", "c"]);
    assert_eq!(f64::from_bits(r[0].1), 3.5);
}

#[test]
fn equal_scores_keep_their_order() {
    let r = rank_scores(&scored(&[("x", 1.0), ("y", 2.0), ("z", 1.0), ("w", 0.0), ("v", -0.0)]));
    assert_eq!(names(&r), vec!["y", "x", "z", "w", "v"]);
    assert!(rank_scores(&Vec::new()).is_empty());
}

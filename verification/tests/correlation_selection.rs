use featrs::feature_selection::correlation_threshold::greedy_survivors;

fn matrix(n: usize, pairs: &[(usize, usize)]) -> Vec<Vec<bool>> {
    let mut m = vec![vec![false; n]; n];
    for &(i, j) in pairs {
        m[i][j] = true;
        m[j][i] = true;
    }
    m
}

#[test]
fn earlier_columns_win() {
    // 0 ~ 1, 1 ~ 2: column 1 goes (correlated with 0), so 2 stays.
    assert_eq!(greedy_survivors(&matrix(3, &[(0, 1), (1, 2)])), vec![0, 2]);
    // 0 ~ 2 only.
    assert_eq!(greedy_survivors(&matrix(4, &[(0, 2)])), vec![0, 1, 3]);
}

#[test]
fn no_correlation_keeps_all_and_full_correlation_keeps_first() {
    assert_eq!(greedy_survivors(&matrix(3, &[])), vec![0, 1, 2]);
    assert_eq!(greedy_survivors(&matrix(3, &[(0, 1), (0, 2), (1, 2)])), vec![0]);
    assert_eq!(greedy_survivors(&Vec::new()), Vec::<usize>::new());
}

#[test]
fn only_pairs_with_earlier_survivors_count() {
    // Entries above the diagonal are never consulted.
    let mut m = vec![vec![false; 3]; 3];
    m[0][2] = true;
    assert_eq!(greedy_survivors(&m), vec![0, 1, 2]);
}

fn ranks(vals: &[Option<f64>]) -> Vec<Option<f64>> {
    let bits: Vec<Option<u64>> = vals.iter().map(|v| v.map(f64::to_bits)).collect();
    featrs::feature_selection::correlation_threshold::average_ranks(&bits)
        .into_iter()
        .map(|d| d.map(|d| d as f64 / 2.0))
        .collect()
}

#[test]
fn average_ranks_share_ties() {
    assert_eq!(
        ranks(&[Some(10.0), None, Some(-3.0), Some(10.0), Some(7.5)]),
        vec![Some(3.5), None, Some(1.0), Some(3.5), Some(2.0)]
    );
    assert_eq!(ranks(&[Some(2.0), Some(2.0), Some(2.0)]), vec![Some(2.0), Some(2.0), Some(2.0)]);
    assert_eq!(ranks(&[None, None]), vec![None, None]);
    assert_eq!(ranks(&[]), Vec::<Option<f64>>::new());
}

#[test]
fn average_ranks_use_the_total_order() {
    // -0.0 sits just below +0.0, and negatives below positives.
    assert_eq!(ranks(&[Some(0.0), Some(-0.0), Some(-1.0), Some(1.0)]), vec![Some(3.0), Some(2.0), Some(1.0), Some(4.0)]);
}

use featrs::total_order::{sort_total, total_rank};

fn sorted(vals: &[f64]) -> Vec<f64> {
    let bits: Vec<u64> = vals.iter().map(|v| v.to_bits()).collect();
    sort_total(&bits).into_iter().map(f64::from_bits).collect()
}

#[test]
fn sorts_in_total_order() {
    let out = sorted(&[3.0, -1.0, 0.0, -0.0, f64::INFINITY, -2.5, 3.0, f64::NEG_INFINITY, 1e-300]);
    let expect = [f64::NEG_INFINITY, -2.5, -1.0, -0.0, 0.0, 1e-300, 3.0, 3.0, f64::INFINITY];
    assert_eq!(out.len(), expect.len());
    for (a, b) in out.iter().zip(expect.iter()) {
        assert_eq!(a.to_bits(), b.to_bits());
    }
    assert!(sorted(&[]).is_empty());
    assert_eq!(sorted(&[5.0]), vec![5.0]);
}

#[test]
fn rank_agrees_with_total_cmp() {
    let vals = [f64::NAN, -f64::NAN, -0.0, 0.0, -1.0, 1.0, f64::MAX, f64::MIN, f64::INFINITY];
    for a in vals {
        for b in vals {
            assert_eq!(total_rank(a.to_bits()).cmp(&total_rank(b.to_bits())), a.total_cmp(&b));
        }
    }
}

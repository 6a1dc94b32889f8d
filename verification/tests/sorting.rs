use squiggle_mc::monte_carlo::sample_at;
use squiggle_mc::stable_sort::stable_order;

fn bits(v: &[f64]) -> Vec<u64> {
    v.iter().map(|x| x.to_bits()).collect()
}

/// A small linear congruential generator, so that the larger cases are the
/// same on every run.
fn scrambled(count: usize, seed: u64, span: u64) -> Vec<f64> {
    let mut state = seed;
    let mut out = Vec::new();
    for _ in 0..count {
        state = state.wrapping_mul(6364136223846793005).wrapping_add(1442695040888963407);
        let v = ((state >> 33) % span) as f64 - (span / 2) as f64;
        out.push(v / 4.0);
    }
    out
}

#[test]
fn empty_and_single() {
    assert_eq!(stable_order(&bits(&[])), Vec::<usize>::new());
    assert_eq!(stable_order(&bits(&[3.0])), vec![0]);
}

#[test]
fn order_of_three() {
    assert_eq!(stable_order(&bits(&[5.0, 1.0, 2.0])), vec![1, 2, 0]);
    assert_eq!(stable_order(&bits(&[1.0, 2.0, 5.0])), vec![0, 1, 2]);
    assert_eq!(stable_order(&bits(&[5.0, 2.0, 1.0])), vec![2, 1, 0]);
}

#[test]
fn negative_numbers_come_first() {
    let x = bits(&[0.5, -1.0, 3.0, -7.25, 0.0, -0.125]);
    assert_eq!(stable_order(&x), vec![3, 1, 5, 4, 0, 2]);
}

#[test]
fn equal_numbers_keep_their_order() {
    let x = bits(&[2.0, 1.0, 2.0, 1.0, 2.0]);
    assert_eq!(stable_order(&x), vec![1, 3, 0, 2, 4]);
}

#[test]
fn the_two_zeros_are_equal() {
    let x = bits(&[0.0, -0.0, 0.0, -0.0, -1.0]);
    assert_eq!(stable_order(&x), vec![4, 0, 1, 2, 3]);
    let y = bits(&[-0.0, 0.0]);
    assert_eq!(stable_order(&y), vec![0, 1]);
    assert_eq!(sample_at(&y, &stable_order(&y)), Some(y.clone()));
}

#[test]
fn the_order_rearranges_the_numbers() {
    let x = bits(&[5.0, 1.0, 2.0]);
    assert_eq!(sample_at(&x, &stable_order(&x)), Some(bits(&[1.0, 2.0, 5.0])));
}

#[test]
fn agrees_with_a_stable_sort_of_the_numbers() {
    for (count, seed, span) in [(17, 1, 9), (100, 2, 40), (257, 3, 1000), (1000, 4, 7)] {
        let values = scrambled(count, seed, span);
        let mut expected: Vec<usize> = (0..count).collect();
        expected.sort_by(|a, b| values[*a].partial_cmp(&values[*b]).unwrap());
        assert_eq!(stable_order(&bits(&values)), expected);
    }
}

#[test]
fn every_position_is_listed_once() {
    let values = scrambled(500, 11, 50);
    let p = stable_order(&bits(&values));
    let mut seen = vec![false; values.len()];
    for i in &p {
        assert!(!seen[*i]);
        seen[*i] = true;
    }
    assert!(seen.iter().all(|s| *s));
    for w in p.windows(2) {
        let (a, b) = (values[w[0]], values[w[1]]);
        assert!(a < b || (a == b && w[0] < w[1]));
    }
}

#[test]
fn a_large_sample_is_ordered_too() {
    let values = scrambled(200_000, 77, 1_000_000);
    let p = stable_order(&bits(&values));
    assert_eq!(p.len(), values.len());
    for w in p.windows(2) {
        let (a, b) = (values[w[0]], values[w[1]]);
        assert!(a < b || (a == b && w[0] < w[1]));
    }
    let descending: Vec<f64> = (0..100_000).rev().map(|i| i as f64).collect();
    let q = stable_order(&bits(&descending));
    assert_eq!(q, (0..100_000).rev().collect::<Vec<usize>>());
}

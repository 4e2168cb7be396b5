use bike_anomaly::rank::{output_order, rank_anomalies, top_k, DEFAULT_TOP_K};

fn key(x: f64) -> u64 {
    x.to_bits()
}

#[test]
fn anomalies_above_threshold_descending() {
    let scores: Vec<Option<u64>> = [0.9, 0.3, 0.8, 0.95].iter().map(|s| Some(key(*s))).collect();
    let ranked = rank_anomalies(&scores, key(0.76));
    assert_eq!(ranked, vec![3, 0, 2]);
    let ranked_scores: Vec<f64> = ranked.iter().map(|i| f64::from_bits(scores[*i].unwrap())).collect();
    assert_eq!(ranked_scores, vec![0.95, 0.9, 0.8]);
}

#[test]
fn equal_scores_keep_index_order() {
    let scores = vec![Some(5), Some(7), Some(5), Some(7), Some(1)];
    assert_eq!(rank_anomalies(&scores, 2), vec![1, 3, 0, 2]);
}

#[test]
fn score_equal_to_threshold_is_not_anomalous() {
    let scores = vec![Some(76), Some(77), None];
    assert_eq!(rank_anomalies(&scores, 76), vec![1]);
}

#[test]
fn output_puts_absent_scores_last() {
    let scores = vec![None, Some(3), None, Some(9), Some(3)];
    assert_eq!(output_order(&scores), vec![3, 1, 4, 0, 2]);
}

#[test]
fn empty_scores_rank_nothing() {
    assert!(rank_anomalies(&vec![], 0).is_empty());
    assert!(output_order(&vec![]).is_empty());
}

#[test]
fn top_k_truncates() {
    let ranked: Vec<usize> = (0..15).collect();
    assert_eq!(top_k(&ranked, DEFAULT_TOP_K), (0..10).collect::<Vec<usize>>());
    assert_eq!(top_k(&vec![4, 2], DEFAULT_TOP_K), vec![4, 2]);
    assert!(top_k(&ranked, 0).is_empty());
}

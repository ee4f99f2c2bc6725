use fleet_predict::horizon::{PredictiveHorizon, USEFUL_ACCURACY};
use fleet_predict::prediction::{clip_accuracy, Prediction, FULL_ACCURACY};
use fleet_predict::predictor::FleetPredictor;

// ----------------------------------------------------------------
// Helpers: the floating-point side that feeds the library
// ----------------------------------------------------------------

fn bits(correlation: f64) -> u64 {
    correlation.to_bits()
}

fn scale(correlation: u64, value: f64) -> f64 {
    f64::from_bits(correlation) * value
}

/// A table for `n` agents where every pair gets the same correlations.
fn uniform_table(n: usize, row: &[f64]) -> Vec<Vec<Vec<u64>>> {
    let row: Vec<u64> = row.iter().map(|c| bits(*c)).collect();
    (0..n).map(|_| (0..n).map(|_| row.clone()).collect()).collect()
}

/// Pearson correlation of `a[t]` against `b[t + lag]`.
fn pearson(a: &[f64], b: &[f64], lag: usize) -> f64 {
    let n = a.len().min(b.len());
    if n <= lag + 1 {
        return 0.0;
    }
    let m = n - lag;
    let mean_a: f64 = a[..m].iter().sum::<f64>() / m as f64;
    let mean_b: f64 = b[lag..].iter().sum::<f64>() / m as f64;
    let mut cov = 0.0_f64;
    let mut var_a = 0.0_f64;
    let mut var_b = 0.0_f64;
    for i in 0..m {
        let dx = a[i] - mean_a;
        let dy = b[i + lag] - mean_b;
        cov += dx * dy;
        var_a += dx * dx;
        var_b += dy * dy;
    }
    let denom = (var_a * var_b).sqrt();
    if denom > 0.0 {
        cov / denom
    } else {
        0.0
    }
}

/// Score every ordered pair of `history` at the lags the library analyses, and
/// let the predictor learn from those scores.
fn analyze(fp: &mut FleetPredictor, history: &[Vec<f64>], max_lag: usize) {
    let n = fp.n_agents();
    let series_len = if n == 0 {
        0
    } else {
        history.first().map_or(0, |s| s.len())
    };
    let k = FleetPredictor::lag_count(series_len, max_lag);
    let table: Vec<Vec<Vec<u64>>> = if k == 0 {
        Vec::new()
    } else {
        (0..n)
            .map(|s| {
                (0..n)
                    .map(|t| (1..=k).map(|lag| bits(pearson(&history[s], &history[t], lag))).collect())
                    .collect()
            })
            .collect()
    };
    fp.analyze(series_len, max_lag, &table);
}

/// The accuracies of a target's horizon, each lag's accuracies averaged pairwise.
fn horizon(fp: &FleetPredictor, target: usize) -> PredictiveHorizon {
    let lag_acc: Vec<(usize, u64)> = fp
        .lag_groups(target)
        .iter()
        .map(|g| {
            let mut acc = f64::from_bits(g.accuracies[0]);
            for a in &g.accuracies[1..] {
                acc = (acc + f64::from_bits(*a)) / 2.0;
            }
            (g.lag, acc.to_bits())
        })
        .collect();
    PredictiveHorizon::from_lag_accuracies(&lag_acc)
}

/// Average accuracy of the predictors of `target`, 0 when there are none.
fn collective_accuracy(fp: &FleetPredictor, target: usize) -> f64 {
    let preds = fp.predictions_for(target);
    if preds.is_empty() {
        return 0.0;
    }
    let sum: f64 = preds.iter().map(|p| f64::from_bits(p.accuracy)).sum();
    sum / preds.len() as f64
}

fn accuracy(p: &Prediction) -> f64 {
    f64::from_bits(p.accuracy)
}

// ----------------------------------------------------------------
// Construction & basics
// ----------------------------------------------------------------

#[test]
fn test_new_predictor() {
    let fp = FleetPredictor::new(3);
    assert_eq!(fp.n_agents(), 3);
    assert!(fp.predictions().is_empty());
}

#[test]
fn test_zero_agents() {
    let mut fp = FleetPredictor::new(0);
    assert_eq!(fp.n_agents(), 0);
    let history: Vec<Vec<f64>> = vec![];
    analyze(&mut fp, &history, 5);
    assert!(fp.predictions().is_empty());
}

// ----------------------------------------------------------------
// Analyze with sine wave data
// ----------------------------------------------------------------

#[test]
fn test_analyze_two_agents_same_sine() {
    let mut fp = FleetPredictor::new(2);
    let mut a = Vec::new();
    let mut b = Vec::new();
    for i in 0..100 {
        let val = (i as f64 * 0.1).sin();
        a.push(val);
        b.push(val);
    }
    analyze(&mut fp, &[a.clone(), b.clone()], 5);

    let pred = fp.best_predictor_for(0);
    assert!(pred.is_some());
    let p = pred.unwrap();
    assert!(accuracy(p) > 0.9, "self-prediction accuracy should be high, got {}", accuracy(p));
}

#[test]
fn test_analyze_agent_leads_another() {
    let mut fp = FleetPredictor::new(2);
    let mut a = Vec::new();
    let mut b = Vec::new();
    for i in 0..100 {
        let t = i as f64 * 0.2;
        a.push(t.sin());
        b.push((t - 0.5).sin());
    }
    analyze(&mut fp, &[a.clone(), b.clone()], 5);

    let pred = fp.best_predictor_for(1);
    assert!(pred.is_some(), "should find a predictor for target 1");
    let p = pred.unwrap();
    assert!(accuracy(p) > 0.3, "prediction should be meaningful, got accuracy={}", accuracy(p));
    assert_eq!(p.source, 0);
}

// ----------------------------------------------------------------
// Predict
// ----------------------------------------------------------------

#[test]
fn test_predict_returns_correct_length() {
    let mut fp = FleetPredictor::new(2);
    let mut a = Vec::new();
    let mut b = Vec::new();
    for i in 0..50 {
        let val = (i as f64 * 0.1).sin();
        a.push(val);
        b.push(val);
    }
    analyze(&mut fp, &[a.clone(), b.clone()], 3);
    let preds = fp.predict(0, &[a.clone(), b.clone()], scale);
    assert_eq!(preds.len(), 50);
}

#[test]
fn test_predict_does_not_nan() {
    let mut fp = FleetPredictor::new(2);
    let a = vec![1.0, 2.0, 3.0, 4.0, 5.0];
    let b = vec![2.0, 4.0, 6.0, 8.0, 10.0];
    analyze(&mut fp, &[a.clone(), b.clone()], 2);
    let preds = fp.predict(0, &[a.clone(), b.clone()], scale);
    for v in &preds {
        assert!(!v.is_nan(), "prediction should not be NaN, got {}", v);
    }
}

// ----------------------------------------------------------------
// best_predictor_for
// ----------------------------------------------------------------

#[test]
fn test_best_predictor_for_returns_self() {
    let mut fp = FleetPredictor::new(2);
    let a = vec![1.0, 2.0, 3.0, 4.0, 5.0];
    let b = vec![10.0, 20.0, 30.0, 40.0, 50.0];
    analyze(&mut fp, &[a, b], 3);
    let pred = fp.best_predictor_for(0);
    assert!(pred.is_some());
    assert_eq!(pred.unwrap().target, 0);
}

#[test]
fn test_best_predictor_for_nonexistent() {
    let fp = FleetPredictor::new(3);
    let pred = fp.best_predictor_for(0);
    assert!(pred.is_none());
}

// ----------------------------------------------------------------
// predictive_horizon
// ----------------------------------------------------------------

#[test]
fn test_predictive_horizon_basic() {
    let mut fp = FleetPredictor::new(2);
    let a = vec![0.0, 1.0, 2.0, 3.0, 4.0, 5.0, 6.0, 7.0, 8.0, 9.0];
    let b = vec![1.0, 2.0, 3.0, 4.0, 5.0, 6.0, 7.0, 8.0, 9.0, 10.0];
    analyze(&mut fp, &[a, b], 5);
    let h = horizon(&fp, 1);
    assert!(!h.accuracies.is_empty());
}

// ----------------------------------------------------------------
// Random data
// ----------------------------------------------------------------

#[test]
fn test_random_data_no_crashes() {
    let mut fp = FleetPredictor::new(4);
    let data: Vec<Vec<f64>> = (0..4)
        .map(|seed| {
            (0..50)
                .map(|i| {
                    let x = (seed as f64 * 1.618 + i as f64 * 0.7).sin() * 1000.0;
                    (x.sin() * 1000.0).round() / 1000.0
                })
                .collect()
        })
        .collect();

    analyze(&mut fp, &data, 5);
    let preds = fp.predict(0, &data, scale);
    assert_eq!(preds.len(), 50);

    let acc = collective_accuracy(&fp, 1);
    assert!(acc >= 0.0);
}

// ----------------------------------------------------------------
// Edge cases
// ----------------------------------------------------------------

#[test]
fn test_empty_history() {
    let fp = FleetPredictor::new(2);
    let history: Vec<Vec<f64>> = vec![vec![], vec![]];
    let preds = fp.predict(0, &history, scale);
    assert!(preds.is_empty());
}

#[test]
fn test_single_element_history() {
    let mut fp = FleetPredictor::new(2);
    let history = vec![vec![42.0], vec![100.0]];
    analyze(&mut fp, &history, 2);
    let preds = fp.predict(0, &history, scale);
    assert_eq!(preds.len(), 1);
    assert!(!preds[0].is_nan());
}

#[test]
fn test_two_element_history() {
    let mut fp = FleetPredictor::new(2);
    let history = vec![vec![1.0, 2.0], vec![3.0, 4.0]];
    analyze(&mut fp, &history, 1);
    let preds = fp.predict(0, &history, scale);
    assert_eq!(preds.len(), 2);
}

#[test]
fn test_large_lag() {
    let mut fp = FleetPredictor::new(2);
    let a = vec![0.0, 1.0, 2.0, 3.0, 4.0, 5.0, 6.0, 7.0, 8.0, 9.0];
    let b = vec![0.0, 1.0, 2.0, 3.0, 4.0, 5.0, 6.0, 7.0, 8.0, 9.0];
    // max_lag larger than history — should not panic
    analyze(&mut fp, &[a, b], 100);
    assert!(fp.predictions().is_empty() || !fp.predictions().is_empty());
}

#[test]
fn test_many_agents() {
    let mut fp = FleetPredictor::new(10);
    let mut data: Vec<Vec<f64>> = Vec::new();
    for agent in 0..10 {
        let series: Vec<f64> = (0..30)
            .map(|i| ((i as f64 * 0.2) + (agent as f64 * 0.5)).sin())
            .collect();
        data.push(series);
    }
    analyze(&mut fp, &data, 3);
    assert!(!fp.predictions().is_empty());

    for t in 0..10 {
        let pred = fp.best_predictor_for(t);
        assert!(pred.is_some(), "target {} should have a predictor", t);
    }
}

// ----------------------------------------------------------------
// Deterministic sine correlations
// ----------------------------------------------------------------

#[test]
fn test_sine_correlation_lag() {
    let n = 200;
    let freq = 0.1;
    let shift = 0.3;
    let a: Vec<f64> = (0..n).map(|i| (i as f64 * freq).sin()).collect();
    let b: Vec<f64> = (0..n).map(|i| ((i as f64 * freq) - shift).sin()).collect();

    let mut fp = FleetPredictor::new(2);
    analyze(&mut fp, &[a.clone(), b.clone()], 10);

    let best = fp.best_predictor_for(1);
    assert!(best.is_some(), "should find predictor for target 1");
    let p = best.unwrap();
    assert_eq!(p.source, 0);
    assert!(accuracy(p) > 0.1, "accuracy should be nonzero, got {}", accuracy(p));
}

#[test]
fn test_no_predictor_fallback_to_last_value() {
    let fp = FleetPredictor::new(3);
    let history = vec![
        vec![1.0, 2.0, 3.0, 4.0, 5.0],
        vec![10.0, 20.0, 30.0, 40.0, 50.0],
        vec![100.0, 200.0, 300.0, 400.0, 500.0],
    ];
    let preds = fp.predict(0, &history, scale);
    assert_eq!(preds.len(), 5);
    for p in &preds {
        assert!((*p - 5.0).abs() < 1e-10, "expected 5.0, got {}", p);
    }
}

// ----------------------------------------------------------------
// Accuracy of a correlation
// ----------------------------------------------------------------

#[test]
fn accuracy_is_clipped_magnitude() {
    for c in [0.0, -0.0, 0.25, -0.5, 1.0, -1.0, 1.5, -2.0, f64::INFINITY, f64::NEG_INFINITY] {
        assert_eq!(clip_accuracy(bits(c)), bits(c.abs().min(1.0)), "correlation {}", c);
    }
    assert_eq!(clip_accuracy(bits(f64::NAN)), bits(1.0));
    assert_eq!(FULL_ACCURACY, bits(1.0));
}

#[test]
fn stored_accuracy_matches_correlation() {
    let mut fp = FleetPredictor::new(2);
    fp.analyze(10, 3, &uniform_table(2, &[-3.0, 0.5, f64::NAN]));
    for p in fp.predictions() {
        assert_eq!(p.accuracy, clip_accuracy(p.correlation));
        assert!(accuracy(p) <= 1.0 && accuracy(p) >= 0.0);
    }
    // |-3.0| clips to 1.0 at lag 1; the later NaN also reaches 1.0 but is not better.
    assert_eq!(fp.predictions()[0].lag, 1);
    assert_eq!(fp.predictions()[0].correlation, bits(-3.0));
}

// ----------------------------------------------------------------
// Lag range
// ----------------------------------------------------------------

#[test]
fn lag_count_stops_below_series_length() {
    assert_eq!(FleetPredictor::lag_count(0, 5), 0);
    assert_eq!(FleetPredictor::lag_count(1, 5), 0);
    assert_eq!(FleetPredictor::lag_count(10, 100), 9);
    assert_eq!(FleetPredictor::lag_count(10, 3), 3);
    assert_eq!(FleetPredictor::lag_count(10, 0), 0);
    assert_eq!(FleetPredictor::lag_count(4, 3), 3);
}

// ----------------------------------------------------------------
// analyze on given correlations
// ----------------------------------------------------------------

#[test]
fn analyze_keeps_first_most_accurate_lag_per_pair() {
    let mut fp = FleetPredictor::new(2);
    let table: Vec<Vec<Vec<u64>>> = vec![
        vec![vec![0.5, -0.9, 0.9], vec![0.1, 0.2, 0.3]],
        vec![vec![0.7, 0.7, 0.1], vec![-1.0, 0.2, 0.4]],
    ]
    .iter()
    .map(|row: &Vec<Vec<f64>>| row.iter().map(|r| r.iter().map(|c| bits(*c)).collect()).collect())
    .collect();
    fp.analyze(10, 3, &table);
    let preds = fp.predictions();
    assert_eq!(preds.len(), 4);
    let expected = [(0, 0, 2, -0.9), (0, 1, 3, 0.3), (1, 0, 1, 0.7), (1, 1, 1, -1.0)];
    for (p, (source, target, lag, corr)) in preds.iter().zip(expected.iter()) {
        assert_eq!(p.source, *source);
        assert_eq!(p.target, *target);
        assert_eq!(p.lag, *lag);
        assert_eq!(f64::from_bits(p.correlation), *corr);
        assert_eq!(accuracy(p), corr.abs());
    }
}

#[test]
fn analyze_scores_only_lags_below_series_length() {
    let mut fp = FleetPredictor::new(1);
    // Lags 1 and 2 fit in a series of 3 samples; the better third correlation
    // is beyond the series and is never read.
    fp.analyze(3, 10, &uniform_table(1, &[0.4, 0.6, 0.99]));
    assert_eq!(fp.predictions().len(), 1);
    assert_eq!(fp.predictions()[0].lag, 2);
}

#[test]
fn analyze_replaces_previous_predictions() {
    let mut fp = FleetPredictor::new(2);
    fp.analyze(10, 2, &uniform_table(2, &[0.3, 0.8]));
    assert_eq!(fp.predictions().len(), 4);
    fp.analyze(10, 0, &uniform_table(2, &[]));
    assert!(fp.predictions().is_empty());
    fp.analyze(10, 2, &uniform_table(2, &[0.3, 0.8]));
    let again = fp.clone();
    fp.analyze(10, 2, &uniform_table(2, &[0.3, 0.8]));
    assert_eq!(fp.predictions(), again.predictions());
}

#[test]
fn every_agent_has_a_predictor_after_analysis() {
    let n = 5;
    let mut fp = FleetPredictor::new(n);
    fp.analyze(30, 3, &uniform_table(n, &[0.1, 0.2, 0.3]));
    assert_eq!(fp.predictions().len(), n * n);
    for t in 0..n {
        let best = fp.best_predictor_for(t);
        assert!(best.is_some(), "target {} should have a predictor", t);
        assert_eq!(best.unwrap().target, t);
    }
}

// ----------------------------------------------------------------
// best_predictor_for / predictions_for
// ----------------------------------------------------------------

#[test]
fn best_predictor_is_most_accurate_and_last_among_ties() {
    let mut fp = FleetPredictor::new(3);
    let table: Vec<Vec<Vec<u64>>> = vec![
        vec![vec![bits(0.2)], vec![bits(0.9)], vec![bits(0.1)]],
        vec![vec![bits(-0.6)], vec![bits(0.9)], vec![bits(0.5)]],
        vec![vec![bits(0.6)], vec![bits(0.4)], vec![bits(0.3)]],
    ];
    fp.analyze(5, 1, &table);
    let best0 = fp.best_predictor_for(0).unwrap();
    assert_eq!(best0.source, 2);
    assert_eq!(f64::from_bits(best0.correlation), 0.6);
    let best1 = fp.best_predictor_for(1).unwrap();
    assert_eq!(best1.source, 1);
    let best2 = fp.best_predictor_for(2).unwrap();
    assert_eq!(best2.source, 1);
    assert!(fp.best_predictor_for(3).is_none());
}

#[test]
fn predictions_for_keeps_storage_order() {
    let mut fp = FleetPredictor::new(3);
    fp.analyze(5, 1, &uniform_table(3, &[0.5]));
    let for_one: Vec<Prediction> = fp.predictions_for(1);
    assert_eq!(for_one.len(), 3);
    for (i, p) in for_one.iter().enumerate() {
        assert_eq!(p.source, i);
        assert_eq!(p.target, 1);
    }
    assert!(fp.predictions_for(7).is_empty());
}

// ----------------------------------------------------------------
// predict on given correlations
// ----------------------------------------------------------------

#[test]
fn predict_scales_the_lagged_source() {
    let mut fp = FleetPredictor::new(2);
    let table: Vec<Vec<Vec<u64>>> = vec![
        vec![vec![bits(0.1), bits(0.1)], vec![bits(0.2), bits(0.5)]],
        vec![vec![bits(0.3), bits(0.1)], vec![bits(0.4), bits(0.4)]],
    ];
    fp.analyze(5, 2, &table);
    // Best for target 1: source 0 at lag 2, correlation 0.5.
    let best = fp.best_predictor_for(1).unwrap();
    assert_eq!((best.source, best.lag), (0, 2));
    let history = vec![vec![2.0, 4.0, 6.0, 8.0, 10.0], vec![1.0, 3.0, 5.0, 7.0, 9.0]];
    let preds = fp.predict(1, &history, scale);
    assert_eq!(preds, vec![1.0, 3.0, 1.0, 2.0, 3.0]);
}

#[test]
fn predict_with_lag_beyond_history_copies_target() {
    let mut fp = FleetPredictor::new(1);
    fp.analyze(10, 4, &uniform_table(1, &[0.1, 0.1, 0.1, 0.9]));
    let history = vec![vec![7.0, 8.0, 9.0]];
    let preds = fp.predict(0, &history, scale);
    assert_eq!(preds, vec![7.0, 8.0, 9.0]);
}

// ----------------------------------------------------------------
// Horizon
// ----------------------------------------------------------------

#[test]
fn useful_accuracy_is_one_fifth() {
    assert_eq!(USEFUL_ACCURACY, 0.2f64.to_bits());
}

#[test]
fn lag_groups_are_sorted_and_in_storage_order() {
    let mut fp = FleetPredictor::new(3);
    let zeros = vec![bits(0.0); 3];
    let table: Vec<Vec<Vec<u64>>> = vec![
        vec![vec![bits(0.1), bits(0.1), bits(0.8)], zeros.clone(), zeros.clone()],
        vec![vec![bits(0.6), bits(0.1), bits(0.1)], zeros.clone(), zeros.clone()],
        vec![vec![bits(0.1), bits(0.1), bits(0.7)], zeros.clone(), zeros.clone()],
    ];
    fp.analyze(10, 3, &table);
    let groups = fp.lag_groups(0);
    assert_eq!(groups.len(), 2);
    assert_eq!(groups[0].lag, 1);
    assert_eq!(groups[0].accuracies, vec![bits(0.6)]);
    assert_eq!(groups[1].lag, 3);
    assert_eq!(groups[1].accuracies, vec![bits(0.8), bits(0.7)]);
    assert!(fp.lag_groups(5).is_empty());
}

#[test]
fn horizon_fills_missing_lags_with_zero() {
    let lag_acc = vec![(1, bits(0.5)), (3, bits(0.1)), (4, bits(0.25))];
    let h = PredictiveHorizon::from_lag_accuracies(&lag_acc);
    let accs: Vec<f64> = h.accuracies.iter().map(|b| f64::from_bits(*b)).collect();
    assert_eq!(accs, vec![0.5, 0.0, 0.1, 0.25]);
    assert_eq!(h.max_useful_lag, 4);
}

#[test]
fn horizon_without_useful_lag() {
    let lag_acc = vec![(2, bits(0.2)), (5, bits(0.1))];
    let h = PredictiveHorizon::from_lag_accuracies(&lag_acc);
    assert_eq!(h.max_useful_lag, 0);
    assert_eq!(h.accuracies.len(), 5);
    let empty = PredictiveHorizon::from_lag_accuracies(&[]);
    assert_eq!(empty.max_useful_lag, 0);
    assert!(empty.accuracies.is_empty());
}

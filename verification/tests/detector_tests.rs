use anomaly_detection_system::detector::{Detector, DetectorConfig, NEUTRAL_SCORE, SCORE_ONE};
use anomaly_detection_system::duration::Duration;
use anomaly_detection_system::isolation_forest::{DimensionMismatch, PathLength};
use anomaly_detection_system::parser::{NetworkEvent, Protocol};
use rand::rngs::StdRng;
use rand::SeedableRng;

fn c(n: f64) -> f64 {
    if n <= 1.0 {
        return 0.0;
    }
    2.0 * (n.ln() + 0.5772156649) - (2.0 * (n - 1.0) / n)
}

fn score(paths: &[PathLength], sample_size: usize) -> f64 {
    let total: f64 = paths.iter().map(|p| p.steps as f64 + c(p.leaf_size as f64)).sum();
    let average = total / paths.len() as f64;
    let cn = c(sample_size as f64);
    if cn == 0.0 {
        return 0.5;
    }
    2.0_f64.powf(-average / cn)
}

fn millionths(score: f64) -> u32 {
    (score * SCORE_ONE as f64) as u32
}

/// The score of `features` under the detector's forest, zero while it has none.
fn score_for(detector: &Detector, features: &[i64]) -> u32 {
    match detector.forest() {
        Some(forest) => {
            let paths = forest.path_lengths(features).unwrap();
            millionths(score(&paths, forest.sample_size()))
        }
        None => 0,
    }
}

fn event(bytes: u64) -> NetworkEvent {
    NetworkEvent {
        timestamp: 1_705_314_600,
        timestamp_nanos: 0,
        src_ip: "192.168.1.10".to_string(),
        src_port: 54321,
        dst_ip: "10.0.0.1".to_string(),
        dst_port: 443,
        protocol: Protocol::Tcp,
        bytes,
        duration: Duration::Finite { negative: false, micros: 50_000 },
    }
}

fn config(buffer_size: usize, retrain_interval: usize) -> DetectorConfig {
    DetectorConfig { n_trees: 10, buffer_size, threshold: 650_000, retrain_interval }
}

#[test]
fn new_detector_is_buffering() {
    let detector = Detector::new(DetectorConfig::default(), StdRng::seed_from_u64(1));
    assert!(!detector.is_trained());
    assert!(detector.forest().is_none());
    assert_eq!(detector.total_events(), 0);
    assert_eq!(detector.total_anomalies(), 0);
    assert_eq!(detector.buffered(), 0);
    assert_eq!(detector.events_since_train(), 0);
}

#[test]
fn default_config_has_the_documented_values() {
    let config = DetectorConfig::default();
    assert_eq!(config.n_trees, 100);
    assert_eq!(config.buffer_size, 256);
    assert_eq!(config.threshold, 650_000);
    assert_eq!(config.retrain_interval, 1000);
    let detector = Detector::new(config, StdRng::seed_from_u64(1));
    assert_eq!(detector.config(), config);
}

#[test]
fn transition_comes_exactly_when_the_buffer_is_full() {
    let mut detector = Detector::new(config(5, 1000), StdRng::seed_from_u64(2));
    for i in 0..4i64 {
        let report = detector.advance(&event(1), vec![i, 0, 0], SCORE_ONE).unwrap();
        assert!(report.is_none());
        assert!(!detector.is_trained());
        assert_eq!(detector.total_events(), (i + 1) as usize);
        assert_eq!(detector.buffered(), (i + 1) as usize);
    }
    let report = detector.advance(&event(1), vec![4, 0, 0], SCORE_ONE).unwrap();
    assert!(report.is_none());
    assert!(detector.is_trained());
    assert_eq!(detector.total_events(), 5);
    assert_eq!(detector.total_anomalies(), 0);
    assert_eq!(detector.buffered(), 5);
    assert_eq!(detector.events_since_train(), 0);
    let forest = detector.forest().unwrap();
    assert_eq!(forest.n_trees(), 10);
    assert_eq!(forest.sample_size(), 5);
    assert_eq!(forest.dimension(), Some(3));
}

#[test]
fn report_comes_if_and_only_if_the_score_reaches_the_threshold() {
    let mut detector = Detector::new(config(2, 1000), StdRng::seed_from_u64(3));
    detector.advance(&event(1), vec![0, 0], 0).unwrap();
    detector.advance(&event(2), vec![1, 1], 0).unwrap();
    assert!(detector.is_trained());

    assert_eq!(detector.advance(&event(3), vec![2, 2], 649_999).unwrap(), None);
    assert_eq!(detector.total_anomalies(), 0);

    let report = detector.advance(&event(4), vec![3, 3], 650_000).unwrap().unwrap();
    assert_eq!(report.event, event(4));
    assert_eq!(report.score, 650_000);
    assert_eq!(report.event_number, 4);
    assert_eq!(detector.total_anomalies(), 1);

    let report = detector.advance(&event(5), vec![4, 4], SCORE_ONE).unwrap().unwrap();
    assert_eq!(report.event_number, 5);
    assert_eq!(report.score, SCORE_ONE);
    assert_eq!(detector.total_anomalies(), 2);
    assert_eq!(detector.total_events(), 5);
}

#[test]
fn sliding_buffer_is_cut_back_to_buffer_size_beyond_twice_that() {
    let buffer_size = 4usize;
    let mut detector = Detector::new(config(buffer_size, 1000), StdRng::seed_from_u64(4));
    let mut expected = Vec::new();
    for n in 1..=40usize {
        assert!(detector.buffered() <= 2 * buffer_size);
        detector.advance(&event(1), vec![n as i64], 0).unwrap();
        let after = if n < buffer_size {
            n
        } else {
            buffer_size + (n - buffer_size) % (buffer_size + 1)
        };
        expected.push(after);
        assert_eq!(detector.buffered(), after, "after {} observations", n);
        assert_eq!(detector.total_events(), n);
    }
    assert!(expected.contains(&(2 * buffer_size)));
    assert_eq!(expected[8], buffer_size);
}

#[test]
fn retraining_comes_every_retrain_interval_observations() {
    let mut detector = Detector::new(config(3, 4), StdRng::seed_from_u64(5));
    for n in 1..=3i64 {
        detector.advance(&event(1), vec![n, -n], 0).unwrap();
    }
    assert!(detector.is_trained());
    assert_eq!(detector.events_since_train(), 0);
    for round in 0..5 {
        for k in 1..=3usize {
            detector.advance(&event(1), vec![k as i64, round], 0).unwrap();
            assert_eq!(detector.events_since_train(), k);
        }
        detector.advance(&event(1), vec![9, round], 0).unwrap();
        assert_eq!(detector.events_since_train(), 0);
        assert_eq!(detector.forest().unwrap().sample_size(), 3);
    }
}

#[test]
fn retraining_sees_the_buffer_of_the_moment() {
    let mut detector = Detector::new(config(4, 2), StdRng::seed_from_u64(6));
    for n in 0..4i64 {
        detector.advance(&event(1), vec![n], 0).unwrap();
    }
    let first = detector.forest().unwrap().path_lengths(&[1_000_000]).unwrap();
    for path in &first {
        assert!(path.leaf_size <= 4);
    }
    for n in 0..2i64 {
        detector.advance(&event(1), vec![500 + n], 0).unwrap();
    }
    assert_eq!(detector.events_since_train(), 0);
    assert_eq!(detector.buffered(), 6);
    assert_eq!(detector.forest().unwrap().sample_size(), 4);
}

#[test]
fn observation_of_another_dimension_is_counted_and_refused() {
    let mut detector = Detector::new(config(3, 1000), StdRng::seed_from_u64(7));
    detector.advance(&event(1), vec![1, 2, 3], 0).unwrap();
    assert_eq!(
        detector.advance(&event(2), vec![1, 2], SCORE_ONE),
        Err(DimensionMismatch { expected: 3, found: 2 })
    );
    assert_eq!(detector.total_events(), 2);
    assert_eq!(detector.buffered(), 1);
    assert!(!detector.is_trained());
    detector.advance(&event(3), vec![4, 5, 6], 0).unwrap();
    detector.advance(&event(4), vec![7, 8, 9], 0).unwrap();
    assert!(detector.is_trained());
    assert_eq!(
        detector.advance(&event(5), vec![1, 2, 3, 4], SCORE_ONE),
        Err(DimensionMismatch { expected: 3, found: 4 })
    );
    assert_eq!(detector.total_events(), 5);
    assert_eq!(detector.events_since_train(), 0);
    assert_eq!(detector.total_anomalies(), 0);
    assert_eq!(detector.buffered(), 3);
}

#[test]
fn detector_that_never_fills_its_buffer_stays_buffering() {
    let mut detector = Detector::new(config(100, 10), StdRng::seed_from_u64(8));
    for n in 0..99i64 {
        assert_eq!(detector.advance(&event(1), vec![n], SCORE_ONE).unwrap(), None);
    }
    assert!(!detector.is_trained());
    assert_eq!(detector.total_events(), 99);
    assert_eq!(detector.total_anomalies(), 0);
}

#[test]
fn buffer_size_zero_trains_with_the_first_observation() {
    let mut detector = Detector::new(config(0, 3), StdRng::seed_from_u64(9));
    assert_eq!(detector.advance(&event(1), vec![5, 5], SCORE_ONE).unwrap(), None);
    assert!(detector.is_trained());
    assert_eq!(detector.buffered(), 1);
    assert_eq!(detector.forest().unwrap().sample_size(), 0);
    assert_eq!(score_for(&detector, &[5, 5]), 500_000);
    detector.advance(&event(2), vec![6, 6], 0).unwrap();
    assert_eq!(detector.buffered(), 0);
    detector.advance(&event(3), vec![7, 7], 0).unwrap();
    assert_eq!(detector.buffered(), 0);
    assert_eq!(detector.total_events(), 3);
}

#[test]
fn retrain_interval_zero_retrains_with_every_observation() {
    let mut detector = Detector::new(config(2, 0), StdRng::seed_from_u64(10));
    for n in 0..8i64 {
        detector.advance(&event(1), vec![n], 0).unwrap();
        assert_eq!(detector.events_since_train(), 0);
    }
    assert!(detector.is_trained());
}

fn scorer(paths: Vec<PathLength>, sample_size: usize) -> u32 {
    millionths(score(&paths, sample_size))
}

#[test]
fn end_to_end_outlier_after_a_tight_cluster_is_reported() {
    let config = DetectorConfig { n_trees: 10, buffer_size: 5, threshold: 650_000, retrain_interval: 1000 };
    let mut detector = Detector::new(config, StdRng::seed_from_u64(38));
    let cluster = [[0i64, 0, 0], [0, 0, 1], [0, 1, 0], [1, 0, 0], [0, 0, 0]];
    for (i, features) in cluster.iter().take(4).enumerate() {
        let report = detector.process(&event(i as u64), features.to_vec(), scorer).unwrap();
        assert!(report.is_none());
        assert!(!detector.is_trained());
    }
    assert_eq!(detector.total_events(), 4);

    let report = detector.process(&event(4), cluster[4].to_vec(), scorer).unwrap();
    assert!(report.is_none());
    assert!(detector.is_trained());
    assert_eq!(detector.total_events(), 5);

    let outlier = [1000i64, 1000, 1000];
    let expected = score_for(&detector, &outlier);
    assert!(expected > 650_000 && expected <= SCORE_ONE, "outlier scored {}", expected);
    let report = detector.process(&event(5), outlier.to_vec(), scorer).unwrap().unwrap();
    assert_eq!(report.event_number, 6);
    assert_eq!(report.score, expected);
    assert_eq!(report.event, event(5));
    assert_eq!(detector.total_events(), 6);
    assert_eq!(detector.total_anomalies(), 1);
}

#[test]
fn process_does_not_score_while_buffering() {
    let mut detector = Detector::new(config(3, 1000), StdRng::seed_from_u64(15));
    for n in 0..3i64 {
        let report = detector
            .process(&event(1), vec![n], |_, _| panic!("scored while buffering"))
            .unwrap();
        assert!(report.is_none());
    }
    assert!(detector.is_trained());
    assert_eq!(detector.total_anomalies(), 0);
}

#[test]
fn process_scores_against_the_forest_the_observation_arrived_under() {
    let mut detector = Detector::new(config(4, 1), StdRng::seed_from_u64(16));
    for n in 0..4i64 {
        detector.process(&event(1), vec![n, 2 * n], scorer).unwrap();
    }
    for n in 0..6i64 {
        let features = vec![100 + n, 3];
        let expected_paths = detector.forest().unwrap().path_lengths(&features).unwrap();
        let expected_size = detector.forest().unwrap().sample_size();
        let seen = std::cell::RefCell::new(Vec::new());
        let report = detector
            .process(&event(1), features, |paths, sample_size| {
                seen.borrow_mut().push((paths, sample_size));
                SCORE_ONE
            })
            .unwrap()
            .unwrap();
        assert_eq!(seen.into_inner(), vec![(expected_paths, expected_size)]);
        assert_eq!(report.score, SCORE_ONE);
        assert_eq!(report.event_number, (5 + n) as usize);
        assert_eq!(detector.events_since_train(), 0);
    }
    assert_eq!(detector.total_anomalies(), 6);
}

#[test]
fn process_refuses_an_observation_of_another_dimension_unscored() {
    let mut detector = Detector::new(config(2, 1000), StdRng::seed_from_u64(17));
    detector.process(&event(1), vec![1, 2], scorer).unwrap();
    detector.process(&event(1), vec![3, 4], scorer).unwrap();
    assert!(detector.is_trained());
    assert_eq!(
        detector.process(&event(1), vec![5], |_, _| panic!("scored a refused observation")),
        Err(DimensionMismatch { expected: 2, found: 1 })
    );
    assert_eq!(detector.total_events(), 3);
    assert_eq!(detector.total_anomalies(), 0);
    assert_eq!(detector.buffered(), 2);
}

#[test]
fn report_after_a_refusal_carries_the_count_of_all_observations() {
    let mut detector = Detector::new(config(1, 1000), StdRng::seed_from_u64(18));
    detector.advance(&event(1), vec![1], 0).unwrap();
    assert!(detector.advance(&event(2), vec![1, 2], 0).is_err());
    let report = detector.advance(&event(3), vec![2], 700_000).unwrap().unwrap();
    assert_eq!(report.event_number, 3);
    assert_eq!(detector.total_events(), 3);
    assert_eq!(detector.total_anomalies(), 1);
}

#[test]
fn process_holds_a_score_to_one() {
    let mut detector = Detector::new(config(4, 1000), StdRng::seed_from_u64(19));
    for n in 0..4i64 {
        detector.process(&event(1), vec![n], scorer).unwrap();
    }
    let report = detector.process(&event(2), vec![9], |_, _| 2_000_000).unwrap().unwrap();
    assert_eq!(report.score, SCORE_ONE);
    let report = detector.process(&event(2), vec![9], |_, _| SCORE_ONE + 1).unwrap().unwrap();
    assert_eq!(report.score, SCORE_ONE);
    let report = detector.process(&event(2), vec![9], |_, _| 999_999).unwrap().unwrap();
    assert_eq!(report.score, 999_999);
}

#[test]
fn process_gives_the_neutral_score_under_a_forest_of_single_rows() {
    let neutral = DetectorConfig { n_trees: 3, buffer_size: 1, threshold: NEUTRAL_SCORE, retrain_interval: 1000 };
    let mut detector = Detector::new(neutral, StdRng::seed_from_u64(20));
    detector.process(&event(1), vec![7], |_, _| panic!("scored while buffering")).unwrap();
    assert!(detector.is_trained());
    assert_eq!(detector.forest().unwrap().sample_size(), 1);
    let report = detector
        .process(&event(2), vec![1000], |_, _| panic!("scored under a forest of single rows"))
        .unwrap()
        .unwrap();
    assert_eq!(report.score, 500_000);
    assert_eq!(report.event_number, 2);

    let strict = DetectorConfig { n_trees: 3, buffer_size: 1, threshold: NEUTRAL_SCORE + 1, retrain_interval: 1000 };
    let mut detector = Detector::new(strict, StdRng::seed_from_u64(20));
    detector.process(&event(1), vec![7], scorer).unwrap();
    assert_eq!(detector.process(&event(2), vec![1000], |_, _| SCORE_ONE).unwrap(), None);
    assert_eq!(detector.total_anomalies(), 0);
    assert_eq!(detector.total_events(), 2);
}

#[test]
fn identical_buffer_gives_the_neutral_score() {
    let mut detector = Detector::new(config(5, 1000), StdRng::seed_from_u64(13));
    for i in 0..5u64 {
        let report = detector.advance(&event(i), vec![0, 0, 0], 0).unwrap();
        assert!(report.is_none());
    }
    assert!(detector.is_trained());
    let score = score_for(&detector, &[1000, 1000, 1000]);
    assert_eq!(score, 500_000);
    assert_eq!(detector.advance(&event(5), vec![1000, 1000, 1000], score).unwrap(), None);
}

#[test]
fn far_outlier_is_reported_against_a_larger_cluster() {
    let config = DetectorConfig { n_trees: 100, buffer_size: 64, threshold: 650_000, retrain_interval: 1000 };
    let mut detector = Detector::new(config, StdRng::seed_from_u64(14));
    for i in 0..63i64 {
        let features = vec![(i * 7) % 11, (i * 5) % 13, (i * 3) % 17];
        assert_eq!(detector.advance(&event(i as u64), features, 0).unwrap(), None);
    }
    detector.advance(&event(63), vec![1_000_000, 1_000_000, 1_000_000], 0).unwrap();
    assert!(detector.is_trained());
    let member = score_for(&detector, &[5, 6, 8]);
    let outlier = score_for(&detector, &[1_000_000, 1_000_000, 1_000_000]);
    assert!(outlier > member);
    assert!(outlier >= 650_000, "outlier scored {}", outlier);
    let report = detector
        .advance(&event(64), vec![1_000_000, 1_000_000, 1_000_000], outlier)
        .unwrap()
        .unwrap();
    assert_eq!(report.event_number, 65);
    assert_eq!(detector.total_anomalies(), 1);
}

#[test]
fn process_event_feeds_the_features_of_the_event() {
    let mut detector = Detector::new(config(3, 1000), StdRng::seed_from_u64(21));
    for bytes in 0..3u64 {
        assert_eq!(detector.process_event(&event(bytes), scorer).unwrap(), None);
    }
    assert!(detector.is_trained());
    assert_eq!(detector.buffered(), 3);
    let features = anomaly_detection_system::features::extract_features(&event(7));
    let expected_paths = detector.forest().unwrap().path_lengths(&features).unwrap();
    let seen = std::cell::RefCell::new(Vec::new());
    let report = detector
        .process_event(&event(7), |paths, sample_size| {
            seen.borrow_mut().push((paths, sample_size));
            700_000
        })
        .unwrap()
        .unwrap();
    assert_eq!(seen.into_inner(), vec![(expected_paths, 3)]);
    assert_eq!(report.event, event(7));
    assert_eq!(report.score, 700_000);
    assert_eq!(report.event_number, 4);
    assert_eq!(
        detector.process(&event(8), vec![1, 2], scorer),
        Err(DimensionMismatch { expected: 5, found: 2 })
    );
    assert_eq!(detector.total_events(), 5);
}

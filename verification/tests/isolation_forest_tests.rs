use anomaly_detection_system::isolation_forest::{
    column_range, cut_range, depth_limit, partition, subsample, DimensionMismatch, IsolationForest,
    IsolationNode, IsolationTree, PathLength,
};
use anomaly_detection_system::random::{draw_cut, draw_index};
use rand::rngs::StdRng;
use rand::{Rng, SeedableRng};

/// Expected length of an unsuccessful search among `n` items.
fn c(n: f64) -> f64 {
    if n <= 1.0 {
        return 0.0;
    }
    2.0 * (n.ln() + 0.5772156649) - (2.0 * (n - 1.0) / n)
}

/// The anomaly score that belongs to the paths of one point.
fn score(paths: &[PathLength], sample_size: usize) -> f64 {
    let total: f64 = paths.iter().map(|p| p.steps as f64 + c(p.leaf_size as f64)).sum();
    let average = total / paths.len() as f64;
    let cn = c(sample_size as f64);
    if cn == 0.0 {
        return 0.5;
    }
    2.0_f64.powf(-average / cn)
}

fn fixed(x: f64) -> i64 {
    (x * 1_000_000.0).round() as i64
}

fn height(node: &IsolationNode) -> usize {
    match node {
        IsolationNode::Leaf { .. } => 0,
        IsolationNode::Branch { left, right, .. } => 1 + height(left).max(height(right)),
    }
}

fn total_leaf_size(node: &IsolationNode) -> usize {
    match node {
        IsolationNode::Leaf { size } => *size,
        IsolationNode::Branch { left, right, .. } => total_leaf_size(left) + total_leaf_size(right),
    }
}

fn smallest_leaf(node: &IsolationNode) -> usize {
    match node {
        IsolationNode::Leaf { size } => *size,
        IsolationNode::Branch { left, right, .. } => smallest_leaf(left).min(smallest_leaf(right)),
    }
}

fn grid() -> Vec<Vec<i64>> {
    let mut data = Vec::new();
    for i in 0..16 {
        data.push(vec![i, (i * 7) % 16, 100 - i]);
    }
    data
}

#[test]
fn test_fit_and_score() {
    let mut data: Vec<Vec<i64>> = Vec::new();
    let mut rng = StdRng::seed_from_u64(7);
    for _ in 0..200 {
        data.push(vec![
            fixed(0.5 + rng.gen_range(-0.1..0.1)),
            fixed(0.5 + rng.gen_range(-0.1..0.1)),
            fixed(0.5 + rng.gen_range(-0.1..0.1)),
        ]);
    }

    let forest = IsolationForest::fit(&data, 100, 128, &mut rng);

    let normal = forest.path_lengths(&[fixed(0.5), fixed(0.5), fixed(0.5)]).unwrap();
    let anomaly = forest.path_lengths(&[fixed(10.0), fixed(10.0), fixed(10.0)]).unwrap();
    let normal_score = score(&normal, forest.sample_size());
    let anomaly_score = score(&anomaly, forest.sample_size());

    assert!(
        anomaly_score > normal_score,
        "Anomaly score ({}) should be greater than normal score ({})",
        anomaly_score,
        normal_score
    );
}

#[test]
fn test_score_range() {
    let data = vec![
        vec![fixed(1.0), fixed(2.0)],
        vec![fixed(1.1), fixed(2.1)],
        vec![fixed(0.9), fixed(1.9)],
        vec![fixed(1.0), fixed(2.0)],
        vec![fixed(1.05), fixed(1.95)],
    ];
    let mut rng = StdRng::seed_from_u64(11);
    let forest = IsolationForest::fit(&data, 50, 5, &mut rng);
    let paths = forest.path_lengths(&[fixed(1.0), fixed(2.0)]).unwrap();
    let score = score(&paths, forest.sample_size());
    assert!(score >= 0.0 && score <= 1.0, "Score {} out of range", score);
}

#[test]
fn score_lies_above_zero_and_at_most_one_for_many_points() {
    let data = grid();
    let mut rng = StdRng::seed_from_u64(3);
    let forest = IsolationForest::fit(&data, 25, 8, &mut rng);
    for x in [-1000i64, -1, 0, 5, 15, 16, 1000] {
        for y in [-50i64, 0, 8, 99] {
            let paths = forest.path_lengths(&[x, y, 100 - x]).unwrap();
            let s = score(&paths, forest.sample_size());
            assert!(s > 0.0 && s <= 1.0, "score {} out of range", s);
        }
    }
}

#[test]
fn outlier_scores_above_cluster_member() {
    let mut data: Vec<Vec<i64>> = Vec::new();
    for i in 0..64i64 {
        data.push(vec![1000 + (i % 8), 2000 + (i / 8), 3000 + ((i * 5) % 8)]);
    }
    data.push(vec![900_000, 900_000, 900_000]);
    let mut rng = StdRng::seed_from_u64(5);
    let forest = IsolationForest::fit(&data, 100, 65, &mut rng);
    let member = forest.path_lengths(&[1003, 2004, 3002]).unwrap();
    let outlier = forest.path_lengths(&[900_000, 900_000, 900_000]).unwrap();
    assert!(score(&outlier, forest.sample_size()) > score(&member, forest.sample_size()));
}

#[test]
fn depth_limit_is_the_logarithm_rounded_up() {
    assert_eq!(depth_limit(0), 0);
    assert_eq!(depth_limit(1), 0);
    assert_eq!(depth_limit(2), 1);
    assert_eq!(depth_limit(3), 2);
    assert_eq!(depth_limit(4), 2);
    assert_eq!(depth_limit(5), 3);
    assert_eq!(depth_limit(128), 7);
    assert_eq!(depth_limit(129), 8);
    assert_eq!(depth_limit(256), 8);
    assert_eq!(depth_limit(257), 9);
    assert_eq!(depth_limit(usize::MAX), usize::BITS as usize);
}

#[test]
fn column_range_gives_least_and_greatest() {
    let data = grid();
    assert_eq!(column_range(&data, 0), (0, 15));
    assert_eq!(column_range(&data, 1), (0, 15));
    assert_eq!(column_range(&data, 2), (85, 100));
    assert_eq!(column_range(&[vec![-4, 9]], 1), (9, 9));
}

#[test]
fn partition_splits_below_and_not_below_in_order() {
    let data = vec![vec![5, 0], vec![1, 1], vec![3, 2], vec![3, 3], vec![0, 4]];
    let (left, right) = partition(&data, 0, 3);
    assert_eq!(left, vec![vec![1, 1], vec![0, 4]]);
    assert_eq!(right, vec![vec![5, 0], vec![3, 2], vec![3, 3]]);
    let (left, right) = partition(&data, 0, 0);
    assert!(left.is_empty());
    assert_eq!(right, data);
}

#[test]
fn draws_stay_within_their_bounds() {
    let mut rng = StdRng::seed_from_u64(1);
    for bound in 1..40usize {
        assert!(draw_index(&mut rng, bound) < bound);
    }
    assert_eq!(draw_index(&mut rng, 1), 0);
    for _ in 0..200 {
        let cut = draw_cut(&mut rng, -3, 4);
        assert!(-3 < cut && cut <= 4);
    }
    assert_eq!(draw_cut(&mut rng, 7, 8), 8);
    let cut = draw_cut(&mut rng, i64::MIN, i64::MAX);
    assert!(cut > i64::MIN);
}

#[test]
fn draws_reach_every_value() {
    let mut rng = StdRng::seed_from_u64(2);
    let mut seen = [false; 4];
    for _ in 0..400 {
        seen[draw_index(&mut rng, 4)] = true;
    }
    assert_eq!(seen, [true; 4]);
    let mut cuts = [false; 3];
    for _ in 0..400 {
        cuts[(draw_cut(&mut rng, 10, 13) - 11) as usize] = true;
    }
    assert_eq!(cuts, [true; 3]);
}

#[test]
fn subsample_draws_rows_of_the_data() {
    let data = grid();
    let mut rng = StdRng::seed_from_u64(9);
    let sample = subsample(&data, 40, &mut rng);
    assert_eq!(sample.len(), 40);
    for row in &sample {
        assert!(data.contains(row));
    }
    assert!(subsample(&data, 0, &mut rng).is_empty());
    assert!(subsample(&[], 0, &mut rng).is_empty());
}

#[test]
fn tree_counts_every_row_once_and_respects_the_depth_limit() {
    let data = grid();
    for seed in 0..20u64 {
        let mut rng = StdRng::seed_from_u64(seed);
        for max_depth in 0..6usize {
            let tree = IsolationTree::fit(&data, max_depth, &mut rng);
            assert_eq!(total_leaf_size(&tree.root), data.len());
            assert!(height(&tree.root) <= max_depth);
            assert!(smallest_leaf(&tree.root) >= 1);
        }
    }
}

#[test]
fn tree_of_depth_zero_is_one_leaf() {
    let mut rng = StdRng::seed_from_u64(4);
    let tree = IsolationTree::fit(&grid(), 0, &mut rng);
    assert_eq!(tree.root, IsolationNode::Leaf { size: 16 });
}

#[test]
fn tree_of_few_or_equal_rows_is_one_leaf() {
    let mut rng = StdRng::seed_from_u64(4);
    assert_eq!(IsolationTree::fit(&[], 8, &mut rng).root, IsolationNode::Leaf { size: 0 });
    assert_eq!(
        IsolationTree::fit(&[vec![1, 2]], 8, &mut rng).root,
        IsolationNode::Leaf { size: 1 }
    );
    let same = vec![vec![0, 0, 0]; 5];
    assert_eq!(IsolationTree::fit(&same, 8, &mut rng).root, IsolationNode::Leaf { size: 5 });
    let without_features: Vec<Vec<i64>> = vec![vec![]; 3];
    assert_eq!(
        IsolationTree::fit(&without_features, 8, &mut rng).root,
        IsolationNode::Leaf { size: 3 }
    );
}

#[test]
fn tree_cuts_values_that_differ_by_one() {
    let data = vec![vec![0], vec![1]];
    let mut rng = StdRng::seed_from_u64(6);
    let tree = IsolationTree::fit(&data, 4, &mut rng);
    match &tree.root {
        IsolationNode::Branch { feature, threshold, left, right } => {
            assert_eq!(*feature, 0);
            assert_eq!(*threshold, 1);
            assert_eq!(**left, IsolationNode::Leaf { size: 1 });
            assert_eq!(**right, IsolationNode::Leaf { size: 1 });
        }
        leaf => panic!("expected a branch, got {:?}", leaf),
    }
}

#[test]
fn path_length_follows_the_branches() {
    let tree = IsolationNode::Branch {
        feature: 1,
        threshold: 10,
        left: Box::new(IsolationNode::Leaf { size: 3 }),
        right: Box::new(IsolationNode::Branch {
            feature: 0,
            threshold: -5,
            left: Box::new(IsolationNode::Leaf { size: 1 }),
            right: Box::new(IsolationNode::Leaf { size: 7 }),
        }),
    };
    assert_eq!(tree.path_length(&[0, 9], 0), PathLength { steps: 1, leaf_size: 3 });
    assert_eq!(tree.path_length(&[-6, 10], 0), PathLength { steps: 2, leaf_size: 1 });
    assert_eq!(tree.path_length(&[-5, 10], 0), PathLength { steps: 2, leaf_size: 7 });
    assert_eq!(tree.path_length(&[99, 99], 4), PathLength { steps: 6, leaf_size: 7 });
}

#[test]
fn training_rows_come_to_rest_in_inhabited_leaves() {
    let data = grid();
    let mut rng = StdRng::seed_from_u64(8);
    let tree = IsolationTree::fit(&data, 4, &mut rng);
    for row in &data {
        let path = tree.root.path_length(row, 0);
        assert!(path.leaf_size >= 1);
        assert!(path.steps <= 4);
    }
}

#[test]
fn forest_holds_what_was_asked_for() {
    let data = grid();
    let mut rng = StdRng::seed_from_u64(10);
    let forest = IsolationForest::fit(&data, 12, 8, &mut rng);
    assert_eq!(forest.n_trees(), 12);
    assert_eq!(forest.sample_size(), 8);
    assert_eq!(forest.dimension(), Some(3));
    let paths = forest.path_lengths(&[1, 2, 3]).unwrap();
    assert_eq!(paths.len(), 12);
    for path in paths {
        assert!(path.steps <= 3);
        assert!(path.leaf_size <= 8);
    }
}

#[test]
fn forest_sample_size_is_capped_by_the_data() {
    let data = grid();
    let mut rng = StdRng::seed_from_u64(10);
    let forest = IsolationForest::fit(&data, 3, 1000, &mut rng);
    assert_eq!(forest.sample_size(), 16);
    let paths = forest.path_lengths(&[1, 2, 3]).unwrap();
    for path in paths {
        assert!(path.steps <= 10);
    }
}

#[test]
fn forest_refuses_a_point_of_another_dimension() {
    let mut rng = StdRng::seed_from_u64(10);
    let forest = IsolationForest::fit(&grid(), 4, 8, &mut rng);
    assert_eq!(
        forest.path_lengths(&[1, 2]),
        Err(DimensionMismatch { expected: 3, found: 2 })
    );
    assert_eq!(
        forest.path_lengths(&[1, 2, 3, 4]),
        Err(DimensionMismatch { expected: 3, found: 4 })
    );
    assert!(forest.path_lengths(&[1, 2, 3]).is_ok());
}

#[test]
fn forest_trained_on_nothing_takes_any_point() {
    let mut rng = StdRng::seed_from_u64(10);
    let forest = IsolationForest::fit(&[], 4, 8, &mut rng);
    assert_eq!(forest.sample_size(), 0);
    assert_eq!(forest.dimension(), None);
    let paths = forest.path_lengths(&[1, 2, 3]).unwrap();
    assert_eq!(paths, vec![PathLength { steps: 0, leaf_size: 0 }; 4]);
    assert_eq!(score(&paths, forest.sample_size()), 0.5);
}

#[test]
fn forest_with_sample_size_one_scores_neutral() {
    let mut rng = StdRng::seed_from_u64(10);
    let forest = IsolationForest::fit(&grid(), 6, 1, &mut rng);
    assert_eq!(forest.sample_size(), 1);
    let paths = forest.path_lengths(&[1, 2, 3]).unwrap();
    assert_eq!(paths, vec![PathLength { steps: 0, leaf_size: 1 }; 6]);
    assert_eq!(score(&paths, forest.sample_size()), 0.5);
}

#[test]
fn forest_without_trees_gives_no_paths() {
    let mut rng = StdRng::seed_from_u64(10);
    let forest = IsolationForest::fit(&grid(), 0, 8, &mut rng);
    assert_eq!(forest.n_trees(), 0);
    assert_eq!(forest.path_lengths(&[1, 2, 3]), Ok(vec![]));
}

#[test]
fn same_seed_gives_the_same_forest() {
    let data = grid();
    let first = IsolationForest::fit(&data, 10, 8, &mut StdRng::seed_from_u64(42));
    let second = IsolationForest::fit(&data, 10, 8, &mut StdRng::seed_from_u64(42));
    assert_eq!(first, second);
    let point = [3, 5, 97];
    assert_eq!(first.path_lengths(&point), second.path_lengths(&point));
}

#[test]
fn scores_are_stable_across_seeds() {
    let mut data: Vec<Vec<i64>> = Vec::new();
    for i in 0..128i64 {
        data.push(vec![(i * 37) % 101, (i * 53) % 103]);
    }
    let point = [50, 50];
    let mut scores = Vec::new();
    for seed in 0..5u64 {
        let forest = IsolationForest::fit(&data, 200, 64, &mut StdRng::seed_from_u64(seed));
        let paths = forest.path_lengths(&point).unwrap();
        scores.push(score(&paths, forest.sample_size()));
    }
    let least = scores.iter().cloned().fold(f64::INFINITY, f64::min);
    let greatest = scores.iter().cloned().fold(f64::NEG_INFINITY, f64::max);
    assert!(greatest - least < 0.1, "scores spread from {} to {}", least, greatest);
}

#[test]
fn cut_range_decides_whether_growth_goes_on() {
    let data = vec![vec![5, 0, 7], vec![1, 0, 9], vec![3, 0, 8]];
    assert_eq!(cut_range(&data, 0, 3, 0), Some((1, 5)));
    assert_eq!(cut_range(&data, 2, 3, 2), Some((7, 9)));
    assert_eq!(cut_range(&data, 0, 3, 1), None);
    assert_eq!(cut_range(&data, 3, 3, 0), None);
    assert_eq!(cut_range(&data, 4, 3, 0), None);
    assert_eq!(cut_range(&data[..1], 0, 3, 0), None);
    assert_eq!(cut_range(&[], 0, 3, 0), None);
    assert_eq!(cut_range(&data[..2], 0, 3, 0), Some((1, 5)));
}

#[test]
fn grow_at_cuts_at_the_drawn_feature_wherever_its_values_differ() {
    let data = vec![vec![5, 0, 7], vec![1, 0, 9], vec![3, 0, 8]];
    for seed in 0..50u64 {
        let mut rng = StdRng::seed_from_u64(seed);
        match IsolationTree::grow_at(&data, 0, 4, 2, &mut rng) {
            IsolationNode::Branch { feature, threshold, .. } => {
                assert_eq!(feature, 2);
                assert!(7 < threshold && threshold <= 9);
            }
            IsolationNode::Leaf { .. } => panic!("stopped where the values differ"),
        }
    }
}

#[test]
fn grow_at_stops_without_a_draw_where_the_rows_agree() {
    let data = vec![vec![5, 0, 7], vec![1, 0, 9], vec![3, 0, 8]];
    let mut rng = StdRng::seed_from_u64(3);
    let untouched = rng.clone();
    assert_eq!(IsolationTree::grow_at(&data, 0, 4, 1, &mut rng), IsolationNode::Leaf { size: 3 });
    assert_eq!(IsolationTree::grow_at(&data, 4, 4, 0, &mut rng), IsolationNode::Leaf { size: 3 });
    assert_eq!(IsolationTree::grow_at(&data[..1], 0, 4, 0, &mut rng), IsolationNode::Leaf { size: 1 });
    assert_eq!(rng, untouched);
}

#[test]
fn build_node_leaves_the_generator_alone_where_it_stops_at_once() {
    let data = vec![vec![5, 0, 7], vec![1, 0, 9], vec![3, 0, 8]];
    let mut rng = StdRng::seed_from_u64(4);
    let untouched = rng.clone();
    assert_eq!(IsolationTree::build_node(&data, 2, 2, &mut rng), IsolationNode::Leaf { size: 3 });
    assert_eq!(IsolationTree::build_node(&data, 5, 2, &mut rng), IsolationNode::Leaf { size: 3 });
    assert_eq!(IsolationTree::build_node(&data[..1], 0, 2, &mut rng), IsolationNode::Leaf { size: 1 });
    assert_eq!(IsolationTree::build_node(&[], 0, 2, &mut rng), IsolationNode::Leaf { size: 0 });
    let empty_rows: Vec<Vec<i64>> = vec![vec![], vec![]];
    assert_eq!(IsolationTree::build_node(&empty_rows, 0, 2, &mut rng), IsolationNode::Leaf { size: 2 });
    assert_eq!(IsolationTree::fit(&data, 0, &mut rng).root, IsolationNode::Leaf { size: 3 });
    assert_eq!(rng, untouched);
    IsolationTree::build_node(&data, 0, 2, &mut rng);
    assert_ne!(rng, untouched);
}

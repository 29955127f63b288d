//! Isolation trees and the forest that is grown of them.
//!
//! A tree is grown by cutting a sample of rows at a random feature and a
//! random cut point until a row stands alone, the rows agree on the chosen
//! feature, or the depth limit is reached. A point that is unlike the sample
//! leaves the crowd after few cuts, so a short path marks an anomaly.

use crate::random::{draw_cut, draw_index};
use crate::sequences::{lemma_filter_push, lemma_filter_within, rows};
use rand::rngs::StdRng;
use vstd::prelude::*;

verus! {

/// Where a point comes to rest in one tree: the number of partition steps
/// taken, and the number of training rows that share its leaf.
///
/// The real-valued path length is `steps + c(leaf_size)`, where `c` is the
/// expected length of an unsuccessful search among `leaf_size` items.
#[derive(Clone, Copy, Debug, PartialEq, Eq, Structural)]
pub struct PathLength {
    pub steps: usize,
    pub leaf_size: usize,
}

/// A point whose number of features differs from the one a forest was
/// trained on.
#[derive(Clone, Copy, Debug, PartialEq, Eq, Structural)]
pub struct DimensionMismatch {
    pub expected: usize,
    pub found: usize,
}

/// Every row has the same number of features.
pub open spec fn uniform(data: Seq<Seq<i64>>) -> bool {
    forall|i: int, j: int| 0 <= i < data.len() && 0 <= j < data.len() ==> data[i].len() == data[j].len()
}

/// The number of features of the rows of `data`; zero when there is no row.
pub open spec fn dimension_of(data: Seq<Seq<i64>>) -> nat {
    if data.len() == 0 {
        0
    } else {
        data[0].len()
    }
}

/// All rows carry the same value at `feature`.
pub open spec fn constant_on(data: Seq<Seq<i64>>, feature: int) -> bool {
    forall|i: int, j: int|
        0 <= i < data.len() && 0 <= j < data.len() ==> data[i][feature] == data[j][feature]
}

/// Whether a row falls on the left of a cut: its value at `feature` lies
/// strictly below `threshold`.
pub open spec fn goes_left(row: Seq<i64>, feature: int, threshold: i64) -> bool {
    row[feature] < threshold
}

/// The rows that fall on the left of a cut, in their order.
pub open spec fn left_part(data: Seq<Seq<i64>>, feature: int, threshold: i64) -> Seq<Seq<i64>> {
    data.filter(|row: Seq<i64>| goes_left(row, feature, threshold))
}

/// The rows that fall on the right of a cut, in their order.
pub open spec fn right_part(data: Seq<Seq<i64>>, feature: int, threshold: i64) -> Seq<Seq<i64>> {
    data.filter(|row: Seq<i64>| !goes_left(row, feature, threshold))
}

/// A node of an isolation tree.
#[derive(Debug, PartialEq, Eq)]
pub enum IsolationNode {
    /// An inner node: rows whose value at `feature` lies below `threshold`
    /// belong to `left`, all others to `right`.
    Branch { feature: usize, threshold: i64, left: Box<IsolationNode>, right: Box<IsolationNode> },
    /// A leaf, holding the number of training rows that reached it.
    Leaf { size: usize },
}

impl IsolationNode {
    /// The number of branches on the longest way down.
    pub open spec fn height(self) -> nat
        decreases self,
    {
        match self {
            IsolationNode::Leaf { .. } => 0,
            IsolationNode::Branch { left, right, .. } => {
                let l = left.height();
                let r = right.height();
                1 + if l >= r {
                    l
                } else {
                    r
                }
            },
        }
    }

    /// Every branch tests a feature below `dimension`, so a point with that
    /// many features can be routed without leaving its bounds.
    pub open spec fn indexes_within(self, dimension: nat) -> bool
        decreases self,
    {
        match self {
            IsolationNode::Leaf { .. } => true,
            IsolationNode::Branch { feature, left, right, .. } => {
                &&& feature < dimension
                &&& left.indexes_within(dimension)
                &&& right.indexes_within(dimension)
            },
        }
    }

    /// The sum of the sizes of all leaves.
    pub open spec fn total_leaf_size(self) -> nat
        decreases self,
    {
        match self {
            IsolationNode::Leaf { size } => size as nat,
            IsolationNode::Branch { left, right, .. } => left.total_leaf_size()
                + right.total_leaf_size(),
        }
    }

    /// The number of branches that `point` passes on its way to a leaf.
    pub open spec fn steps_of(self, point: Seq<i64>) -> nat
        decreases self,
    {
        match self {
            IsolationNode::Leaf { .. } => 0,
            IsolationNode::Branch { feature, threshold, left, right } => {
                if goes_left(point, feature as int, threshold) {
                    1 + left.steps_of(point)
                } else {
                    1 + right.steps_of(point)
                }
            },
        }
    }

    /// The size of the leaf that `point` is routed to.
    pub open spec fn leaf_size_of(self, point: Seq<i64>) -> nat
        decreases self,
    {
        match self {
            IsolationNode::Leaf { size } => size as nat,
            IsolationNode::Branch { feature, threshold, left, right } => {
                if goes_left(point, feature as int, threshold) {
                    left.leaf_size_of(point)
                } else {
                    right.leaf_size_of(point)
                }
            },
        }
    }

    /// The node is one that growing a tree from `data` at `depth` can give.
    ///
    /// A leaf counts the rows and stands only where growth must stop: at the
    /// depth limit, on fewer than two rows, or where the rows agree on a
    /// feature (the one that was drawn). A branch stands below the depth
    /// limit, cuts at a feature of the rows so that neither side is empty,
    /// and each child is grown from its side, one level down.
    pub open spec fn grown_from(self, data: Seq<Seq<i64>>, depth: nat, max_depth: nat) -> bool
        decreases self,
    {
        match self {
            IsolationNode::Leaf { size } => {
                &&& size == data.len()
                &&& (depth >= max_depth || data.len() <= 1 || dimension_of(data) == 0 || exists|
                    f: int,
                | 0 <= f < dimension_of(data) && constant_on(data, f))
            },
            IsolationNode::Branch { feature, threshold, left, right } => {
                &&& depth < max_depth
                &&& feature < dimension_of(data)
                &&& left_part(data, feature as int, threshold).len() > 0
                &&& right_part(data, feature as int, threshold).len() > 0
                &&& left.grown_from(left_part(data, feature as int, threshold), depth + 1, max_depth)
                &&& right.grown_from(
                    right_part(data, feature as int, threshold),
                    depth + 1,
                    max_depth,
                )
            },
        }
    }

    /// Routes `point` from this node down to a leaf and reports where it
    /// came to rest; `depth` is the number of steps already taken above.
    pub fn path_length(&self, point: &[i64], depth: usize) -> (path: PathLength)
        requires
            self.indexes_within(point@.len()),
            depth + self.height() <= usize::MAX,
        ensures
            path.steps == depth + self.steps_of(point@),
            path.leaf_size == self.leaf_size_of(point@),
        decreases self,
    {
        match self {
            IsolationNode::Leaf { size } => PathLength { steps: depth, leaf_size: *size },
            IsolationNode::Branch { feature, threshold, left, right } => {
                if point[*feature] < *threshold {
                    left.path_length(point, depth + 1)
                } else {
                    right.path_length(point, depth + 1)
                }
            },
        }
    }
}


/// A row of `data` that falls on one side of a cut makes that side non-empty.
pub proof fn lemma_side_inhabited(data: Seq<Seq<i64>>, feature: int, threshold: i64, i: int)
    requires
        0 <= i < data.len(),
    ensures
        goes_left(data[i], feature, threshold) ==> left_part(data, feature, threshold).len() > 0,
        !goes_left(data[i], feature, threshold) ==> right_part(data, feature, threshold).len() > 0,
{
    broadcast use Seq::lemma_filter_contains;

    if goes_left(data[i], feature, threshold) {
        let pred = |row: Seq<i64>| goes_left(row, feature, threshold);
        assert(pred(data[i]));
        assert(data.filter(pred).contains(data[i]));
    } else {
        let pred = |row: Seq<i64>| !goes_left(row, feature, threshold);
        assert(pred(data[i]));
        assert(data.filter(pred).contains(data[i]));
    }
}

/// A cut keeps the rows' common number of features on both sides.
pub proof fn lemma_parts_uniform(data: Seq<Seq<i64>>, feature: int, threshold: i64)
    requires
        uniform(data),
    ensures
        uniform(left_part(data, feature, threshold)),
        uniform(right_part(data, feature, threshold)),
        left_part(data, feature, threshold).len() > 0 ==> dimension_of(
            left_part(data, feature, threshold),
        ) == dimension_of(data),
        right_part(data, feature, threshold).len() > 0 ==> dimension_of(
            right_part(data, feature, threshold),
        ) == dimension_of(data),
{
    let keep_left = |row: Seq<i64>| goes_left(row, feature, threshold);
    let keep_right = |row: Seq<i64>| !goes_left(row, feature, threshold);
    lemma_filter_within(data, keep_left);
    lemma_filter_within(data, keep_right);
    let l = left_part(data, feature, threshold);
    let r = right_part(data, feature, threshold);
    assert forall|i: int, j: int| 0 <= i < l.len() && 0 <= j < l.len() implies l[i].len()
        == l[j].len() by {
        assert(data.contains(l[i]));
        assert(data.contains(l[j]));
    }
    assert forall|i: int, j: int| 0 <= i < r.len() && 0 <= j < r.len() implies r[i].len()
        == r[j].len() by {
        assert(data.contains(r[i]));
        assert(data.contains(r[j]));
    }
    if l.len() > 0 {
        assert(data.contains(l[0]));
    }
    if r.len() > 0 {
        assert(data.contains(r[0]));
    }
}

/// The least and the greatest value that the rows carry at `feature`.
pub fn column_range(data: &[Vec<i64>], feature: usize) -> (range: (i64, i64))
    requires
        data@.len() > 0,
        uniform(rows(data@)),
        feature < dimension_of(rows(data@)),
    ensures
        forall|i: int| 0 <= i < data@.len() ==> range.0 <= #[trigger] data@[i]@[feature as int] <= range.1,
        exists|i: int| 0 <= i < data@.len() && data@[i]@[feature as int] == range.0,
        exists|i: int| 0 <= i < data@.len() && data@[i]@[feature as int] == range.1,
{
    assert(rows(data@)[0] == data@[0]@);
    let mut low: i64 = data[0][feature];
    let mut high: i64 = data[0][feature];
    let mut k: usize = 1;
    while k < data.len()
        invariant
            1 <= k <= data@.len(),
            uniform(rows(data@)),
            feature < dimension_of(rows(data@)),
            forall|i: int| 0 <= i < k ==> low <= #[trigger] data@[i]@[feature as int] <= high,
            exists|i: int| 0 <= i < k && data@[i]@[feature as int] == low,
            exists|i: int| 0 <= i < k && data@[i]@[feature as int] == high,
        decreases data@.len() - k,
    {
        assert(rows(data@)[k as int] == data@[k as int]@);
        assert(rows(data@)[k as int].len() == rows(data@)[0].len());
        let value: i64 = data[k][feature];
        if value < low {
            low = value;
        }
        if value > high {
            high = value;
        }
        k += 1;
    }
    (low, high)
}

/// Splits the rows at a cut: those whose value at `feature` lies below
/// `threshold`, and the others, each side in the order of `data`.
pub fn partition(data: &[Vec<i64>], feature: usize, threshold: i64) -> (sides: (
    Vec<Vec<i64>>,
    Vec<Vec<i64>>,
))
    requires
        uniform(rows(data@)),
        feature < dimension_of(rows(data@)),
    ensures
        rows(sides.0@) == left_part(rows(data@), feature as int, threshold),
        rows(sides.1@) == right_part(rows(data@), feature as int, threshold),
{
    let mut left: Vec<Vec<i64>> = Vec::new();
    let mut right: Vec<Vec<i64>> = Vec::new();
    let ghost all = rows(data@);
    let ghost keep_left = |row: Seq<i64>| goes_left(row, feature as int, threshold);
    let ghost keep_right = |row: Seq<i64>| !goes_left(row, feature as int, threshold);
    let mut k: usize = 0;
    proof {
        reveal(Seq::filter);
        assert(all.take(0).filter(keep_left) =~= rows(left@));
        assert(all.take(0).filter(keep_right) =~= rows(right@));
    }
    while k < data.len()
        invariant
            0 <= k <= data@.len(),
            all == rows(data@),
            uniform(all),
            feature < dimension_of(all),
            keep_left == |row: Seq<i64>| goes_left(row, feature as int, threshold),
            keep_right == |row: Seq<i64>| !goes_left(row, feature as int, threshold),
            rows(left@) == all.take(k as int).filter(keep_left),
            rows(right@) == all.take(k as int).filter(keep_right),
        decreases data@.len() - k,
    {
        assert(all[k as int] == data@[k as int]@);
        assert(all[k as int].len() == all[0].len());
        let row: Vec<i64> = data[k].clone();
        assert(row@ =~= data@[k as int]@);
        proof {
            lemma_filter_push(all.take(k as int), all[k as int], keep_left);
            lemma_filter_push(all.take(k as int), all[k as int], keep_right);
            assert(all.take(k as int).push(all[k as int]) =~= all.take(k + 1));
        }
        if data[k][feature] < threshold {
            let ghost before = left@;
            left.push(row);
            assert(rows(left@) =~= rows(before).push(row@));
        } else {
            let ghost before = right@;
            right.push(row);
            assert(rows(right@) =~= rows(before).push(row@));
        }
        k += 1;
    }
    assert(all.take(k as int) =~= all);
    (left, right)
}

/// A single isolation tree.
#[derive(Debug, PartialEq, Eq)]
pub struct IsolationTree {
    pub root: IsolationNode,
}

impl IsolationTree {
    /// The tree was grown, no deeper than `max_depth`, from some sample of
    /// `size` rows of `data`.
    pub open spec fn grown_from_sample_of(self, data: Seq<Seq<i64>>, size: nat, max_depth: nat) -> bool {
        exists|sample: Seq<Seq<i64>>|
            drawn_from(sample, data, size) && #[trigger] self.root.grown_from(sample, 0, max_depth)
    }

    /// Grows a tree from `data`, cutting no deeper than `max_depth`.
    pub fn fit(data: &[Vec<i64>], max_depth: usize, rng: &mut StdRng) -> (tree: Self)
        requires
            uniform(rows(data@)),
        ensures
            tree.root.grown_from(rows(data@), 0, max_depth as nat),
            max_depth == 0 || data@.len() <= 1 || dimension_of(rows(data@)) == 0 ==> *final(rng)
                == *old(rng),
    {
        let root = Self::build_node(data, 0, max_depth, rng);
        IsolationTree { root }
    }

    /// Routes `point` from the root down to a leaf and reports where it came
    /// to rest.
    pub fn path_length(&self, point: &[i64]) -> (path: PathLength)
        requires
            self.root.indexes_within(point@.len()),
            self.root.height() <= usize::MAX,
        ensures
            path.leads(self.root, point@),
    {
        self.root.path_length(point, 0)
    }

    /// Grows the node that stands for `data` at `depth`.
    ///
    /// Growth stops with a leaf at the depth limit, on fewer than two rows,
    /// and where all rows agree on the feature that was drawn. Otherwise the
    /// rows are cut at that feature, at a point drawn between its least and
    /// its greatest value, so that each side keeps a row, and both sides are
    /// grown one level down. Where growth stops before a feature is drawn,
    /// the generator is left as it was.
    pub fn build_node(data: &[Vec<i64>], depth: usize, max_depth: usize, rng: &mut StdRng) -> (node:
        IsolationNode)
        requires
            uniform(rows(data@)),
        ensures
            node.grown_from(rows(data@), depth as nat, max_depth as nat),
            depth >= max_depth || data@.len() <= 1 || dimension_of(rows(data@)) == 0 ==> *final(rng)
                == *old(rng) && node == (IsolationNode::Leaf { size: data@.len() as usize }),
        decreases max_depth - depth, 1int,
    {
        if depth >= max_depth || data.len() <= 1 {
            return IsolationNode::Leaf { size: data.len() };
        }
        assert(rows(data@)[0] == data@[0]@);
        let n_features = data[0].len();
        if n_features == 0 {
            return IsolationNode::Leaf { size: data.len() };
        }
        let feature = draw_index(rng, n_features);
        Self::grow_at(data, depth, max_depth, feature, rng)
    }

    /// Grows the node that stands for `data` at `depth` once `feature` has
    /// been drawn.
    ///
    /// The node is a leaf exactly where growth stops: at the depth limit, on
    /// fewer than two rows, or where all rows agree on `feature`; the
    /// generator is then left as it was. Everywhere else it is a branch that
    /// cuts at `feature`.
    pub fn grow_at(
        data: &[Vec<i64>],
        depth: usize,
        max_depth: usize,
        feature: usize,
        rng: &mut StdRng,
    ) -> (node: IsolationNode)
        requires
            uniform(rows(data@)),
            data@.len() > 0 ==> feature < dimension_of(rows(data@)),
        ensures
            node.grown_from(rows(data@), depth as nat, max_depth as nat),
            node is Leaf <==> depth >= max_depth || data@.len() <= 1 || constant_on(
                rows(data@),
                feature as int,
            ),
            node is Leaf ==> *final(rng) == *old(rng),
            node matches IsolationNode::Branch { feature: cut, .. } ==> cut == feature,
        decreases max_depth - depth, 0int,
    {
        let ghost all = rows(data@);
        let (low, high) = match cut_range(data, depth, max_depth, feature) {
            Some(range) => range,
            None => {
                return IsolationNode::Leaf { size: data.len() };
            },
        };
        let threshold = draw_cut(rng, low, high);
        let (left_data, right_data) = partition(data, feature, threshold);
        proof {
            let at_low = choose|i: int| 0 <= i < all.len() && (#[trigger] all[i])[feature as int] == low;
            let at_high = choose|i: int| 0 <= i < all.len() && (#[trigger] all[i])[feature as int] == high;
            lemma_side_inhabited(all, feature as int, threshold, at_low);
            lemma_side_inhabited(all, feature as int, threshold, at_high);
            lemma_parts_uniform(all, feature as int, threshold);
        }
        let left = Self::build_node(left_data.as_slice(), depth + 1, max_depth, rng);
        let right = Self::build_node(right_data.as_slice(), depth + 1, max_depth, rng);
        IsolationNode::Branch { feature, threshold, left: Box::new(left), right: Box::new(right) }
    }
}

/// Whether `range` holds the least and the greatest value that the rows of
/// `data` carry at `feature`.
pub open spec fn bounds_column(range: (i64, i64), data: Seq<Seq<i64>>, feature: int) -> bool {
    &&& forall|i: int| 0 <= i < data.len() ==> range.0 <= (#[trigger] data[i])[feature] <= range.1
    &&& exists|i: int| 0 <= i < data.len() && (#[trigger] data[i])[feature] == range.0
    &&& exists|i: int| 0 <= i < data.len() && (#[trigger] data[i])[feature] == range.1
}

/// Decides whether growth goes on at `feature`, and between which values
/// the rows are then to be cut.
///
/// Growth stops at the depth limit, on fewer than two rows, and where all
/// rows agree on `feature`. Everywhere else the answer is the least and the
/// greatest value at `feature`, which differ.
pub fn cut_range(data: &[Vec<i64>], depth: usize, max_depth: usize, feature: usize) -> (range: Option<
    (i64, i64),
>)
    requires
        uniform(rows(data@)),
        data@.len() > 0 ==> feature < dimension_of(rows(data@)),
    ensures
        range is None <==> depth >= max_depth || data@.len() <= 1 || constant_on(
            rows(data@),
            feature as int,
        ),
        range matches Some(r) ==> r.0 < r.1 && bounds_column(r, rows(data@), feature as int),
{
    if depth >= max_depth || data.len() <= 1 {
        return None;
    }
    let ghost all = rows(data@);
    let (low, high) = column_range(data, feature);
    proof {
        let at_low = choose|i: int| 0 <= i < data@.len() && data@[i]@[feature as int] == low;
        let at_high = choose|i: int| 0 <= i < data@.len() && data@[i]@[feature as int] == high;
        assert(all[at_low] == data@[at_low]@);
        assert(all[at_high] == data@[at_high]@);
        assert forall|i: int| 0 <= i < all.len() implies low <= (#[trigger] all[i])[feature as int]
            <= high by {
            assert(all[i] == data@[i]@);
        }
        assert(bounds_column((low, high), all, feature as int));
    }
    if low == high {
        None
    } else {
        Some((low, high))
    }
}

/// A cut sends every row to exactly one side.
pub proof fn lemma_parts_cover(data: Seq<Seq<i64>>, feature: int, threshold: i64)
    ensures
        left_part(data, feature, threshold).len() + right_part(data, feature, threshold).len()
            == data.len(),
    decreases data.len(),
{
    reveal(Seq::filter);
    if data.len() > 0 {
        lemma_parts_cover(data.drop_last(), feature, threshold);
    }
}

impl IsolationNode {
    /// The leaves of a grown node count each row of its data once.
    pub proof fn lemma_leaves_count_rows(self, data: Seq<Seq<i64>>, depth: nat, max_depth: nat)
        requires
            self.grown_from(data, depth, max_depth),
        ensures
            self.total_leaf_size() == data.len(),
        decreases self,
    {
        match self {
            IsolationNode::Leaf { .. } => {},
            IsolationNode::Branch { feature, threshold, left, right } => {
                left.lemma_leaves_count_rows(
                    left_part(data, feature as int, threshold),
                    depth + 1,
                    max_depth,
                );
                right.lemma_leaves_count_rows(
                    right_part(data, feature as int, threshold),
                    depth + 1,
                    max_depth,
                );
                lemma_parts_cover(data, feature as int, threshold);
            },
        }
    }

    /// A node grown at `depth` reaches no deeper than the depth limit.
    pub proof fn lemma_height_within_limit(self, data: Seq<Seq<i64>>, depth: nat, max_depth: nat)
        requires
            self.grown_from(data, depth, max_depth),
            depth <= max_depth,
        ensures
            depth + self.height() <= max_depth,
        decreases self,
    {
        match self {
            IsolationNode::Leaf { .. } => {},
            IsolationNode::Branch { feature, threshold, left, right } => {
                left.lemma_height_within_limit(
                    left_part(data, feature as int, threshold),
                    depth + 1,
                    max_depth,
                );
                right.lemma_height_within_limit(
                    right_part(data, feature as int, threshold),
                    depth + 1,
                    max_depth,
                );
            },
        }
    }

    /// A node grown from rows of one dimension tests only features that a
    /// point of that dimension has.
    pub proof fn lemma_grown_indexes_within(self, data: Seq<Seq<i64>>, depth: nat, max_depth: nat)
        requires
            self.grown_from(data, depth, max_depth),
            uniform(data),
        ensures
            self.indexes_within(dimension_of(data)),
        decreases self,
    {
        match self {
            IsolationNode::Leaf { .. } => {},
            IsolationNode::Branch { feature, threshold, left, right } => {
                lemma_parts_uniform(data, feature as int, threshold);
                left.lemma_grown_indexes_within(
                    left_part(data, feature as int, threshold),
                    depth + 1,
                    max_depth,
                );
                right.lemma_grown_indexes_within(
                    right_part(data, feature as int, threshold),
                    depth + 1,
                    max_depth,
                );
            },
        }
    }

    /// From no rows nothing but a leaf can grow.
    pub proof fn lemma_grown_from_nothing(self, data: Seq<Seq<i64>>, depth: nat, max_depth: nat)
        requires
            self.grown_from(data, depth, max_depth),
        ensures
            data.len() == 0 ==> self is Leaf,
    {
        match self {
            IsolationNode::Leaf { .. } => {},
            IsolationNode::Branch { feature, threshold, .. } => {
                lemma_parts_cover(data, feature as int, threshold);
            },
        }
    }

    /// A node that keeps within one dimension keeps within every larger one.
    pub proof fn lemma_indexes_within_more(self, dimension: nat, larger: nat)
        requires
            self.indexes_within(dimension),
            dimension <= larger,
        ensures
            self.indexes_within(larger),
        decreases self,
    {
        match self {
            IsolationNode::Leaf { .. } => {},
            IsolationNode::Branch { left, right, .. } => {
                left.lemma_indexes_within_more(dimension, larger);
                right.lemma_indexes_within_more(dimension, larger);
            },
        }
    }

    /// No point takes more steps than the node is high.
    pub proof fn lemma_steps_within_height(self, point: Seq<i64>)
        ensures
            self.steps_of(point) <= self.height(),
        decreases self,
    {
        match self {
            IsolationNode::Leaf { .. } => {},
            IsolationNode::Branch { left, right, .. } => {
                left.lemma_steps_within_height(point);
                right.lemma_steps_within_height(point);
            },
        }
    }

    /// Wherever a point comes to rest in a grown node, its leaf holds no more
    /// rows than the node was grown from.
    pub proof fn lemma_leaf_size_within(
        self,
        data: Seq<Seq<i64>>,
        depth: nat,
        max_depth: nat,
        point: Seq<i64>,
    )
        requires
            self.grown_from(data, depth, max_depth),
        ensures
            self.leaf_size_of(point) <= data.len(),
        decreases self,
    {
        match self {
            IsolationNode::Leaf { .. } => {},
            IsolationNode::Branch { feature, threshold, left, right } => {
                lemma_parts_cover(data, feature as int, threshold);
                left.lemma_leaf_size_within(
                    left_part(data, feature as int, threshold),
                    depth + 1,
                    max_depth,
                    point,
                );
                right.lemma_leaf_size_within(
                    right_part(data, feature as int, threshold),
                    depth + 1,
                    max_depth,
                    point,
                );
            },
        }
    }

    /// A row of the training data comes to rest in a leaf that counts at
    /// least that row.
    pub proof fn lemma_row_reaches_inhabited_leaf(
        self,
        data: Seq<Seq<i64>>,
        depth: nat,
        max_depth: nat,
        row: Seq<i64>,
    )
        requires
            self.grown_from(data, depth, max_depth),
            data.contains(row),
        ensures
            self.leaf_size_of(row) >= 1,
        decreases self,
    {
        broadcast use Seq::lemma_filter_contains;

        match self {
            IsolationNode::Leaf { .. } => {},
            IsolationNode::Branch { feature, threshold, left, right } => {
                let i = choose|i: int| 0 <= i < data.len() && data[i] == row;
                if goes_left(row, feature as int, threshold) {
                    let keep = |r: Seq<i64>| goes_left(r, feature as int, threshold);
                    assert(keep(data[i]));
                    assert(data.filter(keep).contains(data[i]));
                    left.lemma_row_reaches_inhabited_leaf(
                        left_part(data, feature as int, threshold),
                        depth + 1,
                        max_depth,
                        row,
                    );
                } else {
                    let keep = |r: Seq<i64>| !goes_left(r, feature as int, threshold);
                    assert(keep(data[i]));
                    assert(data.filter(keep).contains(data[i]));
                    right.lemma_row_reaches_inhabited_leaf(
                        right_part(data, feature as int, threshold),
                        depth + 1,
                        max_depth,
                        row,
                    );
                }
            },
        }
    }
}

/// The least `d` with `2^d >= n`: the base-two logarithm of `n`, rounded up,
/// and zero for `n` below two.
pub open spec fn log2_ceil(n: nat) -> nat
    decreases n,
{
    if n <= 1 {
        0
    } else {
        1 + log2_ceil(((n + 1) / 2) as nat)
    }
}

/// `log2_ceil(n)` is the least exponent whose power of two reaches `n`.
pub proof fn lemma_log2_ceil_is_least(n: nat)
    requires
        n >= 1,
    ensures
        n <= vstd::arithmetic::power2::pow2(log2_ceil(n)),
        log2_ceil(n) > 0 ==> vstd::arithmetic::power2::pow2((log2_ceil(n) - 1) as nat) < n,
    decreases n,
{
    broadcast use vstd::arithmetic::power2::lemma_pow2_unfold;

    vstd::arithmetic::power2::lemma2_to64();
    if n > 1 {
        let half = ((n + 1) / 2) as nat;
        lemma_log2_ceil_is_least(half);
        let d = log2_ceil(half);
        assert(vstd::arithmetic::power2::pow2(d + 1) == 2 * vstd::arithmetic::power2::pow2(d));
        if d > 0 {
            assert(vstd::arithmetic::power2::pow2(d) == 2 * vstd::arithmetic::power2::pow2(
                (d - 1) as nat,
            ));
        }
    }
}

/// `log2_ceil` never exceeds its argument.
pub proof fn lemma_log2_ceil_bounded(n: nat)
    ensures
        log2_ceil(n) <= n,
    decreases n,
{
    if n > 1 {
        lemma_log2_ceil_bounded(((n + 1) / 2) as nat);
    }
}

/// The depth limit of a forest whose trees are asked to hold `sample_size`
/// rows each: the base-two logarithm of `sample_size`, rounded up.
pub fn depth_limit(sample_size: usize) -> (limit: usize)
    ensures
        limit == log2_ceil(sample_size as nat),
{
    let mut limit: usize = 0;
    let mut rest: usize = sample_size;
    while rest > 1
        invariant
            limit + log2_ceil(rest as nat) == log2_ceil(sample_size as nat),
        decreases rest,
    {
        proof {
            lemma_log2_ceil_bounded(sample_size as nat);
        }
        rest = rest - rest / 2;
        limit += 1;
    }
    limit
}

/// `sample` holds `size` rows, each of them a row of `data`.
pub open spec fn drawn_from(sample: Seq<Seq<i64>>, data: Seq<Seq<i64>>, size: nat) -> bool {
    &&& sample.len() == size
    &&& forall|k: int| 0 <= k < sample.len() ==> data.contains(#[trigger] sample[k])
}

/// Draws `size` rows from `data`, each draw independent of the others and
/// every row equally likely, so that a row may come up more than once.
pub fn subsample(data: &[Vec<i64>], size: usize, rng: &mut StdRng) -> (sample: Vec<Vec<i64>>)
    requires
        size > 0 ==> data@.len() > 0,
    ensures
        drawn_from(rows(sample@), rows(data@), size as nat),
{
    let mut sample: Vec<Vec<i64>> = Vec::new();
    let mut k: usize = 0;
    while k < size
        invariant
            0 <= k <= size,
            size > 0 ==> data@.len() > 0,
            drawn_from(rows(sample@), rows(data@), k as nat),
        decreases size - k,
    {
        let index = draw_index(rng, data.len());
        let row: Vec<i64> = data[index].clone();
        assert(row@ =~= data@[index as int]@);
        let ghost before = sample@;
        sample.push(row);
        proof {
            assert(rows(sample@) =~= rows(before).push(row@));
            assert(rows(data@)[index as int] == row@);
        }
        k += 1;
    }
    sample
}

/// An ensemble of isolation trees.
#[derive(Debug, PartialEq, Eq)]
pub struct IsolationForest {
    trees: Vec<IsolationTree>,
    sample_size: usize,
    dimension: Option<usize>,
}

impl PathLength {
    /// The path is the one that `point` takes from `node` down to a leaf.
    pub open spec fn leads(self, node: IsolationNode, point: Seq<i64>) -> bool {
        &&& self.steps == node.steps_of(point)
        &&& self.leaf_size == node.leaf_size_of(point)
    }
}

/// The number of features that data fixes for the points to be scored
/// against it: that of its rows, and none where there is no row.
pub open spec fn fixed_dimension(data: Seq<Seq<i64>>) -> Option<usize> {
    if data.len() == 0 {
        None
    } else {
        Some(data[0].len() as usize)
    }
}

impl IsolationForest {
    #[verifier::type_invariant]
    spec fn sound(self) -> bool {
        forall|t: int|
            0 <= t < self.trees@.len() ==> {
                &&& (#[trigger] self.trees@[t]).root.indexes_within(
                    match self.dimension {
                        Some(d) => d as nat,
                        None => 0,
                    },
                )
                &&& self.trees@[t].root.height() <= usize::MAX
            }
    }

    /// The trees of the forest.
    pub closed spec fn trees(self) -> Seq<IsolationTree> {
        self.trees@
    }

    /// The number of rows that each tree was grown from.
    pub closed spec fn sampled(self) -> nat {
        self.sample_size as nat
    }

    /// The number of features of the rows that the forest was trained on;
    /// none where it was trained on no row, so that every tree is a leaf.
    pub closed spec fn features(self) -> Option<usize> {
        self.dimension
    }

    /// Whether the forest can route `point`: it has the number of features
    /// that the training rows had.
    pub open spec fn takes(self, point: Seq<i64>) -> bool {
        self.features() matches Some(d) ==> point.len() == d
    }

    /// Whether `paths` tell where `point` comes to rest in each tree, in the
    /// order of the trees.
    pub open spec fn routes(self, point: Seq<i64>, paths: Seq<PathLength>) -> bool {
        &&& paths.len() == self.trees().len()
        &&& forall|t: int|
            0 <= t < paths.len() ==> (#[trigger] paths[t]).leads(self.trees()[t].root, point)
    }

    /// The forest is one that training on `data` can give: `n_trees` trees,
    /// each grown from its own sample of `min(sample_size, |data|)` rows of
    /// `data`, no deeper than the base-two logarithm of `sample_size`,
    /// rounded up.
    pub open spec fn fitted_to(self, data: Seq<Seq<i64>>, n_trees: nat, sample_size: nat) -> bool {
        &&& self.sampled() == if sample_size <= data.len() {
            sample_size
        } else {
            data.len()
        }
        &&& self.features() == fixed_dimension(data)
        &&& self.trees().len() == n_trees
        &&& forall|t: int|
            0 <= t < n_trees ==> (#[trigger] self.trees()[t]).grown_from_sample_of(
                data,
                self.sampled(),
                log2_ceil(sample_size),
            )
    }

    /// In a forest fitted to data, every point comes to rest in every tree
    /// after no more steps than the depth limit allows, in a leaf that holds
    /// no more rows than a tree was grown from. The path data that a score
    /// is computed from is bounded by the configuration alone.
    pub proof fn lemma_paths_bounded(
        self,
        data: Seq<Seq<i64>>,
        n_trees: nat,
        sample_size: nat,
        point: Seq<i64>,
        t: int,
    )
        requires
            self.fitted_to(data, n_trees, sample_size),
            0 <= t < n_trees,
        ensures
            self.trees()[t].root.steps_of(point) <= log2_ceil(sample_size),
            self.trees()[t].root.leaf_size_of(point) <= self.sampled(),
            self.sampled() <= sample_size,
    {
        let tree = self.trees()[t];
        assert(tree.grown_from_sample_of(data, self.sampled(), log2_ceil(sample_size)));
        let sample = choose|sample: Seq<Seq<i64>>|
            drawn_from(sample, data, self.sampled()) && #[trigger] tree.root.grown_from(
                sample,
                0,
                log2_ceil(sample_size),
            );
        tree.root.lemma_height_within_limit(sample, 0, log2_ceil(sample_size));
        tree.root.lemma_steps_within_height(point);
        tree.root.lemma_leaf_size_within(sample, 0, log2_ceil(sample_size), point);
    }

    /// Trains a forest of `n_trees` trees on `data`.
    ///
    /// Each tree is grown from its own sample of `min(sample_size, |data|)`
    /// rows, drawn from `data` with replacement, and cut no deeper than the
    /// base-two logarithm of the requested `sample_size`, rounded up.
    pub fn fit(data: &[Vec<i64>], n_trees: usize, sample_size: usize, rng: &mut StdRng) -> (forest:
        Self)
        requires
            uniform(rows(data@)),
        ensures
            forest.fitted_to(rows(data@), n_trees as nat, sample_size as nat),
    {
        let max_depth = depth_limit(sample_size);
        let actual_sample_size = if sample_size <= data.len() {
            sample_size
        } else {
            data.len()
        };
        let ghost all = rows(data@);
        assert(data@.len() > 0 ==> all[0] == data@[0]@);
        let dimension = if data.len() == 0 {
            None
        } else {
            Some(data[0].len())
        };
        let ghost width: nat = dimension_of(all);
        let mut trees: Vec<IsolationTree> = Vec::new();
        let ghost mut samples: Seq<Seq<Seq<i64>>> = Seq::empty();
        let mut t: usize = 0;
        while t < n_trees
            invariant
                0 <= t <= n_trees,
                all == rows(data@),
                uniform(all),
                actual_sample_size <= data@.len(),
                width == dimension_of(all),
                trees@.len() == t,
                samples.len() == t,
                forall|i: int|
                    0 <= i < t ==> {
                        &&& drawn_from(samples[i], all, actual_sample_size as nat)
                        &&& (#[trigger] trees@[i]).root.grown_from(samples[i], 0, max_depth as nat)
                        &&& trees@[i].root.indexes_within(width)
                        &&& trees@[i].root.height() <= usize::MAX
                    },
            decreases n_trees - t,
        {
            let sample = subsample(data, actual_sample_size, rng);
            let ghost drawn = rows(sample@);
            proof {
                lemma_sample_uniform(drawn, all, actual_sample_size as nat);
            }
            let tree = IsolationTree::fit(sample.as_slice(), max_depth, rng);
            proof {
                tree.root.lemma_grown_indexes_within(drawn, 0, max_depth as nat);
                tree.root.lemma_height_within_limit(drawn, 0, max_depth as nat);
                tree.root.lemma_grown_from_nothing(drawn, 0, max_depth as nat);
                samples = samples.push(drawn);
            }
            let ghost grown = trees@;
            trees.push(tree);
            assert(forall|i: int| 0 <= i < t ==> trees@[i] == grown[i]);
            t += 1;
        }
        proof {
            assert forall|i: int| 0 <= i < n_trees implies (#[trigger] trees@[i]).grown_from_sample_of(
                all,
                actual_sample_size as nat,
                max_depth as nat,
            ) by {
                assert(drawn_from(samples[i], all, actual_sample_size as nat));
                assert(trees@[i].root.grown_from(samples[i], 0, max_depth as nat));
            }
        }
        IsolationForest { trees, sample_size: actual_sample_size, dimension }
    }

    /// Routes `point` through every tree and reports where it came to rest in
    /// each, in the order of the trees.
    ///
    /// A point whose number of features is not the one the forest was trained
    /// on is refused.
    pub fn path_lengths(&self, point: &[i64]) -> (result: Result<Vec<PathLength>, DimensionMismatch>)
        ensures
            result is Ok <==> self.takes(point@),
            result matches Ok(paths) ==> self.routes(point@, paths@),
            result matches Err(mismatch) ==> self.features() == Some(mismatch.expected)
                && mismatch.found == point@.len(),
    {
        proof {
            use_type_invariant(self);
        }
        match self.dimension {
            Some(expected) => {
                if point.len() != expected {
                    return Err(DimensionMismatch { expected, found: point.len() });
                }
            },
            None => {},
        }
        let mut paths: Vec<PathLength> = Vec::new();
        let mut t: usize = 0;
        while t < self.trees.len()
            invariant
                0 <= t <= self.trees@.len(),
                self.takes(point@),
                self.sound(),
                paths@.len() == t,
                forall|i: int|
                    0 <= i < t ==> (#[trigger] paths@[i]).leads(self.trees@[i].root, point@),
            decreases self.trees@.len() - t,
        {
            proof {
                if self.dimension is None {
                    self.trees@[t as int].root.lemma_indexes_within_more(0, point@.len());
                }
            }
            let path = self.trees[t].root.path_length(point, 0);
            paths.push(path);
            t += 1;
        }
        Ok(paths)
    }

    /// The number of rows that each tree was grown from.
    pub fn sample_size(&self) -> (size: usize)
        ensures
            size == self.sampled(),
    {
        self.sample_size
    }

    /// The number of features that a point must have to be scored, if the
    /// training data fixed one.
    pub fn dimension(&self) -> (dimension: Option<usize>)
        ensures
            dimension == self.features(),
    {
        self.dimension
    }

    /// The number of trees.
    pub fn n_trees(&self) -> (count: usize)
        ensures
            count == self.trees().len(),
    {
        self.trees.len()
    }
}

/// Rows drawn from data of one dimension have that dimension.
pub proof fn lemma_sample_uniform(sample: Seq<Seq<i64>>, data: Seq<Seq<i64>>, size: nat)
    requires
        drawn_from(sample, data, size),
        uniform(data),
    ensures
        uniform(sample),
        sample.len() > 0 ==> dimension_of(sample) == dimension_of(data),
{
    assert forall|i: int, j: int| 0 <= i < sample.len() && 0 <= j < sample.len() implies sample[i].len()
        == sample[j].len() by {
        assert(data.contains(sample[i]));
        assert(data.contains(sample[j]));
    }
    if sample.len() > 0 {
        assert(data.contains(sample[0]));
    }
}

} // verus!

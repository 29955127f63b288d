//! The streaming detector: buffering, training, scoring, retraining.
//!
//! A detector starts out buffering. Once the buffer holds `buffer_size`
//! feature vectors it trains a forest on them and from then on is detecting:
//! every further observation is scored against the forest it arrived under,
//! joins the sliding buffer, and may trigger a retraining on that buffer.

use crate::isolation_forest::{
    fixed_dimension, uniform, DimensionMismatch, IsolationForest, PathLength,
};
use crate::features::{extract_features, features_of};
use crate::sequences::rows;
use crate::parser::NetworkEvent;
use crate::reporter::AnomalyReport;
use rand::rngs::StdRng;
use vstd::prelude::*;

verus! {

/// One in the unit of scores: a score is held in millionths.
pub const SCORE_ONE: u32 = 1_000_000;

/// The score of every observation under a forest whose trees were grown
/// from one row or none: such a forest tells nothing apart.
pub const NEUTRAL_SCORE: u32 = 500_000;

/// A score held to the greatest score there is.
pub open spec fn score_within(raw: u32) -> u32 {
    if raw <= SCORE_ONE {
        raw
    } else {
        SCORE_ONE
    }
}

/// Configuration of a detector.
#[derive(Clone, Copy, Debug, PartialEq, Eq, Structural)]
pub struct DetectorConfig {
    /// The number of trees of each forest.
    pub n_trees: usize,
    /// The number of observations that the first training waits for, and
    /// the length that the sliding buffer is cut back to.
    pub buffer_size: usize,
    /// The score, in millionths, from which on an observation is reported.
    pub threshold: u32,
    /// The number of scored observations after which the forest is retrained.
    pub retrain_interval: usize,
}

impl Default for DetectorConfig {
    fn default() -> (config: Self)
        ensures
            config.n_trees == 100,
            config.buffer_size == 256,
            config.threshold == 650_000,
            config.retrain_interval == 1000,
    {
        DetectorConfig { n_trees: 100, buffer_size: 256, threshold: 650_000, retrain_interval: 1000 }
    }
}

/// The state of a detector as its contracts see it.
pub struct DetectorView {
    pub config: DetectorConfig,
    /// The forest in use; none while the detector is buffering.
    pub forest: Option<IsolationForest>,
    /// The buffered feature vectors, oldest first.
    pub buffer: Seq<Seq<i64>>,
    /// The number of features of the first accepted observation.
    pub dimension: Option<usize>,
    pub events_since_train: nat,
    pub total_events: nat,
    pub total_anomalies: nat,
}

impl DetectorView {
    /// Whether an observation with these features is accepted: it has as many
    /// features as the first one had.
    pub open spec fn accepts(self, features: Seq<i64>) -> bool {
        self.dimension matches Some(d) ==> features.len() == d
    }

    /// The buffer after `features` has joined it. While buffering it only
    /// grows. While detecting it is cut back to its newest `buffer_size`
    /// entries as soon as it holds more than twice as many.
    pub open spec fn next_buffer(self, features: Seq<i64>) -> Seq<Seq<i64>> {
        let pushed = self.buffer.push(features);
        if self.forest is Some && pushed.len() > 2 * self.config.buffer_size {
            pushed.skip(pushed.len() - self.config.buffer_size)
        } else {
            pushed
        }
    }

    /// Whether taking in one more observation ends with a training: while
    /// buffering, when the buffer reaches `buffer_size`; while detecting, when
    /// `retrain_interval` observations have been scored since the last one.
    pub open spec fn trains_next(self) -> bool {
        if self.forest is Some {
            self.events_since_train + 1 >= self.config.retrain_interval
        } else {
            self.buffer.len() + 1 >= self.config.buffer_size
        }
    }

    /// Whether an observation with this score is reported: only while
    /// detecting, and only if the score reaches the threshold.
    pub open spec fn reports(self, score: u32) -> bool {
        self.forest is Some && score >= self.config.threshold
    }

    /// Whether `result` is the answer to an accepted observation with this
    /// score: a report of the event, the score, which is at most one, and
    /// its number among all observations if it is reported, and nothing
    /// otherwise.
    pub open spec fn answers(
        self,
        result: Result<Option<AnomalyReport>, DimensionMismatch>,
        event: NetworkEvent,
        score: u32,
    ) -> bool {
        match result {
            Ok(Some(report)) => self.reports(score) && report.event == event && report.score == score
                && report.score <= SCORE_ONE && report.event_number == self.total_events + 1,
            Ok(None) => !self.reports(score),
            Err(_) => false,
        }
    }

    /// Whether `score` is the score of an observation with these features
    /// under `scorer`, while detecting. Under a forest grown from samples of
    /// one row or none it is the neutral score. Under every other forest it
    /// is an outcome of the scorer on where the features come to rest in each
    /// tree of the forest in use and on the sample size of that forest, held
    /// to one.
    pub open spec fn scored<F: Fn(Vec<PathLength>, usize) -> u32>(
        self,
        features: Seq<i64>,
        scorer: F,
        score: u32,
    ) -> bool {
        self.forest matches Some(forest) ==> if forest.sampled() <= 1 {
            score == NEUTRAL_SCORE
        } else {
            exists|paths: Vec<PathLength>, raw: u32|
                forest.routes(features, paths@) && #[trigger] call_ensures(
                    scorer,
                    (paths, forest.sampled() as usize),
                    raw,
                ) && score == score_within(raw)
        }
    }

    /// The state after one more observation has been counted and nothing
    /// else has changed.
    pub open spec fn counted(self) -> DetectorView {
        DetectorView { total_events: self.total_events + 1, ..self }
    }

    /// What holds of a detector between any two calls.
    pub open spec fn wf(self) -> bool {
        &&& uniform(self.buffer)
        &&& self.buffer.len() > 0 ==> self.dimension == fixed_dimension(self.buffer)
        &&& self.total_anomalies <= self.total_events
        &&& self.forest is None ==> {
            &&& self.events_since_train == 0
            &&& self.buffer.len() == 0 || self.buffer.len() < self.config.buffer_size
        }
        &&& self.forest matches Some(forest) ==> {
            &&& self.dimension is Some
            &&& forest.features() is Some ==> forest.features() == self.dimension
            &&& self.events_since_train == 0 || self.events_since_train
                < self.config.retrain_interval
            &&& self.config.buffer_size >= 1 ==> self.config.buffer_size <= self.buffer.len() <= 2
                * self.config.buffer_size
            &&& self.config.buffer_size == 0 ==> self.buffer.len() <= 1
        }
    }

    /// The state that follows `self` when an accepted observation with these
    /// features and this score is taken in, as far as chance has no part in
    /// it: everything but the forest that a training gives.
    pub open spec fn follows(self, before: DetectorView, features: Seq<i64>, score: u32) -> bool {
        &&& self.config == before.config
        &&& self.dimension == Some(features.len() as usize)
        &&& self.buffer == before.next_buffer(features)
        &&& self.total_events == before.total_events + 1
        &&& self.total_anomalies == before.total_anomalies + if before.reports(score) {
            1nat
        } else {
            0nat
        }
        &&& self.forest is Some <==> before.forest is Some || before.trains_next()
        &&& before.trains_next() ==> {
            &&& self.events_since_train == 0
            &&& self.forest matches Some(forest) && forest.fitted_to(
                self.buffer,
                before.config.n_trees as nat,
                before.config.buffer_size as nat,
            )
        }
        &&& !before.trains_next() ==> {
            &&& self.forest == before.forest
            &&& self.events_since_train == if before.forest is Some {
                before.events_since_train + 1
            } else {
                0
            }
        }
    }
}

/// The number of reports in an answer: one or none.
pub open spec fn report_count(result: Result<Option<AnomalyReport>, DimensionMismatch>) -> nat {
    if result matches Ok(Some(_)) {
        1
    } else {
        0
    }
}

/// Orchestrates buffering, training, scoring and reporting.
pub struct Detector {
    config: DetectorConfig,
    forest: Option<IsolationForest>,
    buffer: Vec<Vec<i64>>,
    dimension: Option<usize>,
    events_since_train: usize,
    total_events: usize,
    total_anomalies: usize,
    rng: StdRng,
}

impl View for Detector {
    type V = DetectorView;

    closed spec fn view(&self) -> DetectorView {
        DetectorView {
            config: self.config,
            forest: self.forest,
            buffer: rows(self.buffer@),
            dimension: self.dimension,
            events_since_train: self.events_since_train as nat,
            total_events: self.total_events as nat,
            total_anomalies: self.total_anomalies as nat,
        }
    }
}

impl Detector {
    /// A detector that has seen nothing yet. Its forests will draw from `rng`.
    pub fn new(config: DetectorConfig, rng: StdRng) -> (detector: Self)
        ensures
            detector@.wf(),
            detector@.config == config,
            detector@.forest is None,
            detector@.buffer.len() == 0,
            detector@.dimension is None,
            detector@.events_since_train == 0,
            detector@.total_events == 0,
            detector@.total_anomalies == 0,
    {
        Detector {
            config,
            forest: None,
            buffer: Vec::new(),
            dimension: None,
            events_since_train: 0,
            total_events: 0,
            total_anomalies: 0,
            rng,
        }
    }

    /// Processes one observation: `event` with its feature vector.
    ///
    /// While the detector is detecting, the vector is routed through the
    /// forest in use, and `scorer` turns where it came to rest in each tree,
    /// together with the sample size of the forest, into a score in
    /// millionths; what it gives beyond one counts as one. Under a forest
    /// grown from samples of one row or none the scorer is not asked: the
    /// score is the neutral one. With its score the observation is taken in
    /// as `advance` describes: the score belongs to the forest that the
    /// observation arrived under, also where it triggers a retraining.
    pub fn process<F: Fn(Vec<PathLength>, usize) -> u32>(
        &mut self,
        event: &NetworkEvent,
        features: Vec<i64>,
        scorer: F,
    ) -> (result: Result<Option<AnomalyReport>, DimensionMismatch>)
        requires
            old(self)@.wf(),
            old(self)@.total_events < usize::MAX,
            forall|paths: Vec<PathLength>, sample_size: usize|
                call_requires(scorer, (paths, sample_size)),
        ensures
            final(self)@.wf(),
            final(self)@.total_events == old(self)@.total_events + 1,
            final(self)@.total_anomalies == old(self)@.total_anomalies + report_count(result),
            result is Ok <==> old(self)@.accepts(features@),
            result matches Err(mismatch) ==> final(self)@ == old(self)@.counted() && old(self)@.dimension
                == Some(mismatch.expected) && mismatch.found == features@.len(),
            result is Ok ==> exists|score: u32|
                old(self)@.scored(features@, scorer, score) && #[trigger] final(self)@.follows(
                    old(self)@,
                    features@,
                    score,
                ) && old(self)@.answers(result, *event, score),
    {
        let ghost before = self@;
        let mut score: u32 = NEUTRAL_SCORE;
        match &self.forest {
            Some(forest) => {
                let sample_size = forest.sample_size();
                assert(before.forest == Some(*forest));
                assert(forest.sampled() as usize == sample_size);
                if sample_size > 1 {
                    match forest.path_lengths(features.as_slice()) {
                        Ok(paths) => {
                            let ghost routed = paths;
                            let raw: u32 = scorer(paths, sample_size);
                            score = if raw <= SCORE_ONE {
                                raw
                            } else {
                                SCORE_ONE
                            };
                            proof {
                                assert(forest.routes(features@, routed@));
                                assert(call_ensures(scorer, (routed, forest.sampled() as usize), raw));
                                assert(before.scored(features@, scorer, score));
                            }
                        },
                        Err(_) => {
                            assert(!before.accepts(features@));
                        },
                    }
                }
            },
            None => {},
        }
        let result = self.advance(event, features, score);
        proof {
            if result is Ok {
                assert(before.scored(features@, scorer, score));
                assert(self@.follows(before, features@, score));
            }
        }
        result
    }

    /// Processes one network event: `process` on the event with the feature
    /// vector that `extract_features` gives for it.
    pub fn process_event<F: Fn(Vec<PathLength>, usize) -> u32>(&mut self, event: &NetworkEvent, scorer: F) -> (result:
        Result<Option<AnomalyReport>, DimensionMismatch>)
        requires
            old(self)@.wf(),
            old(self)@.total_events < usize::MAX,
            forall|paths: Vec<PathLength>, sample_size: usize|
                call_requires(scorer, (paths, sample_size)),
        ensures
            final(self)@.wf(),
            final(self)@.total_events == old(self)@.total_events + 1,
            final(self)@.total_anomalies == old(self)@.total_anomalies + report_count(result),
            result is Ok <==> old(self)@.accepts(features_of(*event)),
            result matches Err(mismatch) ==> final(self)@ == old(self)@.counted() && old(self)@.dimension
                == Some(mismatch.expected) && mismatch.found == features_of(*event).len(),
            result is Ok ==> exists|score: u32|
                old(self)@.scored(features_of(*event), scorer, score) && #[trigger] final(self)@.follows(
                    old(self)@,
                    features_of(*event),
                    score,
                ) && old(self)@.answers(result, *event, score),
    {
        let features = extract_features(event);
        self.process(event, features, scorer)
    }

    /// Takes in one observation: `event`, its feature vector, and the score
    /// that was computed for that vector from the forest in use (the score
    /// is not looked at while the detector is buffering).
    ///
    /// Every observation is counted. A vector with another number of
    /// features than the first one had is then refused, and nothing else
    /// changes. Otherwise the observation is buffered. While buffering nothing is reported, and
    /// the forest is trained once the buffer holds `buffer_size` vectors.
    /// While detecting the buffer slides, the forest is retrained on it after
    /// every `retrain_interval` observations, and the observation is
    /// reported if its score reaches the threshold.
    pub fn advance(&mut self, event: &NetworkEvent, features: Vec<i64>, score: u32) -> (result: Result<
        Option<AnomalyReport>,
        DimensionMismatch,
    >)
        requires
            old(self)@.wf(),
            old(self)@.total_events < usize::MAX,
            score <= SCORE_ONE,
        ensures
            final(self)@.wf(),
            final(self)@.total_events == old(self)@.total_events + 1,
            final(self)@.total_anomalies == old(self)@.total_anomalies + report_count(result),
            result is Ok <==> old(self)@.accepts(features@),
            result matches Err(mismatch) ==> final(self)@ == old(self)@.counted() && old(self)@.dimension
                == Some(mismatch.expected) && mismatch.found == features@.len(),
            result is Ok ==> final(self)@.follows(old(self)@, features@, score),
            result is Ok ==> old(self)@.answers(result, *event, score),
    {
        let ghost entered = self@;
        self.total_events += 1;
        match self.dimension {
            Some(expected) => {
                if features.len() != expected {
                    return Err(DimensionMismatch { expected, found: features.len() });
                }
            },
            None => {},
        }
        let ghost before = entered;
        let ghost pushed = before.buffer.push(features@);
        proof {
            if self.buffer@.len() > 0 {
                assert(before.buffer[0] == self.buffer@[0]@);
                assert(self.buffer@[0]@.len() == self.buffer@[0].len());
            }
        }
        self.dimension = Some(features.len());

        if self.forest.is_none() {
            let ghost stored = self.buffer@;
            self.buffer.push(features);
            proof {
                assert(rows(self.buffer@) =~= pushed);
                lemma_pushed_uniform(before.buffer, features@);
            }
            if self.buffer.len() >= self.config.buffer_size {
                self.train();
            }
            return Ok(None);
        }
        self.events_since_train += 1;

        self.buffer.push(features);
        proof {
            assert(rows(self.buffer@) =~= pushed);
            lemma_pushed_uniform(before.buffer, features@);
        }
        if self.buffer.len() - self.config.buffer_size > self.config.buffer_size {
            let drain_count = self.buffer.len() - self.config.buffer_size;
            let kept = self.buffer.split_off(drain_count);
            self.buffer = kept;
            proof {
                assert(rows(self.buffer@) =~= pushed.skip(drain_count as int));
                if drain_count < pushed.len() {
                    lemma_skipped_uniform(pushed, drain_count as int);
                }
            }
        }
        if self.events_since_train >= self.config.retrain_interval {
            self.train();
        }
        if score >= self.config.threshold {
            self.total_anomalies += 1;
            Ok(Some(AnomalyReport { event: event.clone(), score, event_number: self.total_events }))
        } else {
            Ok(None)
        }
    }

    /// Replaces the forest by one trained on the buffer as it stands, with
    /// `n_trees` trees and `buffer_size` as the requested sample size.
    fn train(&mut self)
        requires
            uniform(rows(old(self).buffer@)),
        ensures
            final(self).forest matches Some(forest) && forest.fitted_to(
                rows(final(self).buffer@),
                final(self).config.n_trees as nat,
                final(self).config.buffer_size as nat,
            ),
            final(self).events_since_train == 0,
            final(self).config == old(self).config,
            final(self).buffer == old(self).buffer,
            final(self).dimension == old(self).dimension,
            final(self).total_events == old(self).total_events,
            final(self).total_anomalies == old(self).total_anomalies,
    {
        let forest = IsolationForest::fit(
            self.buffer.as_slice(),
            self.config.n_trees,
            self.config.buffer_size,
            &mut self.rng,
        );
        self.forest = Some(forest);
        self.events_since_train = 0;
    }

    /// The number of observations taken in so far.
    pub fn total_events(&self) -> (count: usize)
        ensures
            count == self@.total_events,
    {
        self.total_events
    }

    /// The number of observations reported so far.
    pub fn total_anomalies(&self) -> (count: usize)
        ensures
            count == self@.total_anomalies,
    {
        self.total_anomalies
    }

    /// Whether the detector has a forest, that is, whether it is detecting.
    pub fn is_trained(&self) -> (trained: bool)
        ensures
            trained == (self@.forest is Some),
    {
        self.forest.is_some()
    }

    /// The number of feature vectors in the buffer.
    pub fn buffered(&self) -> (count: usize)
        ensures
            count == self@.buffer.len(),
    {
        self.buffer.len()
    }

    /// The number of observations scored since the last training.
    pub fn events_since_train(&self) -> (count: usize)
        ensures
            count == self@.events_since_train,
    {
        self.events_since_train
    }

    /// The configuration that the detector was made with.
    pub fn config(&self) -> (config: DetectorConfig)
        ensures
            config == self@.config,
    {
        self.config
    }

    /// The forest in use, against which the next observation is to be scored.
    pub fn forest(&self) -> (forest: Option<&IsolationForest>)
        ensures
            forest matches Some(f) ==> self@.forest == Some(*f),
            forest is None ==> self@.forest is None,
    {
        self.forest.as_ref()
    }
}

impl DetectorConfig {
    /// The number of observations with which the first training comes: the
    /// buffer size, and one where that is zero.
    pub open spec fn first_training(self) -> nat {
        if self.buffer_size >= 1 {
            self.buffer_size as nat
        } else {
            1
        }
    }

    /// Whether a detector is detecting once it has taken in `n` observations.
    pub open spec fn trained_after(self, n: nat) -> bool {
        n >= self.first_training()
    }

    /// The number of observations scored since the last training, once `n`
    /// observations have been taken in.
    pub open spec fn since_train_after(self, n: nat) -> nat {
        if n < self.first_training() || self.retrain_interval <= 1 {
            0
        } else {
            ((n - self.first_training()) % (self.retrain_interval as int)) as nat
        }
    }

    /// The length of the buffer once `n` observations have been taken in.
    pub open spec fn buffered_after(self, n: nat) -> nat {
        if n < self.first_training() {
            n
        } else if self.buffer_size == 0 {
            if n == 1 {
                1
            } else {
                0
            }
        } else {
            (self.buffer_size + (n - self.buffer_size) % (self.buffer_size + 1)) as nat
        }
    }
}

impl DetectorView {
    /// The detector stands where a fresh detector stands after `n` accepted
    /// and `refused` refused observations: it has counted them all, it is
    /// detecting if and only if the first training is behind it, and its
    /// buffer and its count of scored observations are where the window and
    /// the retraining cadence put them.
    pub open spec fn at_count(self, n: nat, refused: nat) -> bool {
        &&& self.total_events == n + refused
        &&& (self.forest is Some) == self.config.trained_after(n)
        &&& self.events_since_train == self.config.since_train_after(n)
        &&& self.buffer.len() == self.config.buffered_after(n)
    }
}

/// The remainder of a successor: one more, or zero where the divisor is
/// reached.
pub proof fn lemma_mod_successor(m: int, k: int)
    requires
        m >= 0,
        k > 0,
    ensures
        0 <= m % k < k,
        m % k + 1 == k ==> (m + 1) % k == 0,
        m % k + 1 < k ==> (m + 1) % k == m % k + 1,
{
    vstd::arithmetic::div_mod::lemma_fundamental_div_mod(m, k);
    vstd::arithmetic::div_mod::lemma_fundamental_div_mod(m + 1, k);
    vstd::arithmetic::div_mod::lemma_mod_bound(m, k);
    vstd::arithmetic::div_mod::lemma_mod_bound(m + 1, k);
    let q = m / k;
    let r = m % k;
    if r + 1 == k {
        assert(m + 1 == (q + 1) * k + 0) by (nonlinear_arith)
            requires
                m == k * q + r,
                r + 1 == k,
        ;
        vstd::arithmetic::div_mod::lemma_fundamental_div_mod_converse(m + 1, k, q + 1, 0);
    } else {
        assert(m + 1 == q * k + (r + 1)) by (nonlinear_arith)
            requires
                m == k * q + r,
        ;
        vstd::arithmetic::div_mod::lemma_fundamental_div_mod_converse(m + 1, k, q, r + 1);
    }
}

/// A detector that has seen nothing stands at count zero.
pub proof fn lemma_fresh_detector_at_zero(fresh: DetectorView)
    requires
        fresh.forest is None,
        fresh.buffer.len() == 0,
        fresh.events_since_train == 0,
        fresh.total_events == 0,
    ensures
        fresh.at_count(0, 0),
{
}

/// A refused observation is counted and moves nothing else.
pub proof fn lemma_refusal_counts(before: DetectorView, after: DetectorView, n: nat, refused: nat)
    requires
        before.at_count(n, refused),
        after == before.counted(),
    ensures
        after.at_count(n, refused + 1),
{
}

/// Every accepted observation moves a detector from `n` accepted
/// observations to `n + 1`. With a fresh detector standing at zero, a
/// detector therefore counts each observation once, turns to detecting
/// exactly with accepted observation number `buffer_size` (the first where
/// that is zero), keeps its buffer between `buffer_size` and twice that from
/// then on, and retrains exactly every `retrain_interval` accepted
/// observations after the first training.
pub proof fn lemma_count_advances(
    before: DetectorView,
    after: DetectorView,
    features: Seq<i64>,
    score: u32,
    n: nat,
    refused: nat,
)
    requires
        before.wf(),
        before.at_count(n, refused),
        after.follows(before, features, score),
    ensures
        after.at_count(n + 1, refused),
        after.config.trained_after(n + 1) && !before.config.trained_after(n) <==> n + 1
            == before.config.first_training(),
        before.forest is Some ==> (before.trains_next() <==> after.config.since_train_after(n + 1)
            == 0),
{
    let config = before.config;
    let first = config.first_training();
    let bs = config.buffer_size as int;
    let interval = config.retrain_interval as int;
    if n >= first {
        if interval > 1 {
            lemma_mod_successor(n - first, interval);
        }
        if bs >= 1 {
            lemma_mod_successor(n - bs, bs + 1);
        }
    } else if n + 1 == first {
        if interval > 1 {
            assert(0int % interval == 0) by {
                vstd::arithmetic::div_mod::lemma_small_mod(0, interval as nat);
            }
        }
        if bs >= 1 {
            assert(0int % (bs + 1) == 0) by {
                vstd::arithmetic::div_mod::lemma_small_mod(0, (bs + 1) as nat);
            }
        }
    }
}

/// While the buffer stays short of `buffer_size`, an accepted observation
/// joins it and nothing else happens: no forest, no report, no anomaly.
pub proof fn lemma_buffering_waits(
    before: DetectorView,
    after: DetectorView,
    features: Seq<i64>,
    score: u32,
    event: NetworkEvent,
    result: Result<Option<AnomalyReport>, DimensionMismatch>,
)
    requires
        before.forest is None,
        before.buffer.len() + 1 < before.config.buffer_size,
        after.follows(before, features, score),
        before.answers(result, event, score),
    ensures
        result == Ok::<Option<AnomalyReport>, DimensionMismatch>(None),
        after.forest is None,
        after.buffer == before.buffer.push(features),
        after.events_since_train == 0,
        after.total_anomalies == before.total_anomalies,
{
}

/// The accepted observation that fills the buffer to `buffer_size` is not
/// scored or reported; with it the detector turns to detecting, under a
/// forest fitted to the whole buffer.
pub proof fn lemma_first_training(
    before: DetectorView,
    after: DetectorView,
    features: Seq<i64>,
    score: u32,
    event: NetworkEvent,
    result: Result<Option<AnomalyReport>, DimensionMismatch>,
)
    requires
        before.forest is None,
        before.buffer.len() + 1 >= before.config.buffer_size,
        after.follows(before, features, score),
        before.answers(result, event, score),
    ensures
        result == Ok::<Option<AnomalyReport>, DimensionMismatch>(None),
        after.buffer == before.buffer.push(features),
        after.events_since_train == 0,
        after.total_anomalies == before.total_anomalies,
        after.forest matches Some(forest) && forest.fitted_to(
            after.buffer,
            before.config.n_trees as nat,
            before.config.buffer_size as nat,
        ),
{
}

/// While detecting, the buffer takes the new vector in as its last entry.
/// It grows by one, unless it would then hold more than twice
/// `buffer_size`: then it keeps exactly its newest `buffer_size` entries.
pub proof fn lemma_window_slides(before: DetectorView, after: DetectorView, features: Seq<i64>, score: u32)
    requires
        before.forest is Some,
        before.buffer.len() <= 2 * before.config.buffer_size,
        after.follows(before, features, score),
    ensures
        after.buffer.len() <= 2 * before.config.buffer_size,
        before.buffer.len() < 2 * before.config.buffer_size ==> after.buffer == before.buffer.push(
            features,
        ),
        before.buffer.len() == 2 * before.config.buffer_size ==> after.buffer.len()
            == before.config.buffer_size && after.buffer == before.buffer.push(features).skip(
            before.config.buffer_size + 1,
        ),
        before.config.buffer_size >= 1 ==> after.buffer.last() == features,
{
}

/// While detecting, the observation that completes `retrain_interval`
/// scored observations ends with a forest fitted to the buffer as it then
/// stands, the new vector in it, and with the count of scored observations
/// at zero. Every other observation leaves the forest as it was and raises
/// that count by one.
pub proof fn lemma_retraining_cadence(
    before: DetectorView,
    after: DetectorView,
    features: Seq<i64>,
    score: u32,
)
    requires
        before.forest is Some,
        after.follows(before, features, score),
    ensures
        after.forest is Some,
        after.config == before.config,
        before.events_since_train + 1 >= before.config.retrain_interval ==> after.events_since_train
            == 0 && after.forest.unwrap().fitted_to(
            before.next_buffer(features),
            before.config.n_trees as nat,
            before.config.buffer_size as nat,
        ),
        before.events_since_train + 1 < before.config.retrain_interval ==> after.events_since_train
            == before.events_since_train + 1 && after.forest == before.forest,
{
}

/// Rows of one dimension stay so when a row of that dimension joins them.
pub proof fn lemma_pushed_uniform(buffer: Seq<Seq<i64>>, features: Seq<i64>)
    requires
        uniform(buffer),
        buffer.len() > 0 ==> buffer[0].len() == features.len(),
    ensures
        uniform(buffer.push(features)),
        buffer.push(features)[0].len() == features.len(),
{
    let pushed = buffer.push(features);
    assert forall|i: int, j: int| 0 <= i < pushed.len() && 0 <= j < pushed.len() implies pushed[i].len()
        == pushed[j].len() by {
        if i < buffer.len() {
            assert(buffer[i].len() == buffer[0].len());
        }
        if j < buffer.len() {
            assert(buffer[j].len() == buffer[0].len());
        }
    }
}

/// Rows of one dimension stay so when the oldest of them are dropped.
pub proof fn lemma_skipped_uniform(buffer: Seq<Seq<i64>>, count: int)
    requires
        uniform(buffer),
        0 <= count < buffer.len(),
    ensures
        uniform(buffer.skip(count)),
        buffer.skip(count)[0].len() == buffer[0].len(),
{
    let kept = buffer.skip(count);
    assert forall|i: int, j: int| 0 <= i < kept.len() && 0 <= j < kept.len() implies kept[i].len()
        == kept[j].len() by {
        assert(kept[i] == buffer[i + count]);
        assert(kept[j] == buffer[j + count]);
    }
    assert(kept[0] == buffer[count]);
}

} // verus!

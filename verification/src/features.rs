//! The feature vector that the detector is fed for a network event.

use crate::duration::Duration;
use crate::parser::NetworkEvent;
use vstd::prelude::*;

verus! {

/// The number of features of a network event.
pub const FEATURE_COUNT: usize = 5;

/// `value` as a feature, capped at the greatest feature value.
pub open spec fn capped(value: u64) -> i64 {
    if value <= i64::MAX as u64 {
        value as i64
    } else {
        i64::MAX
    }
}

/// A duration as a feature: its microseconds with its sign, capped; the cap
/// with its sign for an unbounded duration; zero for an undefined one.
pub open spec fn duration_feature(duration: Duration) -> i64 {
    match duration {
        Duration::Finite { negative, micros } => if negative {
            (-capped(micros)) as i64
        } else {
            capped(micros)
        },
        Duration::Infinite { negative } => if negative {
            (-i64::MAX) as i64
        } else {
            i64::MAX
        },
        Duration::NotANumber => 0,
    }
}

/// The features of `event`: its source port, its destination port, the code
/// of its protocol, its byte count and its duration in microseconds.
pub open spec fn features_of(event: NetworkEvent) -> Seq<i64> {
    seq![
        event.src_port as i64,
        event.dst_port as i64,
        event.protocol.code_of() as i64,
        capped(event.bytes),
        duration_feature(event.duration),
    ]
}

/// `value` as a feature, capped at the greatest feature value.
fn cap(value: u64) -> (feature: i64)
    ensures
        feature == capped(value),
{
    if value <= i64::MAX as u64 {
        value as i64
    } else {
        i64::MAX
    }
}

/// A duration as a feature.
fn duration_as_feature(duration: Duration) -> (feature: i64)
    ensures
        feature == duration_feature(duration),
{
    match duration {
        Duration::Finite { negative, micros } => if negative {
            -cap(micros)
        } else {
            cap(micros)
        },
        Duration::Infinite { negative } => if negative {
            -i64::MAX
        } else {
            i64::MAX
        },
        Duration::NotANumber => 0,
    }
}

/// The feature vector of `event`.
pub fn extract_features(event: &NetworkEvent) -> (features: Vec<i64>)
    ensures
        features@ == features_of(*event),
        features@.len() == FEATURE_COUNT,
{
    let mut features: Vec<i64> = Vec::new();
    features.push(event.src_port as i64);
    features.push(event.dst_port as i64);
    features.push(event.protocol.code() as i64);
    features.push(cap(event.bytes));
    features.push(duration_as_feature(event.duration));
    assert(features@ =~= features_of(*event));
    features
}

} // verus!

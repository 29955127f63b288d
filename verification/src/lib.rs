//! Streaming anomaly detection with isolation forests, and the verified
//! building blocks of three smaller data applications.
//!
//! The core is the combinatorial half of an isolation-forest detector:
//! randomized partition trees over integer feature vectors
//! ([`isolation_forest`]), and the streaming state machine that buffers
//! observations, trains, scores, retrains and reports ([`detector`]). Around
//! it stand the record format it is fed from ([`parser`], [`duration`],
//! [`features`]) and what it hands to a reporter ([`reporter`]).
//!
//! Every executable function is verified against a contract over
//! mathematical models of its data. The crate holds no floating-point
//! number. Feature values are fixed-point integers. The real-valued half of
//! scoring (the logarithmic normalisation of a path length and the
//! exponential score) is left to the caller: the detector hands a scorer the
//! exact path data and takes back a score in millionths.
//!
//! The other modules are of the same kind: a conversation memory
//! ([`conversation`]), the ratings that a recommender reads ([`models`],
//! [`collaborative_filtering`], [`sample_data`]), and the tables that a price
//! regression is fitted on ([`data`]).

pub mod random;
pub mod sequences;
pub mod text;
pub mod duration;
pub mod isolation_forest;
pub mod parser;
pub mod reporter;
pub mod features;
pub mod detector;
pub mod models;
pub mod collaborative_filtering;
pub mod sample_data;
pub mod data;
pub mod conversation;

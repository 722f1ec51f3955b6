//! Conditional safety certificates: unit-aware dimension comparison,
//! contract-satisfaction trees with their evaluation and diagnosis, a
//! majority-vote runtime monitor and the composition of contracts into a
//! system of systems.

pub mod checksum;
pub mod compile;
pub mod compose;
pub mod consert;
pub mod dimension;
pub mod elements;
pub mod error;
pub mod guarantees;
pub mod model;
pub mod monitor;
pub mod parse;
pub mod plot;
pub mod regrow;
pub mod services;
pub mod text;
pub mod uom;

//! Deck differences and log-ingestion decisions for an Arena match tracker.
//!
//! Every function in this crate carries a contract that is proved with
//! Verus. The few calls into the standard library or `itertools` that come
//! without a contract of their own stand in small wrappers whose doc
//! comments say what is taken on trust.

pub mod text;
pub mod card;
pub mod ranking;
pub mod catalog;
pub mod deck;
pub mod display;
pub mod ingest;
pub mod match_details;
pub mod scryfall;
pub mod setup;

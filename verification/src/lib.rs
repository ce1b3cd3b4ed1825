//! Rating and live-rank reconciliation for Swiss tournaments.
//!
//! The crate replays a repeatedly refetched bracket snapshot into a rating
//! table, keeps an order-statistics rank index over all ratings, and emits at
//! most one delta event per match for the lifetime of the process.

pub mod rating;
pub mod rank_vec;
pub mod strutil;
pub mod lang;
pub mod animation_lang;
pub mod schema;
pub mod db;
pub mod idset;
pub mod rank_map;
pub mod reconcile;
pub mod laws;
pub mod alignment;
pub mod status;
pub mod format;
pub mod teams;
pub mod notify;
pub mod poller;
pub mod console;
pub mod database;

pub use rating::Rating;

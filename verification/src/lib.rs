//! A verified core for a podcast catalog: feeds are parsed and normalized
//! into podcast/episode records and merged into a store without duplicates,
//! with per-feed failure isolation during batch updates.

pub mod actions;
pub mod date;
pub mod feed;
pub mod laws;
pub mod podcast;
pub mod store;
pub mod text;
pub mod update;

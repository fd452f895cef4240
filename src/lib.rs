//! Rooms, participants, rounds and judged performances of a live scored event,
//! kept in a verified entity store, with the rules that advance a room from
//! round to round and turn judges' scores into results.

pub mod db;
mod ids;
pub mod laws;
pub mod models;
pub mod scoring;
pub mod store;

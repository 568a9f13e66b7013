//! A verified core for a falling-piece board simulation.
//!
//! Pieces of fixed geometry drop onto a ten-column board, settle by a
//! row-by-row collision scan, and the board is then compacted by removing
//! rows that are entirely empty or entirely full.

pub mod board;
pub mod row;
pub mod shape;

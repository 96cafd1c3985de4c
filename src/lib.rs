//! Portfolio risk and technical-indicator analytics over fixed-point numbers.
//!
//! Prices, values and scores are unsigned integers in millionths
//! (`SCALE` units make one whole unit), so every result is exact and
//! reproducible.
pub mod error;
pub mod model;
pub mod indicators;
pub mod amount;
pub mod order;
pub mod portfolio;
pub mod holdings;
pub mod advice;
pub mod cache;
pub mod market;
pub mod service;

//! Fixtures of prices for tests of the oracles.
pub mod prices;

//! SiennaSwap exchange contracts.
pub mod swap;

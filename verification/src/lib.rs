//! Price oracles: index baskets, an oracle router, staking-derivative rates,
//! liquidity-pool token prices and the arithmetic they share.
pub mod num;
pub mod collections;
pub mod common;
pub mod interfaces;
pub mod protocols;
pub mod lp;
pub mod staking_derivative;
pub mod unit_test_interface;

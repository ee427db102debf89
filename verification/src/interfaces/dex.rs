//! Oracles that price liquidity-pair tokens of decentralised exchanges.
pub mod market;
pub mod pair;
pub mod shadeswap;

//! Shade protocol contracts: ShadeSwap pairs and the staking derivative.
pub mod derivatives;
pub mod swap;

//! The query messages and answers of outside protocols that the oracles read
//! prices from, and the checks made on their answers.
pub mod secretswap;
pub mod shade;
pub mod shade_earn_v1;
pub mod sienna;
pub mod siennaswap;

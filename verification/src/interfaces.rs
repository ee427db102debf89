//! The messages, state and rules of each kind of oracle.
pub mod bot;
pub mod common;
pub mod derivatives;
pub mod dex;
pub mod index;
pub mod index_oracle;
pub mod lp;
pub mod providers;
pub mod router;
pub mod staking_derivative;

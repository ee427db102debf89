//! The global status of a contract.
pub use crate::common::status::{ContractStatus, GlobalStatus};

//! The oracle router: it sends each key to the oracle registered for it and
//! falls back to the price provider for keys that have none.
pub mod error;
pub mod msg;
pub mod registry;

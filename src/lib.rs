//! A constant-product market maker over an in-memory fungible-token ledger.
pub mod math;
pub mod wide;
pub mod token;
pub mod market;
pub mod laws;

//! `GetOrInsert`: store a value in place and get a mutable reference to it
//! back, for `Option` and for enums whose variants each carry one payload;
//! and the derivation that writes the enum implementations.

pub mod codegen;
pub mod get_or_insert;

pub use get_or_insert::GetOrInsert;

//! Conversions between error enums: a marker that carries an error to a
//! destination chosen by its receiver, and the decision logic of the enum
//! derive (which source variants become which destination variants, and which
//! payload conversions a widening needs).
pub mod adapter;
pub mod tokens;
pub mod error;
pub mod syntax;
pub mod sources;
pub mod conversions;
pub mod derive;
pub mod type_enum;
pub mod laws;
pub mod reading;
pub mod entry;

pub use adapter::{Subset, Widen};

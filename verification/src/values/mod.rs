//! The values that a row holds, as they come from the wire.
pub mod bigint;
pub mod decimal;
pub mod ip;
pub mod json;
pub mod uuid;
pub mod value;

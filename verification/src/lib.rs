//! Debug-information builder and code generation driver for a Cranelift based
//! compiler back end.

pub mod constants;
pub mod debuginfo;
pub mod driver;
pub mod endian;
pub mod line;
pub mod metadata;
pub mod order;
pub mod session;
pub mod strings;
pub mod unit;
pub mod writer;

//! Declaration and lookup of command-line flags.
//!
//! An application registers named flags, with or without a data value, on an
//! [`App`] and then asks it which flags an argument list holds, what data
//! follows a flag, and for generated help and version text.

pub mod cliply;
pub mod errors;

pub use cliply::App;
pub use cliply::Flag;
pub use errors::CliplyError;

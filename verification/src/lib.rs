//! Recovery-code program generator for a wrist device.
//!
//! A list of `service:code` pairs is parsed, laid out as fixed-width data tables, combined with
//! a two-state navigation program, and turned into the packet stream that is sent to the device.

pub mod text;
pub mod error;
pub mod hex;
pub mod transmit;
pub mod compile;
pub mod field;
pub mod entry;
pub mod tables;
pub mod machine;
pub mod template;
pub mod program;

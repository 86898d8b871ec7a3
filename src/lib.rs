//! Variable interpolation for Clausewitz-style script documents, together with
//! the option parsing and snapshot rules of the command line around it.

pub mod config;
pub mod expr;
pub mod filter;
pub mod json;
pub mod laws;
pub mod materialize;
pub mod options;
pub mod resolve;
pub mod watch;
pub mod tape;
pub mod upload;

//! An endpoint fuzzer driven by an API description: it extracts the drivable
//! operations, digs each request body into a property tree, enumerates every
//! non-empty subset of the properties as a payload, and lays out the HTTP
//! requests of a run.

pub mod json;
pub mod text;
pub mod model;
pub mod collector;
pub mod digger;
pub mod shuffler;
pub mod executor;

pub use crate::executor::{do_it, CallResult};

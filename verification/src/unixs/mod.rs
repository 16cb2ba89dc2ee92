//! The Unix-only variant of the environment helpers.

pub mod utils;

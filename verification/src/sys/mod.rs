//! Where installations live on this machine, and which build suits it.

pub mod utils;

//! Command-dispatch core for Git-LFS file locking on one selected repository.
//!
//! The crate keeps the selected repository, its cached index of tracked files
//! and the registry of known locks, and decides for every request what has to
//! be asked of the outside tool and what is answered.

pub mod client;
pub mod dispatcher;
pub mod listing;
pub mod model;
pub mod protocol;
pub mod registry;
pub mod repository;
pub mod search;
pub mod text;

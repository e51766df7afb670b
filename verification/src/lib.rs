//! The organization public API of a password-manager server, as a verified
//! library: bearer-token checks, the rules for roles and membership status,
//! and the operations of the public endpoints on a snapshot of one
//! organization's directory.

pub mod collections;
pub mod directory;
pub mod errors;
pub mod groups;
pub mod import;
pub mod invites;
pub mod laws;
pub mod listing;
pub mod lookup;
pub mod members;
pub mod model;
pub mod rules;
pub mod token;


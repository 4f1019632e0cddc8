//! An ephemeral blob store: every upload receives an unguessable token and is
//! kept until its first download or until a configured retention window
//! elapses, whichever comes first.  The crate verifies the lifecycle engine
//! that keeps blob contents and persisted metadata in agreement: records are
//! deleted at most once, a deleted record never comes back, and no active
//! record outlives its retention window once the scheduler has caught up.

pub mod blob;
pub mod config;
pub mod engine;
pub mod laws;
pub mod models;
pub mod store;
pub mod strutil;
pub mod trusted;

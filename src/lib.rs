//! Sequencing and state bookkeeping for ordered pairs of SQL migration scripts.
pub mod authoring;
pub mod engine;
pub mod repository;
pub mod rollback;
pub mod script;
pub mod store;
pub mod text;

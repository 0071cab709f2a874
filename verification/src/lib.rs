//! Persistence core of a data-management service: a schema migration engine
//! and a transactional repository layer with structured conflict and
//! not-found semantics.

pub mod audio;
pub mod auth;
pub mod config;
pub mod digest;
pub mod errors;
pub mod experiment;
pub mod files;
pub mod ident;
pub mod migrations;
pub mod order;
pub mod sample;
pub mod store;
pub mod text;
pub mod user;

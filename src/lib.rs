//! Token-authenticated report intake: credentials and sessions, a
//! content-addressed report store, and atomic fan-out of processing tasks.

pub mod error;
pub mod auth;
pub mod crypto;
pub mod db;
pub mod models;
pub mod profiles;
pub mod reports;
pub mod routes;
pub mod tasks;

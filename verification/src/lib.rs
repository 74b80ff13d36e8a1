//! A small HTTP server engine working directly on raw request text:
//! request parsing, sorted-table routing with one wildcard segment,
//! token-based authentication helpers, worker-pool job accounting, and
//! response rendering.
pub mod auth;
pub mod config;
pub mod method;
pub mod numbers;
pub mod pool;
pub mod query;
pub mod request;
pub mod response;
pub mod route;
pub mod text;

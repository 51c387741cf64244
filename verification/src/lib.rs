//! Secure distributed aggregation (SDA): the protocol resources, the
//! storage model of an SDA server and the server's aggregation workflow.
//!
//! The server keeps its state in ordered in-memory tables; transports and
//! persistence sit outside this crate and drive it through the functions
//! exposed here.

pub mod crypto;
pub mod byte_arrays;
pub mod encoding;
pub mod ids;
pub mod helpers;
pub mod resources;
pub mod errors;
pub mod table;
pub mod stores;
pub mod aggregations;
pub mod clerking_jobs;
pub mod server;
pub mod service;
pub mod http;
pub mod routes;

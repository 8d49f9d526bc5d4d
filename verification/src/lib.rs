//! Penlight Dream Box: the verified core of a Garupa ranking aggregator.
//!
//! The library holds the logic of the service: the lenient protobuf decoder
//! for profile exports, request validation, configuration assembly, the
//! snapshot bookkeeping that the MongoDB layer performs, and the
//! GarupaSpeedTracker-compatible query handling. Network, database and
//! process plumbing live in the application around it.

pub mod text;
pub mod json;
pub mod error;
pub mod garupa;
pub mod config;
pub mod sort;
pub mod upstream;
pub mod storage;
pub mod api;
pub mod collector;

//! Core logic of a persistent pytest runner: test inventories, keyword and
//! marker selection, flakiness tracking, duration-based scheduling, worker
//! lifecycles, pytest output parsing and message framing.

pub mod text;
pub mod ranking;
pub mod table;
pub mod protocol;
pub mod models;
pub mod flakiness;
pub mod scheduler;
pub mod nodes;
pub mod storage;
pub mod inventory;
pub mod error;
pub mod pool;
pub mod executor;
pub mod framing;
pub mod digest;
pub mod context;
pub mod collector;
pub mod fixture_params;
pub mod pysource;

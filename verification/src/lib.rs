//! A date-partitioned cache of fetched transaction records, with background-job
//! orchestration: per-date in-flight marks, a deduplicating job registry with a
//! concurrency ceiling, an admin-operation gate, a session-validity flag, a
//! planner that groups missing dates into minimal contiguous sub-ranges, and a
//! retry/batching policy for the fetch loop.

pub mod admin;
pub mod auth;
pub mod cache;
pub mod cache_service;
pub mod dates;
pub mod errors;
pub mod executor;
pub mod fetch;
pub mod jobs;
pub mod models;
pub mod planner;
pub mod processing;
pub mod state;
pub mod strutil;

pub use dates::Date;

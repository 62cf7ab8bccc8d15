//! A small log-aggregation core: a bounded, insertion-ordered store of log
//! entries with filtered queries and aggregate statistics, a multi-subscriber
//! broadcast primitive for live fan-out, the ingestion path that ties the two
//! together, and the JSON/SSE encoders used on the wire.

pub mod broadcast;
pub mod config;
pub mod entry;
pub mod ingest;
pub mod json;
pub mod stats;
pub mod store;

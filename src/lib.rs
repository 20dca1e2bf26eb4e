//! Load-test harness core: per-worker quotas, outcome classification,
//! lossless merging of worker fragments and nearest-rank statistics,
//! together with the redirect rules and hit aggregation of the link service.

pub mod harness;
pub mod stats;
pub mod redirect;
pub mod hits;
pub mod text;
pub mod kv;
pub mod aggregate;
pub mod responder;

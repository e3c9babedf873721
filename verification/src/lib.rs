use vstd::prelude::*;

pub mod text;
pub mod utils;
pub mod error;
pub mod handlers;
pub mod models;
pub mod ip;
pub mod ssrf;
pub mod config;
pub mod middleware;
pub mod rate_limiter;
pub mod analytics;
pub mod json;
pub mod usage;
pub mod dlp;
pub mod providers;
pub mod sse;
pub mod proxy;
pub mod admin;
pub mod loki;
pub mod keys;
pub mod cli;
pub mod cache;
pub mod records;
pub mod batching;

verus! {

} // verus!
pub mod streams;

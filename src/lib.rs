//! Login rate limiting: a validated configuration of burst and sustained rate
//! per dimension, the quota derived from it, and a generic cell rate limiter
//! keyed per source address and per target account.

pub mod config;
pub mod quota;
pub mod limiter;
pub mod server;

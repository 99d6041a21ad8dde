//! A verified caching core: a string-keyed cache service over an in-memory
//! key-value store with TTL expiry, a typed facade with corruption
//! self-healing, deterministic cache-key builders, glob-pattern bulk
//! invalidation, and the request/response rules that trigger it.

pub mod codec;
pub mod error;
pub mod glob;
pub mod keys;
pub mod middleware;
pub mod service;
pub mod store;
pub mod text;
pub mod typed;

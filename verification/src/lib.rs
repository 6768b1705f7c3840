//! A layer 7 load balancer's decision logic: the backends and their health
//! bookkeeping, the configuration, round-robin selection over the pool in
//! service, and a pool of connections.
pub mod backend;
pub mod config;
pub mod decimal;
pub mod server;
pub mod tcp_pool;
pub mod uri;

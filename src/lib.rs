//! Core of a multi-user challenge instancer: the instance state model, the
//! durable store's transactional rules, the TTL expiry queue, the deployment
//! worker's decisions, crash recovery and the session gateway's dispatch.

pub mod models;
pub mod store;
pub mod expiry;
pub mod worker;
pub mod text;
pub mod gateway;
pub mod discord;
pub mod config;

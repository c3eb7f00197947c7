//! A discrete-event simulation library for caching and autoscaling policies
//! in multi-tier request-serving networks.
//!
//! Simulated time and service work are measured in integer ticks, so that
//! every scheduling, accounting and eviction decision is a total function of
//! the network state and can be verified.

pub mod caches;
pub mod distribution;
pub mod p2;
pub mod queues;
pub mod request;
pub mod timeheap;

pub use request::Request;

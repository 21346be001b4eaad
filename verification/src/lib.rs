//! A content-delivery cache library: nodes that keep a cache of key/value
//! strings, a registry that groups nodes by application, load balancing
//! across the nodes of an application, and the decisions behind the HTTP
//! endpoints that read, write and invalidate cached entries.
pub mod outside;
pub mod error;
pub mod cdn;
pub mod loadbalancer;
pub mod cache;
pub mod handler;

//! An in-memory store of named counters, and the request handling that maps
//! HTTP methods and paths onto it.
pub mod ident;
pub mod store;
pub mod routes;
pub mod laws;

//! The access catalogue and the API route boundary.
pub mod catalog;
pub mod error;
pub mod route_index;
pub mod routes;

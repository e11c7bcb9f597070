//! Configured storages: drivers, backend settings, their validation and the
//! rules of their lifecycle.
pub mod backend;
pub mod error;
pub mod model;
pub mod service;

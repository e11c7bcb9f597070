//! Files: the catalogue of stored files, and resumable uploads.
pub mod catalog;
pub mod completion;
pub mod upload;

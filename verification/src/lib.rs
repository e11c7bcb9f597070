//! Verified core of an administration back end: the access catalogue and
//! policy checks, accounts and roles, console menus, storage configuration
//! and file upload bookkeeping.
pub mod access;
pub mod accounts;
pub mod authorization;
pub mod files;
pub mod menus;
pub mod metadata;
pub mod order;
pub mod roles;
pub mod sets;
pub mod storages;
pub mod system;
pub mod text;

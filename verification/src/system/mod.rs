//! The console's system area: menus and authorities.
pub mod authority;
pub mod menu;

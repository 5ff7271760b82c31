//! An embedded table store: named tables of JSON records keyed by an
//! auto-incrementing id, with a full snapshot handed out after every mutation.

pub mod auth;
pub mod config;
pub mod db;
pub mod decimal;
pub mod error;
pub mod items;
pub mod json;
pub mod laws;
pub mod model;
pub mod order;
pub mod response;
pub mod snapshot;
mod table;

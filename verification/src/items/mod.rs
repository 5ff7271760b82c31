//! The items that the service keeps.

pub mod model;

//! Users, their tokens, and what a request has to show to be let through.

pub mod jwt;
pub mod middleware;
pub mod model;
pub mod route;

//! How the service is set up.

use crate::decimal::{decimal, push_decimal};
use vstd::prelude::*;
use vstd::string::StringExecFns;

verus! {

/// The settings of the server.
#[derive(Debug)]
pub struct ServerConfig {
    /// The binding host address of the server.
    pub host: String,
    pub port: u16,
    pub jwt_secret: String,
    pub jwt_hour_duration: i64,
}

impl ServerConfig {
    /// The address that the server binds to: the host, a colon and the port
    /// in decimal.
    pub fn address(&self) -> (r: String)
        ensures
            r@ == self.host@ + ":"@ + decimal(self.port as nat),
    {
        let mut r = self.host.clone();
        r.append(":");
        push_decimal(&mut r, self.port as u32);
        r
    }
}

impl Default for ServerConfig {
    /// The settings that hold where none are given.
    fn default() -> (config: Self)
        ensures
            config.host@ == "0.0.0.0"@,
            config.port == 3000,
            config.jwt_secret@ == "secret"@,
            config.jwt_hour_duration == 24,
    {
        ServerConfig {
            host: String::from_str("0.0.0.0"),
            port: 3000,
            jwt_secret: String::from_str("secret"),
            jwt_hour_duration: 24,
        }
    }
}

} // verus!

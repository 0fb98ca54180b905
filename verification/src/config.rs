//! Process configuration: the addresses of the backing store and of the two
//! listening surfaces, and the slices each subsystem receives.

use vstd::prelude::*;

verus! {

/// The whole process configuration, as loaded at startup.
#[derive(Debug)]
pub struct Config {
    pub db_addr: String,
    pub api_addr: String,
    pub ws_addr: String,
}

/// What the core actor needs: where the storage gateway lives.
#[derive(Debug)]
pub struct CoreConfig {
    pub db_addr: String,
}

impl CoreConfig {
    /// The core actor's slice of the configuration.
    pub fn of(c: &Config) -> (r: CoreConfig)
        ensures
            r.db_addr@ == c.db_addr@,
    {
        CoreConfig { db_addr: c.db_addr.clone() }
    }
}

/// What the network surfaces need: the two listening addresses and whether
/// registration is open.
#[derive(Debug)]
pub struct NetConfig {
    pub api_addr: String,
    pub ws_addr: String,
    pub enable_register: bool,
}

impl NetConfig {
    /// The network surfaces' slice of the configuration; registration is
    /// open by default.
    pub fn of(c: &Config) -> (r: NetConfig)
        ensures
            r.api_addr@ == c.api_addr@,
            r.ws_addr@ == c.ws_addr@,
            r.enable_register == true,
    {
        NetConfig { api_addr: c.api_addr.clone(), ws_addr: c.ws_addr.clone(), enable_register: true }
    }
}

} // verus!

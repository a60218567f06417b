use vstd::prelude::*;

verus! {

/// The server's settings, as read from its configuration file.
#[derive(Debug, Clone)]
pub struct Config {
    pub network: NetworkConfig,
    pub server: ServerConfig,
    pub registry: RegistryConfig,
}

#[derive(Debug, Clone)]
pub struct NetworkConfig {
    pub bind_address: String,
}

#[derive(Debug, Clone)]
pub struct ServerConfig {
    pub max_players: u32,
    pub motd: String,
}

#[derive(Debug, Clone)]
pub struct RegistryConfig {
    pub path: String,
}

} // verus!

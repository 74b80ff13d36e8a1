//! Configuration data: the server's listening parameters, the downstream
//! client endpoint, and the application configuration that gathers them.
use vstd::prelude::*;

verus! {

/// The server's own parameters: its name, listening port, database url
/// and signing secret.
#[derive(Debug, Clone, PartialEq)]
pub struct Server {
    pub name: String,
    pub port: u16,
    pub url: String,
    pub secret_key: String,
}

/// The downstream endpoint a client talks to: the wildcard offset used
/// by the router, the url, and the request timeout in seconds.
#[derive(Debug, Clone, PartialEq)]
pub struct Endpoint {
    pub index: usize,
    pub url: String,
    pub timeout: u64,
}

/// The outbound-client configuration.
#[derive(Debug, Clone, PartialEq)]
pub struct Client {
    pub endpoint: Endpoint,
}

/// The application configuration: the server, the outbound client, and
/// the worker-pool size.
#[derive(Debug, Clone, PartialEq)]
pub struct ApplicationConfig {
    pub server: Server,
    pub client: Client,
    pub max_threads: usize,
}

} // verus!

//! The settings of a demonstration server.

use crate::endpoint::{host_of_text, text_of, uri_host};
use vstd::prelude::*;
use vstd::string::*;

verus! {

/// The most bytes that a prover may send to the server in one session.
pub const MAX_SENT_DATA: usize = 2048;

/// The most bytes that a prover may receive from the server in one session.
pub const MAX_RECV_DATA: usize = 4096;

/// The secret that demonstration requests carry in a header, to be redacted.
pub const SECRET: &'static str = "TLSNotary's private key \u{1f921}";

/// The address at which a server listens by default.
pub const DEFAULT_WS_HOST: &'static str = "0.0.0.0";

/// The resource that is proven by default.
pub const DEFAULT_SERVER_URI: &'static str =
    "https://raw.githubusercontent.com/tlsnotary/tlsn/refs/tags/v0.1.0-alpha.12/crates/server-fixture/server/src/data/1kb.json";

/// Where a server listens, and which resource its sessions prove.
#[derive(Clone, Debug)]
pub struct Config {
    /// The address of the WebSocket server.
    pub ws_host: String,
    /// The port of the WebSocket server.
    pub ws_port: u16,
    /// The URI of the server whose data is proven.
    pub server_uri: String,
    /// The port of the proxy from WebSocket to TCP.
    pub wstcp_proxy_port: u16,
}

impl Default for Config {
    fn default() -> (config: Config)
        ensures
            config.ws_host@ == DEFAULT_WS_HOST@,
            config.ws_port == 9816,
            config.server_uri@ == DEFAULT_SERVER_URI@,
            config.wstcp_proxy_port == 55688,
    {
        Config {
            ws_host: String::from_str(DEFAULT_WS_HOST),
            ws_port: 9816,
            server_uri: String::from_str(DEFAULT_SERVER_URI),
            wstcp_proxy_port: 55688,
        }
    }
}

impl Config {
    /// The host of the server whose data is proven, or nothing where the
    /// configured URI has no host.
    pub fn server_domain(&self) -> (domain: Option<String>)
        ensures
            text_of(domain) == host_of_text(self.server_uri@),
    {
        uri_host(self.server_uri.as_str())
    }
}

} // verus!

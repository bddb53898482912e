//! The configuration values the servers are started with: listen addresses
//! for the DNS and control endpoints. Loading them from a file or from the
//! environment is the outer program's job; the core only carries the plain
//! values.

use vstd::prelude::*;

verus! {

/// All settings: one section per server.
pub struct Settings {
    pub dns: DnsSettings,
    pub grpc: GrpcSettings,
}

/// Where the DNS server listens.
pub struct DnsSettings {
    pub listen_addr: String,
}

/// Where the control server listens.
pub struct GrpcSettings {
    pub listen_addr: String,
}

} // verus!

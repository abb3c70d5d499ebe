//! Configuration the collaborators hand to the core: the transport mode and
//! what the encrypted transport needs. Loading it from a file is the shell's
//! concern, not the library's.

use vstd::prelude::*;

verus! {

/// Settings for one run: whether the transport is TLS-wrapped, the domain
/// the certificate speaks for, and the two sides' settings.
#[derive(Debug)]
pub struct Config {
    pub ssl: bool,
    pub domain: String,
    pub client: ClientConfig,
    pub server: ServerConfig,
}

/// The client side needs nothing beyond the common settings.
#[derive(Debug)]
pub struct ClientConfig {}

/// The server side's certificate bundle and its passphrase.
#[derive(Debug)]
pub struct ServerConfig {
    pub cert_file: String,
    pub cert_password: String,
}

} // verus!

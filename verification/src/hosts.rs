//! Which host names a client accepts.

use crate::rustls_run::HOST;
use crate::text::same_text;
use vstd::prelude::*;

verus! {

/// Accepts every host name. It authenticates nobody and is of use in tests alone.
pub struct InsecureAcceptAllCertificatesHandler {}

impl s2n_tls::callbacks::VerifyHostNameCallback for InsecureAcceptAllCertificatesHandler {
    /// Accepts the host.
    fn verify_host_name(&self, _host_name: &str) -> (r: bool)
        ensures
            r,
    {
        true
    }
}

/// Accepts the host that handshakes are made with, and no other.
pub struct AcceptLocalhost;

impl s2n_tls::callbacks::VerifyHostNameCallback for AcceptLocalhost {
    /// Accepts the host where it is the expected one.
    fn verify_host_name(&self, hostname: &str) -> (r: bool)
        ensures
            r == (hostname@ == HOST@),
            r <==> hostname@ == "localhost"@,
    {
        same_text(hostname, HOST)
    }
}

} // verus!

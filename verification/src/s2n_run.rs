//! Handshakes between two s2n-tls connections in memory.

use crate::certs::CertMaterial;
use crate::hosts::AcceptLocalhost;
use crate::rustls_run::{HOST, PINNED_SUITE};
use crate::s2n_backend::{
    build, build_gives, connection_gives, handshake, host_callback_gives, is_basic,
    join_in_memory, load_pem, load_pem_gives, negotiated_suite, new_builder, new_builder_gives,
    open_connection, pair_gives, pair_handshake_gives, pair_name_gives, policy_gives,
    set_host_callback, set_policy, set_server_name, suite_gives, trust_pem,
    trust_pem_gives, Side,
};
use crate::text::same_text;
use vstd::prelude::*;

verus! {

/// The security policy of both sides. s2n-tls has none with the pinned suite alone;
/// this one prefers it, and s2n-tls does not change a policy that has a number.
pub const POLICY: &'static str = "20251014";

/// What s2n-tls calls the pinned suite.
pub const PINNED_SUITE_NAME: &'static str = "TLS_AES_128_GCM_SHA256";

/// Where configuring s2n-tls failed, with the error.
#[derive(Debug)]
pub enum S2nConfigError {
    Policy(s2n_tls::error::Error),
    LoadChain(s2n_tls::error::Error),
    BuildServer(s2n_tls::error::Error),
    TrustRoot(s2n_tls::error::Error),
    HostCallback(s2n_tls::error::Error),
    BuildClient(s2n_tls::error::Error),
}

/// A new builder, with the result `r` of setting the policy.
pub open spec fn policed_builder(
    builder: s2n_tls::config::Builder,
    r: Result<(), s2n_tls::error::Error>,
) -> bool {
    exists|b: s2n_tls::config::Builder|
        new_builder_gives(b) && #[trigger] policy_gives(b, POLICY@, builder, r)
}

/// Setting the policy of a new builder can fail with `e`.
pub open spec fn policy_can_fail(e: s2n_tls::error::Error) -> bool {
    exists|b: s2n_tls::config::Builder| #[trigger] policed_builder(b, Err(e))
}

/// The TLS 1.3 suites of a security policy of s2n-tls by their registered numbers, most
/// preferred first; known of one policy here. These are AES-128-GCM-SHA256,
/// AES-256-GCM-SHA384 and CHACHA20-POLY1305-SHA256.
pub open spec fn policy_suites(version: Seq<char>) -> Option<Seq<u16>> {
    if version == "20251014"@ {
        Some(seq![0x1301, 0x1302, 0x1303])
    } else {
        None
    }
}

/// The policy of both sides prefers the pinned suite to every other one of TLS 1.3.
pub proof fn lemma_policy_prefers_pinned_suite()
    ensures
        policy_suites(POLICY@) matches Some(suites) && suites.len() > 0 && suites[0]
            == PINNED_SUITE,
{
}

/// A builder for the server, with the result `r` of the last step: it has the policy,
/// and presents the material's chain with its key.
pub open spec fn server_builder(
    certs: CertMaterial,
    builder: s2n_tls::config::Builder,
    r: Result<(), s2n_tls::error::Error>,
) -> bool {
    exists|b: s2n_tls::config::Builder|
        policed_builder(b, Ok(())) && #[trigger] load_pem_gives(
            b,
            certs.cert_chain_pem@,
            certs.key_pem@,
            builder,
            r,
        )
}

/// A builder that has the policy and trusts the material's authority, with the result
/// `r` of the last step.
pub open spec fn trusting_builder(
    certs: CertMaterial,
    builder: s2n_tls::config::Builder,
    r: Result<(), s2n_tls::error::Error>,
) -> bool {
    exists|b: s2n_tls::config::Builder|
        policed_builder(b, Ok(())) && #[trigger] trust_pem_gives(b, certs.ca_pem@, builder, r)
}

/// A builder for the client, with the result `r` of the last step: it has the policy,
/// trusts the material's authority and accepts the expected host alone.
pub open spec fn client_builder(
    certs: CertMaterial,
    builder: s2n_tls::config::Builder,
    r: Result<(), s2n_tls::error::Error>,
) -> bool {
    exists|b: s2n_tls::config::Builder|
        trusting_builder(certs, b, Ok(())) && #[trigger] host_callback_gives(
            b,
            AcceptLocalhost,
            builder,
            r,
        )
}

/// Loading the material's chain can fail with `e`.
pub open spec fn load_can_fail(certs: CertMaterial, e: s2n_tls::error::Error) -> bool {
    exists|after: s2n_tls::config::Builder| #[trigger] server_builder(certs, after, Err(e))
}

/// Trusting the material's authority can fail with `e`.
pub open spec fn trust_can_fail(certs: CertMaterial, e: s2n_tls::error::Error) -> bool {
    exists|after: s2n_tls::config::Builder| #[trigger] trusting_builder(certs, after, Err(e))
}

/// Setting the host callback of the client can fail with `e`.
pub open spec fn callback_can_fail(certs: CertMaterial, e: s2n_tls::error::Error) -> bool {
    exists|after: s2n_tls::config::Builder| #[trigger] client_builder(certs, after, Err(e))
}

/// The configuration was finished from a builder on which nothing was set that could
/// make a connection wait for anything but its peer.
pub open spec fn is_basic_config(config: s2n_tls::config::Config) -> bool {
    exists|b: s2n_tls::config::Builder| is_basic(b) && #[trigger] build_gives(b, Ok(config))
}

/// Prepares the builder of a server for the material. A subscriber can be attached
/// to it before it is finished.
pub fn s2n_server_builder(certs: &CertMaterial) -> (r: Result<
    s2n_tls::config::Builder,
    S2nConfigError,
>)
    ensures
        match r {
            Ok(builder) => {
                &&& server_builder(*certs, builder, Ok(()))
                &&& is_basic(builder)
            },
            Err(S2nConfigError::Policy(e)) => policy_can_fail(e),
            Err(S2nConfigError::LoadChain(e)) => load_can_fail(*certs, e),
            _ => false,
        },
{
    let mut builder = new_builder();
    match set_policy(&mut builder, POLICY) {
        Ok(done) => {
            assert(done == ());
        },
        Err(e) => {
            assert(policed_builder(builder, Err(e)));
            return Err(S2nConfigError::Policy(e));
        },
    }
    assert(policed_builder(builder, Ok(())));
    match load_pem(&mut builder, certs.cert_chain_pem.as_slice(), certs.key_pem.as_slice()) {
        Ok(done) => {
            assert(done == ());
            Ok(builder)
        },
        Err(e) => {
            assert(server_builder(*certs, builder, Err(e)));
            Err(S2nConfigError::LoadChain(e))
        },
    }
}

/// Prepares the builder of a client for the material. A subscriber can be attached
/// to it before it is finished.
pub fn s2n_client_builder(certs: &CertMaterial) -> (r: Result<
    s2n_tls::config::Builder,
    S2nConfigError,
>)
    ensures
        match r {
            Ok(builder) => {
                &&& client_builder(*certs, builder, Ok(()))
                &&& is_basic(builder)
            },
            Err(S2nConfigError::Policy(e)) => policy_can_fail(e),
            Err(S2nConfigError::TrustRoot(e)) => trust_can_fail(*certs, e),
            Err(S2nConfigError::HostCallback(e)) => callback_can_fail(*certs, e),
            _ => false,
        },
{
    let mut builder = new_builder();
    match set_policy(&mut builder, POLICY) {
        Ok(done) => {
            assert(done == ());
        },
        Err(e) => {
            assert(policed_builder(builder, Err(e)));
            return Err(S2nConfigError::Policy(e));
        },
    }
    assert(policed_builder(builder, Ok(())));
    match trust_pem(&mut builder, certs.ca_pem.as_slice()) {
        Ok(done) => {
            assert(done == ());
        },
        Err(e) => {
            assert(trusting_builder(*certs, builder, Err(e)));
            return Err(S2nConfigError::TrustRoot(e));
        },
    }
    assert(trusting_builder(*certs, builder, Ok(())));
    match set_host_callback(&mut builder, AcceptLocalhost) {
        Ok(done) => {
            assert(done == ());
            Ok(builder)
        },
        Err(e) => {
            assert(client_builder(*certs, builder, Err(e)));
            Err(S2nConfigError::HostCallback(e))
        },
    }
}

/// Finishes the builder of a server.
pub fn finish_s2n_server(builder: s2n_tls::config::Builder) -> (r: Result<
    s2n_tls::config::Config,
    S2nConfigError,
>)
    ensures
        match r {
            Ok(config) => build_gives(builder, Ok(config)),
            Err(S2nConfigError::BuildServer(e)) => build_gives(builder, Err(e)),
            _ => false,
        },
{
    match build(builder) {
        Ok(config) => Ok(config),
        Err(e) => Err(S2nConfigError::BuildServer(e)),
    }
}

/// Finishes the builder of a client.
pub fn finish_s2n_client(builder: s2n_tls::config::Builder) -> (r: Result<
    s2n_tls::config::Config,
    S2nConfigError,
>)
    ensures
        match r {
            Ok(config) => build_gives(builder, Ok(config)),
            Err(S2nConfigError::BuildClient(e)) => build_gives(builder, Err(e)),
            _ => false,
        },
{
    match build(builder) {
        Ok(config) => Ok(config),
        Err(e) => Err(S2nConfigError::BuildClient(e)),
    }
}

/// The result of finishing a server for the material, without a subscriber, can be `r`.
pub open spec fn server_finished(
    certs: CertMaterial,
    r: Result<s2n_tls::config::Config, s2n_tls::error::Error>,
) -> bool {
    exists|b: s2n_tls::config::Builder|
        server_builder(certs, b, Ok(())) && is_basic(b) && #[trigger] build_gives(b, r)
}

/// The result of finishing a client for the material, without a subscriber, can be `r`.
pub open spec fn client_finished(
    certs: CertMaterial,
    r: Result<s2n_tls::config::Config, s2n_tls::error::Error>,
) -> bool {
    exists|b: s2n_tls::config::Builder|
        client_builder(certs, b, Ok(())) && is_basic(b) && #[trigger] build_gives(b, r)
}

/// A server for the material can be finished.
pub open spec fn server_can_be_finished(certs: CertMaterial) -> bool {
    exists|config: s2n_tls::config::Config| #[trigger] server_finished(certs, Ok(config))
}

/// `r` can be the result of configuring an s2n-tls client and server for the
/// material, without a subscriber. The steps are the server's chain and configuration,
/// then the client's authority, host callback and configuration; an error of one step
/// means that those before it went well. The policy is set on each side alike.
pub open spec fn s2n_configs_give(
    certs: CertMaterial,
    r: Result<(s2n_tls::config::Config, s2n_tls::config::Config), S2nConfigError>,
) -> bool {
    match r {
        Ok((client, server)) => client_finished(certs, Ok(client)) && server_finished(
            certs,
            Ok(server),
        ),
        Err(S2nConfigError::Policy(e)) => policy_can_fail(e),
        Err(S2nConfigError::LoadChain(e)) => load_can_fail(certs, e),
        Err(S2nConfigError::BuildServer(e)) => server_finished(certs, Err(e)),
        Err(S2nConfigError::TrustRoot(e)) => server_can_be_finished(certs) && trust_can_fail(
            certs,
            e,
        ),
        Err(S2nConfigError::HostCallback(e)) => server_can_be_finished(certs) && callback_can_fail(
            certs,
            e,
        ),
        Err(S2nConfigError::BuildClient(e)) => server_can_be_finished(certs) && client_finished(
            certs,
            Err(e),
        ),
    }
}

/// Configures an s2n-tls client and server for the material, without a subscriber.
/// Both prefer the pinned cipher suite.
pub fn build_s2n_configs(certs: &CertMaterial) -> (r: Result<
    (s2n_tls::config::Config, s2n_tls::config::Config),
    S2nConfigError,
>)
    ensures
        s2n_configs_give(*certs, r),
        r matches Ok((client, server)) ==> is_basic_config(client) && is_basic_config(server),
{
    let server = match s2n_server_builder(certs) {
        Ok(builder) => builder,
        Err(e) => {
            return Err(e);
        },
    };
    let server_config = match finish_s2n_server(server) {
        Ok(config) => config,
        Err(e) => {
            return Err(e);
        },
    };
    assert(server_finished(*certs, Ok(server_config)));
    let client = match s2n_client_builder(certs) {
        Ok(builder) => builder,
        Err(e) => {
            return Err(e);
        },
    };
    match finish_s2n_client(client) {
        Ok(client_config) => Ok((client_config, server_config)),
        Err(e) => Err(e),
    }
}

/// Where an s2n-tls handshake failed.
#[derive(Debug)]
pub enum S2nHandshakeError {
    /// The client's connection could not be opened.
    OpenClient(s2n_tls::error::Error),
    /// The server's connection could not be opened.
    OpenServer(s2n_tls::error::Error),
    /// The host's name was not taken.
    Name(s2n_tls::error::Error),
    /// The sides did not agree.
    Handshake(s2n_tls::error::Error),
    /// The negotiated suite is not known.
    NoSuite(s2n_tls::error::Error),
    /// Another suite than the pinned one was negotiated; holds its name.
    OtherSuite(String),
}

/// A client and a server with these configurations, joined in memory.
pub open spec fn joined(
    client_config: s2n_tls::config::Config,
    server_config: s2n_tls::config::Config,
    pair: s2n_tls::testing::TestPair,
) -> bool {
    exists|client: s2n_tls::connection::Connection, server: s2n_tls::connection::Connection|
        {
            &&& connection_gives(client_config, Side::Client, Ok(client))
            &&& connection_gives(server_config, Side::Server, Ok(server))
            &&& #[trigger] pair_gives(client, server, pair)
        }
}

/// A joined pair whose client has been told the host's name, with the result `r`.
pub open spec fn named(
    client_config: s2n_tls::config::Config,
    server_config: s2n_tls::config::Config,
    pair: s2n_tls::testing::TestPair,
    r: Result<(), s2n_tls::error::Error>,
) -> bool {
    exists|p: s2n_tls::testing::TestPair|
        joined(client_config, server_config, p) && #[trigger] pair_name_gives(p, HOST@, pair, r)
}

/// The pair is a client and a server that wait for each other alone, before their
/// handshake.
pub open spec fn is_ready(pair: s2n_tls::testing::TestPair) -> bool {
    exists|client_config: s2n_tls::config::Config, server_config: s2n_tls::config::Config|
        {
            &&& is_basic_config(client_config)
            &&& is_basic_config(server_config)
            &&& #[trigger] named(client_config, server_config, pair, Ok(()))
        }
}

/// A client connection can be opened.
pub open spec fn s2n_client_can_open(config: s2n_tls::config::Config) -> bool {
    exists|client: s2n_tls::connection::Connection| #[trigger]
        connection_gives(config, Side::Client, Ok(client))
}

/// Naming the host to the client can fail with `e`.
pub open spec fn name_can_fail(
    client_config: s2n_tls::config::Config,
    server_config: s2n_tls::config::Config,
    e: s2n_tls::error::Error,
) -> bool {
    exists|pair: s2n_tls::testing::TestPair| #[trigger]
        named(client_config, server_config, pair, Err(e))
}

/// The handshake can have the result `r` and leave the pair as it is here.
pub open spec fn negotiated(
    client_config: s2n_tls::config::Config,
    server_config: s2n_tls::config::Config,
    pair: s2n_tls::testing::TestPair,
    r: Result<(), s2n_tls::error::Error>,
) -> bool {
    exists|p: s2n_tls::testing::TestPair|
        named(client_config, server_config, p, Ok(())) && #[trigger] pair_handshake_gives(
            p,
            pair,
            r,
        )
}

/// The sides can fail to agree with `e`.
pub open spec fn negotiation_can_fail(
    client_config: s2n_tls::config::Config,
    server_config: s2n_tls::config::Config,
    e: s2n_tls::error::Error,
) -> bool {
    exists|pair: s2n_tls::testing::TestPair| #[trigger]
        negotiated(client_config, server_config, pair, Err(e))
}

/// Asked for the suite, the client can answer `r` after a handshake.
pub open spec fn suite_negotiated(
    client_config: s2n_tls::config::Config,
    server_config: s2n_tls::config::Config,
    r: Result<Seq<char>, s2n_tls::error::Error>,
) -> bool {
    exists|pair: s2n_tls::testing::TestPair| #[trigger]
        negotiated(client_config, server_config, pair, Ok(())) && suite_gives(pair, r)
}

/// `r` can be the result of a handshake between a client and a server with these
/// configurations. It succeeds with the pinned suite alone; an error of one step means
/// that those before it went well.
pub open spec fn s2n_handshake_gives(
    client_config: s2n_tls::config::Config,
    server_config: s2n_tls::config::Config,
    r: Result<(), S2nHandshakeError>,
) -> bool {
    match r {
        Ok(()) => suite_negotiated(client_config, server_config, Ok(PINNED_SUITE_NAME@)),
        Err(S2nHandshakeError::OpenClient(e)) => connection_gives(
            client_config,
            Side::Client,
            Err(e),
        ),
        Err(S2nHandshakeError::OpenServer(e)) => connection_gives(
            server_config,
            Side::Server,
            Err(e),
        ) && s2n_client_can_open(client_config),
        Err(S2nHandshakeError::Name(e)) => name_can_fail(client_config, server_config, e),
        Err(S2nHandshakeError::Handshake(e)) => negotiation_can_fail(
            client_config,
            server_config,
            e,
        ),
        Err(S2nHandshakeError::NoSuite(e)) => suite_negotiated(
            client_config,
            server_config,
            Err(e),
        ),
        Err(S2nHandshakeError::OtherSuite(name)) => suite_negotiated(
            client_config,
            server_config,
            Ok(name@),
        ) && name@ != PINNED_SUITE_NAME@,
    }
}

/// Runs one handshake between a new client and a new server connection in memory, and
/// sees that it came to the pinned suite.
pub fn run_s2n_handshake_plain(
    client_config: &s2n_tls::config::Config,
    server_config: &s2n_tls::config::Config,
) -> (r: Result<(), S2nHandshakeError>)
    requires
        is_basic_config(*client_config),
        is_basic_config(*server_config),
    ensures
        s2n_handshake_gives(*client_config, *server_config, r),
        r matches Err(S2nHandshakeError::OpenClient(e)) ==> connection_gives(
            *client_config,
            Side::Client,
            Err(e),
        ),
        r matches Err(S2nHandshakeError::OpenServer(e)) ==> connection_gives(
            *server_config,
            Side::Server,
            Err(e),
        ),
        r matches Err(S2nHandshakeError::OtherSuite(name)) ==> name@ != "TLS_AES_128_GCM_SHA256"@,
{
    let client = match open_connection(client_config, Side::Client) {
        Ok(connection) => connection,
        Err(e) => {
            return Err(S2nHandshakeError::OpenClient(e));
        },
    };
    let server = match open_connection(server_config, Side::Server) {
        Ok(connection) => connection,
        Err(e) => {
            return Err(S2nHandshakeError::OpenServer(e));
        },
    };
    let mut pair = join_in_memory(client, server);
    assert(joined(*client_config, *server_config, pair));
    match set_server_name(&mut pair, HOST) {
        Ok(done) => {
            assert(done == ());
        },
        Err(e) => {
            assert(named(*client_config, *server_config, pair, Err(e)));
            return Err(S2nHandshakeError::Name(e));
        },
    }
    assert(named(*client_config, *server_config, pair, Ok(())));
    let ghost ready = pair;
    match handshake(&mut pair) {
        Ok(done) => {
            assert(done == ());
            assert(pair_handshake_gives(ready, pair, Ok(())));
        },
        Err(e) => {
            assert(pair_handshake_gives(ready, pair, Err(e)));
            assert(negotiated(*client_config, *server_config, pair, Err(e)));
            return Err(S2nHandshakeError::Handshake(e));
        },
    }
    assert(negotiated(*client_config, *server_config, pair, Ok(())));
    match negotiated_suite(&pair) {
        Ok(name) => if same_text(name, PINNED_SUITE_NAME) {
            Ok(())
        } else {
            Err(S2nHandshakeError::OtherSuite(name.to_owned()))
        },
        Err(e) => Err(S2nHandshakeError::NoSuite(e)),
    }
}

} // verus!

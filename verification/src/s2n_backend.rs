//! TLS configurations and connections, which s2n-tls makes. Nothing here is
//! proved: each function hands a call to s2n-tls and states what the call is known
//! to do.
//!
//! What s2n-tls holds lies behind pointers and depends on random numbers and, for a
//! configuration, on the system's own certificates, so the calls have no one
//! result. A predicate whose name ends in `gives` holds of exactly the results that
//! the call can have on the arguments before them.

use crate::hosts::AcceptLocalhost;
use crate::s2n_run::is_ready;
use vstd::prelude::*;

verus! {

/// A configuration that is being built.
#[verifier::external_type_specification]
#[verifier::external_body]
pub struct ExBuilder(s2n_tls::config::Builder);

/// A finished configuration.
#[verifier::external_type_specification]
#[verifier::external_body]
pub struct ExConfig(s2n_tls::config::Config);

/// One side of a connection.
#[verifier::external_type_specification]
#[verifier::external_body]
pub struct ExS2nConnection(s2n_tls::connection::Connection);

/// A client and a server that are joined in memory.
#[verifier::external_type_specification]
#[verifier::external_body]
pub struct ExTestPair(s2n_tls::testing::TestPair);

/// An error of s2n-tls.
#[verifier::external_type_specification]
#[verifier::external_body]
pub struct ExS2nError(s2n_tls::error::Error);

/// A side of a connection.
#[derive(Clone, Copy, Debug, PartialEq, Eq, Structural)]
pub enum Side {
    Client,
    Server,
}

/// Nothing has been set on the builder but a security policy, certificates to present
/// or to trust, the host callback `AcceptLocalhost`, and subscribers that listen to
/// events. So a connection waits for its peer alone, and never for an answer of the
/// program.
pub uninterp spec fn is_basic(builder: s2n_tls::config::Builder) -> bool;

/// `builder` can be a new builder.
pub uninterp spec fn new_builder_gives(builder: s2n_tls::config::Builder) -> bool;

/// Setting a security policy can take the builder from `before` to `after` with the
/// result `r`.
pub uninterp spec fn policy_gives(
    before: s2n_tls::config::Builder,
    version: Seq<char>,
    after: s2n_tls::config::Builder,
    r: Result<(), s2n_tls::error::Error>,
) -> bool;

/// Loading a PEM chain with its key can take the builder from `before` to `after`
/// with the result `r`.
pub uninterp spec fn load_pem_gives(
    before: s2n_tls::config::Builder,
    chain: Seq<u8>,
    key: Seq<u8>,
    after: s2n_tls::config::Builder,
    r: Result<(), s2n_tls::error::Error>,
) -> bool;

/// Trusting a PEM certificate can take the builder from `before` to `after` with
/// the result `r`.
pub uninterp spec fn trust_pem_gives(
    before: s2n_tls::config::Builder,
    certificate: Seq<u8>,
    after: s2n_tls::config::Builder,
    r: Result<(), s2n_tls::error::Error>,
) -> bool;

/// Letting `handler` accept host names can take the builder from `before` to
/// `after` with the result `r`.
pub uninterp spec fn host_callback_gives(
    before: s2n_tls::config::Builder,
    handler: AcceptLocalhost,
    after: s2n_tls::config::Builder,
    r: Result<(), s2n_tls::error::Error>,
) -> bool;

/// `r` can be the result of finishing the builder.
pub uninterp spec fn build_gives(
    builder: s2n_tls::config::Builder,
    r: Result<s2n_tls::config::Config, s2n_tls::error::Error>,
) -> bool;

/// `r` can be the result of opening one side of a connection.
pub uninterp spec fn connection_gives(
    config: s2n_tls::config::Config,
    side: Side,
    r: Result<s2n_tls::connection::Connection, s2n_tls::error::Error>,
) -> bool;

/// `pair` can be the result of joining the two connections.
pub uninterp spec fn pair_gives(
    client: s2n_tls::connection::Connection,
    server: s2n_tls::connection::Connection,
    pair: s2n_tls::testing::TestPair,
) -> bool;

/// Telling the client the server's name can take the pair from `before` to `after`
/// with the result `r`.
pub uninterp spec fn pair_name_gives(
    before: s2n_tls::testing::TestPair,
    name: Seq<char>,
    after: s2n_tls::testing::TestPair,
    r: Result<(), s2n_tls::error::Error>,
) -> bool;

/// The handshake can take the pair from `before` to `after` with the result `r`.
pub uninterp spec fn pair_handshake_gives(
    before: s2n_tls::testing::TestPair,
    after: s2n_tls::testing::TestPair,
    r: Result<(), s2n_tls::error::Error>,
) -> bool;

/// `r` can be what the client of the pair says of the cipher suite it negotiated: the
/// suite's name, or an error.
pub uninterp spec fn suite_gives(
    pair: s2n_tls::testing::TestPair,
    r: Result<Seq<char>, s2n_tls::error::Error>,
) -> bool;

/// `config::Builder::new` of s2n-tls. Claimed is that the result is one that the call
/// can have, and that nothing has been set on it.
#[verifier::external_body]
pub(crate) fn new_builder() -> (r: s2n_tls::config::Builder)
    ensures
        new_builder_gives(r),
        is_basic(r),
{
    s2n_tls::config::Builder::new()
}

/// `config::Builder::set_security_policy` of s2n-tls, with the policy of that
/// version. Claimed is only that the builder and the result are ones that the call can
/// have, and that nothing else has been set.
#[verifier::external_body]
pub(crate) fn set_policy(builder: &mut s2n_tls::config::Builder, version: &str) -> (r: Result<
    (),
    s2n_tls::error::Error,
>)
    ensures
        policy_gives(*old(builder), version@, *final(builder), r),
        is_basic(*old(builder)) ==> is_basic(*final(builder)),
{
    builder.set_security_policy(&s2n_tls::security::Policy::from_version(version)?)?;
    Ok(())
}

/// `config::Builder::load_pem` of s2n-tls. Claimed is only that the builder and the
/// result are ones that the call can have, and that nothing else has been set.
#[verifier::external_body]
pub(crate) fn load_pem(builder: &mut s2n_tls::config::Builder, chain: &[u8], key: &[u8]) -> (r:
    Result<(), s2n_tls::error::Error>)
    ensures
        load_pem_gives(*old(builder), chain@, key@, *final(builder), r),
        is_basic(*old(builder)) ==> is_basic(*final(builder)),
{
    builder.load_pem(chain, key)?;
    Ok(())
}

/// `config::Builder::trust_pem` of s2n-tls. Claimed is only that the builder and
/// the result are ones that the call can have, and that nothing else has been set.
#[verifier::external_body]
pub(crate) fn trust_pem(builder: &mut s2n_tls::config::Builder, certificate: &[u8]) -> (r: Result<
    (),
    s2n_tls::error::Error,
>)
    ensures
        trust_pem_gives(*old(builder), certificate@, *final(builder), r),
        is_basic(*old(builder)) ==> is_basic(*final(builder)),
{
    builder.trust_pem(certificate)?;
    Ok(())
}

/// `config::Builder::set_verify_host_callback` of s2n-tls. Claimed is only that the
/// builder and the result are ones that the call can have, and that nothing else has
/// been set.
#[verifier::external_body]
pub(crate) fn set_host_callback(
    builder: &mut s2n_tls::config::Builder,
    handler: AcceptLocalhost,
) -> (r: Result<(), s2n_tls::error::Error>)
    ensures
        host_callback_gives(*old(builder), handler, *final(builder), r),
        is_basic(*old(builder)) ==> is_basic(*final(builder)),
{
    builder.set_verify_host_callback(handler)?;
    Ok(())
}

/// `config::Builder::build` of s2n-tls. Claimed is only that the result is one that
/// the call can have.
#[verifier::external_body]
pub(crate) fn build(builder: s2n_tls::config::Builder) -> (r: Result<
    s2n_tls::config::Config,
    s2n_tls::error::Error,
>)
    ensures
        build_gives(builder, r),
{
    builder.build()
}

/// `build_connection` of s2n-tls. Claimed is only that the result is one that the
/// call can have.
#[verifier::external_body]
pub(crate) fn open_connection(config: &s2n_tls::config::Config, side: Side) -> (r: Result<
    s2n_tls::connection::Connection,
    s2n_tls::error::Error,
>)
    ensures
        connection_gives(*config, side, r),
{
    s2n_tls::connection::Builder::build_connection(
        config,
        match side {
            Side::Client => s2n_tls::enums::Mode::Client,
            Side::Server => s2n_tls::enums::Mode::Server,
        },
    )
}

/// `TestPair::from_connections` of s2n-tls, which joins two new connections through
/// buffers in memory. Claimed is only that the pair is one that the call can give.
#[verifier::external_body]
pub(crate) fn join_in_memory(
    client: s2n_tls::connection::Connection,
    server: s2n_tls::connection::Connection,
) -> (r: s2n_tls::testing::TestPair)
    ensures
        pair_gives(client, server, r),
{
    s2n_tls::testing::TestPair::from_connections(client, server)
}

/// `set_server_name` of s2n-tls, on the client of the pair. Claimed is only that
/// the pair and the result are ones that the call can have.
#[verifier::external_body]
pub(crate) fn set_server_name(pair: &mut s2n_tls::testing::TestPair, name: &str) -> (r: Result<
    (),
    s2n_tls::error::Error,
>)
    ensures
        pair_name_gives(*old(pair), name@, *final(pair), r),
{
    pair.client.set_server_name(name)?;
    Ok(())
}

/// `TestPair::handshake` of s2n-tls, which negotiates until both sides are done or
/// one of them fails. It does not return where each side waits for ever, so the pair
/// has to be a client and a server that wait for each other alone. Claimed is only
/// that the pair and the result are ones that the call can have.
#[verifier::external_body]
pub(crate) fn handshake(pair: &mut s2n_tls::testing::TestPair) -> (r: Result<
    (),
    s2n_tls::error::Error,
>)
    requires
        is_ready(*old(pair)),
    ensures
        pair_handshake_gives(*old(pair), *final(pair), r),
{
    pair.handshake()
}

/// What a result says.
pub open spec fn suite_view(r: Result<&str, s2n_tls::error::Error>) -> Result<
    Seq<char>,
    s2n_tls::error::Error,
> {
    match r {
        Ok(name) => Ok(name@),
        Err(e) => Err(e),
    }
}

/// `cipher_suite` of s2n-tls, on the client of the pair. Claimed is only that the
/// result is one that the call can have.
#[verifier::external_body]
pub(crate) fn negotiated_suite(pair: &s2n_tls::testing::TestPair) -> (r: Result<
    &str,
    s2n_tls::error::Error,
>)
    ensures
        suite_gives(*pair, suite_view(r)),
{
    pair.client.cipher_suite()
}

} // verus!

//! TLS configurations and connections, which rustls makes. Nothing here is proved:
//! each function hands a call to rustls and states what the call is known to do.
//!
//! A connection draws random numbers and a configuration holds objects of its own,
//! so most calls have no one result. A predicate whose name ends in `gives` holds
//! of exactly the results that the call can have on the arguments before them.

use std::sync::Arc;
use vstd::prelude::*;

verus! {

/// The cryptography that rustls uses.
#[verifier::external_type_specification]
#[verifier::external_body]
pub struct ExCryptoProvider(rustls::crypto::CryptoProvider);

/// A cipher suite with its implementation.
#[verifier::external_type_specification]
#[verifier::external_body]
pub struct ExSupportedCipherSuite(rustls::SupportedCipherSuite);

/// A private key in DER.
#[verifier::external_type_specification]
#[verifier::external_body]
pub struct ExPrivateKeyDer<'a>(rustls::pki_types::PrivateKeyDer<'a>);

/// The name of a server.
#[verifier::external_type_specification]
#[verifier::external_body]
pub struct ExServerName<'a>(rustls::pki_types::ServerName<'a>);

/// The error of a text that names no server.
#[verifier::external_type_specification]
#[verifier::external_body]
pub struct ExInvalidDnsNameError(rustls::pki_types::InvalidDnsNameError);

/// The certificates that a client trusts.
#[verifier::external_type_specification]
#[verifier::external_body]
pub struct ExRootCertStore(rustls::RootCertStore);

/// The configuration of a client.
#[verifier::external_type_specification]
#[verifier::external_body]
pub struct ExClientConfig(rustls::ClientConfig);

/// The configuration of a server.
#[verifier::external_type_specification]
#[verifier::external_body]
pub struct ExServerConfig(rustls::ServerConfig);

/// One side of a connection.
#[verifier::external_type_specification]
#[verifier::external_body]
pub struct ExConnection(rustls::Connection);

/// An error of rustls.
#[verifier::external_type_specification]
#[verifier::external_body]
pub struct ExRustlsError(rustls::Error);

/// An error of reading or writing.
#[verifier::external_type_specification]
#[verifier::external_body]
pub struct ExIoError(std::io::Error);

/// What a list of byte strings says.
pub open spec fn byte_views(s: Seq<Vec<u8>>) -> Seq<Seq<u8>> {
    Seq::new(s.len(), |i: int| s[i]@)
}

/// The number under which a cipher suite is registered.
pub uninterp spec fn suite_number(suite: rustls::SupportedCipherSuite) -> u16;

/// The cipher suites that a provider offers, most preferred first.
pub uninterp spec fn offered_suites(
    provider: rustls::crypto::CryptoProvider,
) -> Seq<rustls::SupportedCipherSuite>;

/// `r` can be the result of reading `der` as a private key.
pub uninterp spec fn private_key_gives(
    der: Seq<u8>,
    r: Result<rustls::pki_types::PrivateKeyDer<'static>, &'static str>,
) -> bool;

/// `r` can be the result of configuring a server that asks for no client
/// certificate and presents `chain` with `key`.
pub uninterp spec fn server_config_gives(
    provider: rustls::crypto::CryptoProvider,
    chain: Seq<Seq<u8>>,
    key: rustls::pki_types::PrivateKeyDer<'static>,
    r: Result<rustls::ServerConfig, rustls::Error>,
) -> bool;

/// `r` can be the result of making a store that trusts the certificate `root` alone.
pub uninterp spec fn root_store_gives(
    root: Seq<u8>,
    r: Result<rustls::RootCertStore, rustls::Error>,
) -> bool;

/// `r` can be the result of configuring a client that trusts `roots` and has no
/// certificate of its own.
pub uninterp spec fn client_config_gives(
    provider: rustls::crypto::CryptoProvider,
    roots: rustls::RootCertStore,
    r: Result<rustls::ClientConfig, rustls::Error>,
) -> bool;

/// `after` is `before` without session resumption.
pub uninterp spec fn no_resumption_gives(
    before: rustls::ClientConfig,
    after: rustls::ClientConfig,
) -> bool;

/// `r` can be the result of reading `name` as the name of a server.
pub uninterp spec fn server_name_gives(
    name: Seq<char>,
    r: Result<rustls::pki_types::ServerName<'static>, rustls::pki_types::InvalidDnsNameError>,
) -> bool;

/// `r` can be the result of opening a client connection to the server `name`.
pub uninterp spec fn client_gives(
    config: rustls::ClientConfig,
    name: rustls::pki_types::ServerName<'static>,
    r: Result<rustls::Connection, rustls::Error>,
) -> bool;

/// `r` can be the result of opening a server connection.
pub uninterp spec fn server_gives(
    config: rustls::ServerConfig,
    r: Result<rustls::Connection, rustls::Error>,
) -> bool;

/// The connection is still in its handshake.
pub uninterp spec fn handshaking(connection: rustls::Connection) -> bool;

/// The bytes that the connection holds ready for its peer.
pub uninterp spec fn unsent(connection: rustls::Connection) -> Seq<u8>;

/// The bytes that the connection has read from its peer and not yet processed.
pub uninterp spec fn unread(connection: rustls::Connection) -> Seq<u8>;

/// Writing can take the connection from `before` to `after` and hand out `bytes`.
pub uninterp spec fn write_gives(
    before: rustls::Connection,
    after: rustls::Connection,
    bytes: Seq<u8>,
) -> bool;

/// Reading from `input` can take the connection from `before` to `after` with the
/// result `r`.
pub uninterp spec fn read_gives(
    before: rustls::Connection,
    input: Seq<u8>,
    after: rustls::Connection,
    r: Result<usize, std::io::Error>,
) -> bool;

/// Processing what was read can take the connection from `before` to `after` with
/// the result `r`.
pub uninterp spec fn process_gives(
    before: rustls::Connection,
    after: rustls::Connection,
    r: Result<(), rustls::Error>,
) -> bool;

/// The suite `TLS13_AES_128_GCM_SHA256` of rustls's aws-lc-rs provider, whose
/// `suite()` is registered as 0x1301.
#[verifier::external_body]
pub(crate) fn aes_128_gcm_sha256() -> (r: rustls::SupportedCipherSuite)
    ensures
        suite_number(r) == 0x1301,
{
    rustls::crypto::aws_lc_rs::cipher_suite::TLS13_AES_128_GCM_SHA256
}

/// `default_provider` of rustls's aws-lc-rs module, with its `cipher_suites` field
/// replaced. Claimed is which suites the provider offers; the rest of the default
/// provider is not spoken of.
#[verifier::external_body]
pub(crate) fn provider_offering(suites: Vec<rustls::SupportedCipherSuite>) -> (r:
    rustls::crypto::CryptoProvider)
    ensures
        offered_suites(r) == suites@,
{
    rustls::crypto::CryptoProvider {
        cipher_suites: suites,
        ..rustls::crypto::aws_lc_rs::default_provider()
    }
}

/// The bytes begin as a private key in one of the forms PKCS#8, PKCS#1 or SEC1: a
/// sequence, whose head gives the length in one byte or more, and in it a version of
/// one byte. Of PKCS#8, where any version goes, a further sequence follows.
pub open spec fn known_key_form(der: Seq<u8>) -> bool {
    let head = if der[1] < 128 {
        2int
    } else {
        2 + der[1] - 128
    };
    &&& der.len() >= head + 3 && der[0] == 0x30
    &&& der[head] == 0x02 && der[head + 1] == 0x01
    &&& der[head + 2] <= 1 || (der.len() > head + 3 && der[head + 3] == 0x30)
}

/// `PrivateKeyDer::try_from` of rustls's `pki_types`, which looks at the first bytes
/// alone: it takes the forms that `known_key_form` describes, and no others.
#[verifier::external_body]
pub(crate) fn read_private_key(der: &[u8]) -> (r: Result<
    rustls::pki_types::PrivateKeyDer<'static>,
    &'static str,
>)
    ensures
        private_key_gives(der@, r),
        r is Ok == known_key_form(der@),
{
    rustls::pki_types::PrivateKeyDer::try_from(der.to_vec())
}

/// The builder of rustls's `ServerConfig`: the provider, the default protocol
/// versions, no client authentication, one certificate chain with its key. Claimed
/// is only that the result is one that these calls can have.
#[verifier::external_body]
pub(crate) fn configure_server(
    provider: Arc<rustls::crypto::CryptoProvider>,
    chain: Vec<Vec<u8>>,
    key: rustls::pki_types::PrivateKeyDer<'static>,
) -> (r: Result<rustls::ServerConfig, rustls::Error>)
    ensures
        server_config_gives(*provider, byte_views(chain@), key, r),
{
    let chain = chain.into_iter().map(rustls::pki_types::CertificateDer::from).collect();
    rustls::ServerConfig::builder_with_provider(provider)
        .with_safe_default_protocol_versions()?
        .with_no_client_auth()
        .with_single_cert(chain, key)
}

/// `RootCertStore::add` of rustls, on an empty store. Claimed is only that the
/// result is one that the call can have.
#[verifier::external_body]
pub(crate) fn trust_root(root: &[u8]) -> (r: Result<rustls::RootCertStore, rustls::Error>)
    ensures
        root_store_gives(root@, r),
{
    let mut roots = rustls::RootCertStore::empty();
    roots.add(rustls::pki_types::CertificateDer::from(root.to_vec()))?;
    Ok(roots)
}

/// The builder of rustls's `ClientConfig`: the provider, the default protocol
/// versions, the trusted roots, no client certificate. Claimed is only that the
/// result is one that these calls can have.
#[verifier::external_body]
pub(crate) fn configure_client(
    provider: Arc<rustls::crypto::CryptoProvider>,
    roots: rustls::RootCertStore,
) -> (r: Result<rustls::ClientConfig, rustls::Error>)
    ensures
        client_config_gives(*provider, roots, r),
{
    Ok(
        rustls::ClientConfig::builder_with_provider(provider)
            .with_safe_default_protocol_versions()?
            .with_root_certificates(roots)
            .with_no_client_auth(),
    )
}

/// `Resumption::disabled` of rustls, assigned to a client's configuration. Claimed
/// is that the configuration becomes what this assignment makes of it.
#[verifier::external_body]
pub(crate) fn disable_resumption(config: &mut rustls::ClientConfig)
    ensures
        no_resumption_gives(*old(config), *final(config)),
{
    config.resumption = rustls::client::Resumption::disabled();
}

/// `ServerName::try_from` of rustls's `pki_types`. Claimed is only that the result
/// is one that the call can have.
#[verifier::external_body]
pub(crate) fn read_server_name(name: &'static str) -> (r: Result<
    rustls::pki_types::ServerName<'static>,
    rustls::pki_types::InvalidDnsNameError,
>)
    ensures
        server_name_gives(name@, r),
{
    rustls::pki_types::ServerName::try_from(name)
}

/// `ClientConnection::new` of rustls. Claimed is only that the result is one that
/// the call can have.
#[verifier::external_body]
pub(crate) fn open_client(
    config: &Arc<rustls::ClientConfig>,
    name: rustls::pki_types::ServerName<'static>,
) -> (r: Result<rustls::Connection, rustls::Error>)
    ensures
        client_gives(**config, name, r),
{
    rustls::ClientConnection::new(config.clone(), name).map(rustls::Connection::Client)
}

/// `ServerConnection::new` of rustls. Claimed is only that the result is one that
/// the call can have.
#[verifier::external_body]
pub(crate) fn open_server(config: &Arc<rustls::ServerConfig>) -> (r: Result<
    rustls::Connection,
    rustls::Error,
>)
    ensures
        server_gives(**config, r),
{
    rustls::ServerConnection::new(config.clone()).map(rustls::Connection::Server)
}

/// `is_handshaking` of rustls, which looks at the connection's state alone.
#[verifier::external_body]
pub(crate) fn is_handshaking(connection: &rustls::Connection) -> (r: bool)
    ensures
        r == handshaking(*connection),
{
    connection.is_handshaking()
}

/// `wants_write` of rustls: whether there are bytes for the peer.
#[verifier::external_body]
pub(crate) fn wants_write(connection: &rustls::Connection) -> (r: bool)
    ensures
        r == (unsent(*connection).len() > 0),
{
    connection.wants_write()
}

/// `write_tls` of rustls into a vector, which takes every byte it is given: some of
/// the bytes for the peer, from the first on, move to the end of `out`, and at
/// least one where there is any. What the connection has read, and whether it is in its
/// handshake, do not change.
#[verifier::external_body]
pub(crate) fn write_tls(connection: &mut rustls::Connection, out: &mut Vec<u8>) -> (r: Result<
    usize,
    std::io::Error,
>)
    ensures
        r matches Ok(n) && {
            &&& n <= unsent(*old(connection)).len()
            &&& unsent(*old(connection)).len() > 0 ==> n > 0
            &&& final(out)@ == old(out)@ + unsent(*old(connection)).take(n as int)
            &&& unsent(*final(connection)) == unsent(*old(connection)).skip(n as int)
            &&& write_gives(
                *old(connection),
                *final(connection),
                unsent(*old(connection)).take(n as int),
            )
        },
        unread(*final(connection)) == unread(*old(connection)),
        handshaking(*final(connection)) == handshaking(*old(connection)),
{
    connection.write_tls(out)
}

/// `read_tls` of rustls from a byte slice: on success the connection has put the
/// first `n` bytes behind those it has not processed yet. What it holds for its
/// peer, and whether it is in its handshake, do not change before the bytes are
/// processed.
#[verifier::external_body]
pub(crate) fn read_tls(connection: &mut rustls::Connection, input: &[u8]) -> (r: Result<
    usize,
    std::io::Error,
>)
    ensures
        read_gives(*old(connection), input@, *final(connection), r),
        r matches Ok(n) ==> n <= input@.len() && unread(*final(connection)) == unread(
            *old(connection),
        ) + input@.take(n as int),
        unsent(*final(connection)) == unsent(*old(connection)),
        handshaking(*final(connection)) == handshaking(*old(connection)),
{
    let mut cursor = input;
    connection.read_tls(&mut cursor)
}

/// `process_new_packets` of rustls. Claimed is only that the connection and the
/// result are ones that the call can have.
#[verifier::external_body]
pub(crate) fn process_new_packets(connection: &mut rustls::Connection) -> (r: Result<
    (),
    rustls::Error,
>)
    ensures
        process_gives(*old(connection), *final(connection), r),
{
    match connection.process_new_packets() {
        Ok(_) => Ok(()),
        Err(e) => Err(e),
    }
}

} // verus!

//! Handshakes between two rustls connections in memory.

use crate::certs::CertMaterial;
use crate::rustls_backend::{
    aes_128_gcm_sha256, byte_views, client_config_gives, client_gives, configure_client,
    configure_server, disable_resumption, handshaking, is_handshaking, known_key_form,
    no_resumption_gives, offered_suites,
    open_client, open_server, private_key_gives, process_gives, process_new_packets,
    provider_offering, read_gives, read_private_key, read_server_name, read_tls, root_store_gives,
    server_config_gives, server_gives, server_name_gives, suite_number, trust_root, unread, unsent,
    wants_write, write_gives, write_tls,
};
use std::sync::Arc;
use vstd::prelude::*;

verus! {

/// The registered number of the one cipher suite that is measured, so that both
/// implementations hash and encrypt alike.
pub const PINNED_SUITE: u16 = 0x1301;

/// The host that handshakes are made with.
pub const HOST: &'static str = "localhost";

/// The provider offers the pinned cipher suite and no other.
pub open spec fn is_pinned(provider: rustls::crypto::CryptoProvider) -> bool {
    &&& offered_suites(provider).len() == 1
    &&& suite_number(offered_suites(provider)[0]) == PINNED_SUITE
}

/// Where configuring rustls failed, with the error.
#[derive(Debug)]
pub enum RustlsConfigError {
    PrivateKey(&'static str),
    Server(rustls::Error),
    Root(rustls::Error),
    Client(rustls::Error),
}

/// The certificates that a server with this material presents: its own, followed
/// by the authority.
pub open spec fn presented(certs: CertMaterial) -> Seq<Seq<u8>> {
    seq![certs.server_cert_der@, certs.ca_cert_der@]
}

/// A server configuration for the material: it presents the server certificate
/// followed by the authority, with the server's key.
pub open spec fn server_configured(
    certs: CertMaterial,
    provider: rustls::crypto::CryptoProvider,
    r: Result<rustls::ServerConfig, rustls::Error>,
) -> bool {
    exists|key: rustls::pki_types::PrivateKeyDer<'static>|
        {
            &&& private_key_gives(certs.server_key_der@, Ok(key))
            &&& #[trigger] server_config_gives(provider, presented(certs), key, r)
        }
}

/// A client configuration before anything is said of resumption: it trusts the
/// authority alone.
pub open spec fn client_configured(
    certs: CertMaterial,
    provider: rustls::crypto::CryptoProvider,
    r: Result<rustls::ClientConfig, rustls::Error>,
) -> bool {
    exists|roots: rustls::RootCertStore|
        {
            &&& root_store_gives(certs.ca_cert_der@, Ok(roots))
            &&& #[trigger] client_config_gives(provider, roots, r)
        }
}

/// The client configuration never resumes a session.
pub open spec fn full_handshakes_only(
    certs: CertMaterial,
    provider: rustls::crypto::CryptoProvider,
    config: rustls::ClientConfig,
) -> bool {
    exists|plain: rustls::ClientConfig|
        {
            &&& client_configured(certs, provider, Ok(plain))
            &&& #[trigger] no_resumption_gives(plain, config)
        }
}

/// A pair of configurations for the material with one pinned provider.
pub open spec fn pair_configured(
    certs: CertMaterial,
    client: rustls::ClientConfig,
    server: rustls::ServerConfig,
) -> bool {
    exists|provider: rustls::crypto::CryptoProvider|
        {
            &&& is_pinned(provider)
            &&& #[trigger] server_configured(certs, provider, Ok(server))
            &&& full_handshakes_only(certs, provider, client)
        }
}

/// Configuring the server for the material with a pinned provider can fail with `e`.
pub open spec fn server_config_can_fail(certs: CertMaterial, e: rustls::Error) -> bool {
    exists|provider: rustls::crypto::CryptoProvider|
        is_pinned(provider) && #[trigger] server_configured(certs, provider, Err(e))
}

/// A server for the material can be configured with this pinned provider.
pub open spec fn server_can_be_configured(
    certs: CertMaterial,
    provider: rustls::crypto::CryptoProvider,
) -> bool {
    exists|server: rustls::ServerConfig|
        is_pinned(provider) && #[trigger] server_configured(certs, provider, Ok(server))
}

/// With the server configured, making the root store can fail with `e`.
pub open spec fn root_can_fail(certs: CertMaterial, e: rustls::Error) -> bool {
    &&& root_store_gives(certs.ca_cert_der@, Err(e))
    &&& exists|provider: rustls::crypto::CryptoProvider| #[trigger]
        server_can_be_configured(certs, provider)
}

/// With the server configured, configuring the client with the same pinned provider
/// can fail with `e`.
pub open spec fn client_config_can_fail(certs: CertMaterial, e: rustls::Error) -> bool {
    exists|provider: rustls::crypto::CryptoProvider| #[trigger]
        server_can_be_configured(certs, provider) && client_configured(certs, provider, Err(e))
}

/// `r` can be the result of configuring a rustls client and server for the material.
/// The steps are the private key, the server, the root store and the client; an
/// error of one step means that those before it went well.
pub open spec fn rustls_configs_give(
    certs: CertMaterial,
    r: Result<(Arc<rustls::ClientConfig>, Arc<rustls::ServerConfig>), RustlsConfigError>,
) -> bool {
    match r {
        Ok((client, server)) => pair_configured(certs, *client, *server),
        Err(RustlsConfigError::PrivateKey(e)) => private_key_gives(certs.server_key_der@, Err(e)),
        Err(RustlsConfigError::Server(e)) => server_config_can_fail(certs, e),
        Err(RustlsConfigError::Root(e)) => root_can_fail(certs, e),
        Err(RustlsConfigError::Client(e)) => client_config_can_fail(certs, e),
    }
}

fn pinned_provider() -> (r: rustls::crypto::CryptoProvider)
    ensures
        is_pinned(r),
        offered_suites(r).len() == 1,
        suite_number(offered_suites(r)[0]) == 0x1301,
{
    let mut suites: Vec<rustls::SupportedCipherSuite> = Vec::new();
    suites.push(aes_128_gcm_sha256());
    provider_offering(suites)
}

/// Configures a rustls client and server for the material.
///
/// Both offer the pinned cipher suite alone. The client trusts the authority and
/// never resumes a session, so that every handshake is a full one and the
/// certificates are sent and checked each time.
pub fn build_rustls_configs(certs: &CertMaterial) -> (r: Result<
    (Arc<rustls::ClientConfig>, Arc<rustls::ServerConfig>),
    RustlsConfigError,
>)
    ensures
        rustls_configs_give(*certs, r),
        (r matches Err(RustlsConfigError::PrivateKey(_))) <==> !known_key_form(
            certs.server_key_der@,
        ),
{
    let key = match read_private_key(certs.server_key_der.as_slice()) {
        Ok(key) => key,
        Err(e) => {
            return Err(RustlsConfigError::PrivateKey(e));
        },
    };
    let provider: Arc<rustls::crypto::CryptoProvider> = Arc::new(pinned_provider());
    let mut chain: Vec<Vec<u8>> = Vec::new();
    chain.push(certs.server_cert_der.clone());
    chain.push(certs.ca_cert_der.clone());
    assert(chain@[0]@ =~= certs.server_cert_der@);
    assert(chain@[1]@ =~= certs.ca_cert_der@);
    assert(byte_views(chain@) =~= presented(*certs));
    let server = match configure_server(provider.clone(), chain, key) {
        Ok(config) => config,
        Err(e) => {
            assert(server_configured(*certs, *provider, Err(e)));
            return Err(RustlsConfigError::Server(e));
        },
    };
    assert(server_configured(*certs, *provider, Ok(server)));
    assert(server_can_be_configured(*certs, *provider));
    let roots = match trust_root(certs.ca_cert_der.as_slice()) {
        Ok(roots) => roots,
        Err(e) => {
            return Err(RustlsConfigError::Root(e));
        },
    };
    let mut client = match configure_client(provider.clone(), roots) {
        Ok(config) => config,
        Err(e) => {
            assert(client_configured(*certs, *provider, Err(e)));
            return Err(RustlsConfigError::Client(e));
        },
    };
    assert(client_configured(*certs, *provider, Ok(client)));
    disable_resumption(&mut client);
    assert(full_handshakes_only(*certs, *provider, client));
    Ok((Arc::new(client), Arc::new(server)))
}

/// Where a handshake failed, with the error.
#[derive(Debug)]
pub enum HandshakeError {
    /// The host's name was not taken.
    Name(rustls::pki_types::InvalidDnsNameError),
    /// The client's connection could not be opened.
    OpenClient(rustls::Error),
    /// The server's connection could not be opened.
    OpenServer(rustls::Error),
    /// A side did not take the bytes of its peer.
    Read(std::io::Error),
    /// A side rejected what its peer sent.
    Process(rustls::Error),
    /// The given number of rounds did not complete the handshake.
    Stalled,
}

/// One write, made while there was something to send, takes the connection from `before`
/// to `after`, and the bytes handed out from `head` to `bytes`.
pub open spec fn write_step(
    before: rustls::Connection,
    after: rustls::Connection,
    head: Seq<u8>,
    bytes: Seq<u8>,
) -> bool {
    &&& unsent(before).len() > 0
    &&& head.is_prefix_of(bytes)
    &&& write_gives(before, after, bytes.skip(head.len() as int))
}

/// The connection goes from `before` to `after` by `k` writes and nothing else, each of
/// them made while there was something to send, and hands out `bytes` in all.
pub open spec fn wrote(
    before: rustls::Connection,
    k: nat,
    after: rustls::Connection,
    bytes: Seq<u8>,
) -> bool
    decreases k,
{
    if k == 0 {
        after == before && bytes.len() == 0
    } else {
        exists|mid: rustls::Connection, head: Seq<u8>|
            wrote(before, (k - 1) as nat, mid, head) && #[trigger] write_step(
                mid,
                after,
                head,
                bytes,
            )
    }
}

/// The connection goes from `before` to `after` by writing all it holds for its peer,
/// and by nothing else.
pub open spec fn wrote_all(before: rustls::Connection, after: rustls::Connection) -> bool {
    &&& exists|k: nat| #[trigger] wrote(before, k, after, unsent(before))
    &&& unsent(after).len() == 0
    &&& unread(after) == unread(before)
    &&& handshaking(after) == handshaking(before)
}

/// One read of the `flight` from byte `from` on takes something, up to byte `at`, and
/// takes the connection from `before` to `after`.
pub open spec fn read_step(
    flight: Seq<u8>,
    before: rustls::Connection,
    from: int,
    after: rustls::Connection,
    at: int,
) -> bool {
    &&& 0 <= from < at <= flight.len()
    &&& exists|n: usize| at == from + n && #[trigger] read_gives(
        before,
        flight.skip(from),
        after,
        Ok(n),
    )
}

/// The connection goes from `before` to `after` by `k` reads of the `flight` and nothing
/// else, each of them from where the one before it ended. Together they take the first
/// `at` bytes.
pub open spec fn read_in_steps(
    flight: Seq<u8>,
    before: rustls::Connection,
    k: nat,
    at: int,
    after: rustls::Connection,
) -> bool
    decreases k,
{
    if k == 0 {
        after == before && at == 0
    } else {
        exists|mid: rustls::Connection, from: int|
            read_in_steps(flight, before, (k - 1) as nat, from, mid) && #[trigger] read_step(
                flight,
                mid,
                from,
                after,
                at,
            )
    }
}

/// The connection has read the first `at` bytes of its peer's `flight`, and done nothing
/// else.
pub open spec fn read_up_to(
    flight: Seq<u8>,
    before: rustls::Connection,
    at: int,
    after: rustls::Connection,
) -> bool {
    &&& 0 <= at <= flight.len()
    &&& exists|k: nat| #[trigger] read_in_steps(flight, before, k, at, after)
    &&& unread(after) == unread(before) + flight.take(at)
    &&& unsent(after) == unsent(before)
    &&& handshaking(after) == handshaking(before)
}

/// The connection read its peer's `flight` up to byte `at`, and a further read took
/// nothing of the rest.
pub open spec fn stopped_at(
    flight: Seq<u8>,
    before: rustls::Connection,
    at: int,
    after: rustls::Connection,
) -> bool {
    exists|mid: rustls::Connection|
        {
            &&& #[trigger] read_up_to(flight, before, at, mid)
            &&& at < flight.len()
            &&& read_gives(mid, flight.skip(at), after, Ok(0))
        }
}

/// The connection took its peer's `flight`: all of it, or up to a read that took nothing.
pub open spec fn took(
    flight: Seq<u8>,
    before: rustls::Connection,
    at: int,
    after: rustls::Connection,
) -> bool {
    ||| at == flight.len() && read_up_to(flight, before, at, after)
    ||| stopped_at(flight, before, at, after)
}

/// What `from` held for its peer has been written, read by `to` and processed there, and
/// nothing else has been done with either.
pub open spec fn carried(
    from: rustls::Connection,
    to: rustls::Connection,
    from_after: rustls::Connection,
    to_after: rustls::Connection,
) -> bool {
    &&& wrote_all(from, from_after)
    &&& exists|at: int, mid: rustls::Connection| #[trigger]
        took(unsent(from), to, at, mid) && process_gives(mid, to_after, Ok(()))
}

/// One round of a handshake: the client's bytes are carried to the server, then
/// the server's to the client.
pub open spec fn round(
    client: rustls::Connection,
    server: rustls::Connection,
    client_after: rustls::Connection,
    server_after: rustls::Connection,
) -> bool {
    exists|c: rustls::Connection, s: rustls::Connection| #[trigger]
        carried(client, server, c, s) && carried(s, c, server_after, client_after)
}

/// `n` rounds of a handshake, each of them begun while a side was in its handshake.
pub open spec fn rounds(
    client: rustls::Connection,
    server: rustls::Connection,
    n: nat,
    client_after: rustls::Connection,
    server_after: rustls::Connection,
) -> bool
    decreases n,
{
    if n == 0 {
        client_after == client && server_after == server
    } else {
        exists|c: rustls::Connection, s: rustls::Connection|
            {
                &&& rounds(client, server, (n - 1) as nat, c, s)
                &&& handshaking(c) || handshaking(s)
                &&& #[trigger] round(c, s, client_after, server_after)
            }
    }
}

/// `to` read of the `flight` what it could, until a read failed with `e`.
pub open spec fn read_failed(
    flight: Seq<u8>,
    to: rustls::Connection,
    to_after: rustls::Connection,
    e: std::io::Error,
) -> bool {
    exists|at: int, mid: rustls::Connection| #[trigger]
        read_up_to(flight, to, at, mid) && at < flight.len() && read_gives(
            mid,
            flight.skip(at),
            to_after,
            Err(e),
        )
}

/// `to` took the `flight`, and processing it failed with `e`.
pub open spec fn process_failed(
    flight: Seq<u8>,
    to: rustls::Connection,
    to_after: rustls::Connection,
    e: rustls::Error,
) -> bool {
    exists|at: int, mid: rustls::Connection| #[trigger]
        took(flight, to, at, mid) && process_gives(mid, to_after, Err(e))
}

/// What `from` held for its peer has been written, and handing it to `to` failed
/// with `e`.
pub open spec fn carry_failed(
    from: rustls::Connection,
    to: rustls::Connection,
    from_after: rustls::Connection,
    to_after: rustls::Connection,
    e: HandshakeError,
) -> bool {
    &&& wrote_all(from, from_after)
    &&& match e {
        HandshakeError::Read(io) => read_failed(unsent(from), to, to_after, io),
        HandshakeError::Process(tls) => process_failed(unsent(from), to, to_after, tls),
        _ => false,
    }
}

/// The client's bytes were carried to the server, and carrying what it answered failed
/// with `e`.
pub open spec fn answer_failed(
    client: rustls::Connection,
    server: rustls::Connection,
    client_after: rustls::Connection,
    server_after: rustls::Connection,
    e: HandshakeError,
) -> bool {
    exists|c: rustls::Connection, s: rustls::Connection| #[trigger]
        carried(client, server, c, s) && carry_failed(s, c, server_after, client_after, e)
}

/// A round of a handshake failed with `e`, on the way to the server or back.
pub open spec fn round_failed(
    client: rustls::Connection,
    server: rustls::Connection,
    client_after: rustls::Connection,
    server_after: rustls::Connection,
    e: HandshakeError,
) -> bool {
    ||| carry_failed(client, server, client_after, server_after, e)
    ||| answer_failed(client, server, client_after, server_after, e)
}

/// A handshake of at most `max` rounds failed with `e`: in the round after some that
/// went well, begun while a side was in its handshake.
pub open spec fn rounds_failed(
    client: rustls::Connection,
    server: rustls::Connection,
    max: nat,
    client_after: rustls::Connection,
    server_after: rustls::Connection,
    e: HandshakeError,
) -> bool {
    exists|n: nat, c: rustls::Connection, s: rustls::Connection|
        {
            &&& n < max
            &&& #[trigger] rounds(client, server, n, c, s)
            &&& handshaking(c) || handshaking(s)
            &&& round_failed(c, s, client_after, server_after, e)
        }
}

/// A handshake of at most `max` rounds can take the two connections from one state to
/// the other with the result `r`, the number of rounds.
pub open spec fn exchange_gives(
    client: rustls::Connection,
    server: rustls::Connection,
    max: nat,
    client_after: rustls::Connection,
    server_after: rustls::Connection,
    r: Result<u64, HandshakeError>,
) -> bool {
    match r {
        Ok(n) => {
            &&& n <= max
            &&& rounds(client, server, n as nat, client_after, server_after)
            &&& !handshaking(client_after)
            &&& !handshaking(server_after)
        },
        Err(HandshakeError::Stalled) => {
            &&& rounds(client, server, max, client_after, server_after)
            &&& handshaking(client_after) || handshaking(server_after)
        },
        Err(e) => rounds_failed(client, server, max, client_after, server_after, e),
    }
}

/// Hands all bytes that `from` holds for its peer to `to` and lets it process them.
/// `buf` is scratch space.
fn carry(
    from: &mut rustls::Connection,
    to: &mut rustls::Connection,
    buf: &mut Vec<u8>,
) -> (r: Result<(), HandshakeError>)
    ensures
        match r {
            Ok(()) => carried(*old(from), *old(to), *final(from), *final(to)),
            Err(e) => carry_failed(*old(from), *old(to), *final(from), *final(to), e),
        },
{
    let ghost first = *from;
    let ghost flight = unsent(*from);
    let ghost before = *to;
    let ghost mut writes: nat = 0;
    buf.clear();
    assert(buf@ + unsent(*from) =~= flight);
    while wants_write(from)
        invariant
            first == *old(from),
            wrote(first, writes, *from, buf@),
            buf@ + unsent(*from) == flight,
            unread(*from) == unread(first),
            handshaking(*from) == handshaking(first),
        decreases unsent(*from).len(),
    {
        let ghost rest = unsent(*from);
        let ghost sent = buf@;
        let ghost now = *from;
        let written = write_tls(from, buf);
        proof {
            let n = written->Ok_0;
            assert(buf@.skip(sent.len() as int) =~= rest.take(n as int));
            assert(buf@.subrange(0, sent.len() as int) =~= sent);
            assert(write_step(now, *from, sent, buf@));
            writes = writes + 1;
            assert(rest.take(n as int) + rest.skip(n as int) =~= rest);
            assert(sent + rest.take(n as int) + rest.skip(n as int) =~= flight);
        }
    }
    assert(buf@ =~= flight);
    assert(wrote_all(first, *from));
    let mut at: usize = 0;
    let mut stopped: bool = false;
    let ghost mut reads: nat = 0;
    assert(unread(before) + flight.take(0) =~= unread(before));
    assert(read_in_steps(flight, before, 0, 0, before));
    while at < buf.len() && !stopped
        invariant
            at <= buf@.len(),
            buf@ == flight,
            flight == unsent(*old(from)),
            before == *old(to),
            wrote_all(*old(from), *from),
            !stopped ==> read_in_steps(flight, before, reads, at as int, *to),
            !stopped ==> read_up_to(flight, before, at as int, *to),
            stopped ==> stopped_at(flight, before, at as int, *to),
        decreases
            buf@.len() - at + (if stopped {
                0int
            } else {
                1
            }),
    {
        let input: &[u8] = vstd::slice::slice_subrange(buf.as_slice(), at, buf.len());
        assert(input@ =~= flight.skip(at as int));
        let ghost mid = *to;
        match read_tls(to, input) {
            Ok(n) => {
                assert(read_gives(mid, flight.skip(at as int), *to, Ok(n)));
                assert(flight.take(at as int) + flight.skip(at as int).take(n as int)
                    =~= flight.take(at + n));
                if n == 0 {
                    stopped = true;
                    assert(stopped_at(flight, before, at as int, *to));
                } else {
                    proof {
                        assert(read_step(flight, mid, at as int, *to, at + n));
                        reads = reads + 1;
                        assert(read_in_steps(flight, before, reads, at + n, *to));
                        assert(unread(*to) =~= unread(before) + flight.take(at + n));
                    }
                    at = at + n;
                }
            },
            Err(e) => {
                assert(read_gives(mid, flight.skip(at as int), *to, Err(e)));
                assert(read_failed(flight, before, *to, e));
                return Err(HandshakeError::Read(e));
            },
        }
    }
    let ghost mid = *to;
    assert(took(flight, before, at as int, mid));
    match process_new_packets(to) {
        Ok(done) => {
            assert(process_gives(mid, *to, Ok(done)));
            assert(carried(*old(from), *old(to), *from, *to));
            Ok(done)
        },
        Err(e) => {
            assert(process_gives(mid, *to, Err(e)));
            assert(process_failed(flight, before, *to, e));
            Err(HandshakeError::Process(e))
        },
    }
}

/// Runs the handshake of a client and a server connection to its end, in at most
/// `max_rounds` rounds: as long as a side is in its handshake, each side's bytes
/// are carried to the other, the client's first. Returns the number of rounds.
pub fn complete_handshake(
    client: &mut rustls::Connection,
    server: &mut rustls::Connection,
    max_rounds: u64,
) -> (r: Result<u64, HandshakeError>)
    ensures
        exchange_gives(
            *old(client),
            *old(server),
            max_rounds as nat,
            *final(client),
            *final(server),
            r,
        ),
        r is Ok ==> !handshaking(*final(client)) && !handshaking(*final(server)),
        r matches Ok(n) ==> n <= max_rounds,
        !handshaking(*old(client)) && !handshaking(*old(server)) ==> {
            &&& r == Ok::<u64, HandshakeError>(0)
            &&& *final(client) == *old(client)
            &&& *final(server) == *old(server)
        },
        (r matches Err(HandshakeError::Stalled)) ==> handshaking(*final(client)) || handshaking(
            *final(server),
        ),
        r matches Err(e) ==> e is Stalled || e is Read || e is Process,
        max_rounds == 0 ==> *final(client) == *old(client) && *final(server) == *old(server),
{
    let mut buf: Vec<u8> = Vec::new();
    let mut n: u64 = 0;
    while is_handshaking(client) || is_handshaking(server)
        invariant
            n <= max_rounds,
            rounds(*old(client), *old(server), n as nat, *client, *server),
            n > 0 ==> handshaking(*old(client)) || handshaking(*old(server)),
            n == 0 ==> *client == *old(client) && *server == *old(server),
        decreases max_rounds - n,
    {
        if n == max_rounds {
            return Err(HandshakeError::Stalled);
        }
        let ghost c = *client;
        let ghost s = *server;
        match carry(client, server, &mut buf) {
            Ok(_) => {},
            Err(e) => {
                assert(round_failed(c, s, *client, *server, e));
                return Err(e);
            },
        }
        assert(carried(c, s, *client, *server));
        match carry(server, client, &mut buf) {
            Ok(_) => {},
            Err(e) => {
                assert(answer_failed(c, s, *client, *server, e));
                return Err(e);
            },
        }
        n = n + 1;
        assert(round(c, s, *client, *server));
    }
    Ok(n)
}

/// The two connections can be a client and a server with these configurations, new
/// and opened for the host.
pub open spec fn opened(
    client_config: rustls::ClientConfig,
    server_config: rustls::ServerConfig,
    client: rustls::Connection,
    server: rustls::Connection,
) -> bool {
    &&& client_opened(client_config, client)
    &&& server_gives(server_config, Ok(server))
}

/// Once a client and a server with these configurations are opened, their exchange can
/// have the result `r`.
pub open spec fn some_exchange_gives(
    client_config: rustls::ClientConfig,
    server_config: rustls::ServerConfig,
    r: Result<u64, HandshakeError>,
) -> bool {
    exists|
        client: rustls::Connection,
        server: rustls::Connection,
        client_after: rustls::Connection,
        server_after: rustls::Connection,
    |
        opened(client_config, server_config, client, server) && #[trigger] exchange_gives(
            client,
            server,
            u64::MAX as nat,
            client_after,
            server_after,
            r,
        )
}

/// A client and a server with these configurations can complete a handshake.
pub open spec fn handshake_completes(
    client_config: rustls::ClientConfig,
    server_config: rustls::ServerConfig,
) -> bool {
    exists|n: u64| #[trigger] some_exchange_gives(client_config, server_config, Ok(n))
}

/// The connection can be a new client with this configuration, opened for the host.
pub open spec fn client_opened(config: rustls::ClientConfig, client: rustls::Connection) -> bool {
    exists|name: rustls::pki_types::ServerName<'static>|
        server_name_gives(HOST@, Ok(name)) && #[trigger] client_gives(config, name, Ok(client))
}

/// A client connection to the host can be opened.
pub open spec fn client_can_open(config: rustls::ClientConfig) -> bool {
    exists|client: rustls::Connection| #[trigger] client_opened(config, client)
}

/// Opening a client connection to the host can fail with `e`.
pub open spec fn client_can_fail(config: rustls::ClientConfig, e: rustls::Error) -> bool {
    exists|name: rustls::pki_types::ServerName<'static>|
        server_name_gives(HOST@, Ok(name)) && #[trigger] client_gives(config, name, Err(e))
}

/// `r` can be the result of a handshake between a client and a server with these
/// configurations.
pub open spec fn handshake_gives(
    client_config: rustls::ClientConfig,
    server_config: rustls::ServerConfig,
    r: Result<(), HandshakeError>,
) -> bool {
    match r {
        Ok(()) => handshake_completes(client_config, server_config),
        Err(HandshakeError::Name(e)) => server_name_gives(HOST@, Err(e)),
        Err(HandshakeError::OpenClient(e)) => client_can_fail(client_config, e),
        Err(HandshakeError::OpenServer(e)) => server_gives(server_config, Err(e))
            && client_can_open(client_config),
        Err(e) => some_exchange_gives(client_config, server_config, Err(e)),
    }
}

/// Runs one handshake between a new client and a new server connection in memory.
pub fn run_rustls_handshake_plain(
    client_config: &Arc<rustls::ClientConfig>,
    server_config: &Arc<rustls::ServerConfig>,
) -> (r: Result<(), HandshakeError>)
    ensures
        handshake_gives(**client_config, **server_config, r),
{
    let name = match read_server_name(HOST) {
        Ok(name) => name,
        Err(e) => {
            return Err(HandshakeError::Name(e));
        },
    };
    let mut client = match open_client(client_config, name) {
        Ok(connection) => connection,
        Err(e) => {
            assert(client_can_fail(**client_config, e));
            return Err(HandshakeError::OpenClient(e));
        },
    };
    assert(client_opened(**client_config, client));
    let mut server = match open_server(server_config) {
        Ok(connection) => connection,
        Err(e) => {
            return Err(HandshakeError::OpenServer(e));
        },
    };
    assert(opened(**client_config, **server_config, client, server));
    match complete_handshake(&mut client, &mut server, u64::MAX) {
        Ok(n) => {
            assert(some_exchange_gives(**client_config, **server_config, Ok(n)));
            Ok(())
        },
        Err(e) => {
            assert(some_exchange_gives(**client_config, **server_config, Err(e)));
            Err(e)
        },
    }
}

} // verus!

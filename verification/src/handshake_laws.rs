//! Laws of the configurations and handshakes of both implementations: which calls, on
//! which arguments and in which order, stand behind what they give.

use crate::certs::CertMaterial;
use crate::hosts::AcceptLocalhost;
use crate::rustls_backend::{
    byte_views, client_config_gives, client_gives, handshaking, no_resumption_gives,
    offered_suites, private_key_gives, process_gives, read_gives, root_store_gives,
    server_config_gives, server_gives, server_name_gives, suite_number, unread, unsent,
    write_gives,
};
use crate::rustls_run::{
    answer_failed, carried, carry_failed, client_configured, client_opened, exchange_gives,
    full_handshakes_only, handshake_gives, is_pinned, opened, pair_configured, read_in_steps,
    read_step, read_up_to, round, round_failed, rounds, rounds_failed, rustls_configs_give,
    server_can_be_configured, server_configured, some_exchange_gives, stopped_at, took,
    write_step, wrote, HandshakeError, RustlsConfigError,
};
use crate::s2n_backend::{
    build_gives, connection_gives, host_callback_gives, load_pem_gives, new_builder_gives,
    pair_gives, pair_handshake_gives, pair_name_gives, policy_gives, suite_gives, trust_pem_gives,
    Side,
};
use crate::s2n_run::{
    client_builder, client_finished, joined, named, negotiated, policed_builder,
    s2n_configs_give, s2n_handshake_gives, server_builder, server_finished, trusting_builder,
    S2nConfigError, S2nHandshakeError,
};
use std::sync::Arc;
use vstd::prelude::*;

verus! {

/// A list of byte strings is seen as the bytes that they hold, in order.
pub proof fn lemma_byte_strings_are_seen_as_they_are(s: Seq<Vec<u8>>)
    ensures
        byte_views(s) == s.map_values(|v: Vec<u8>| v@),
{
    assert(byte_views(s) =~= s.map_values(|v: Vec<u8>| v@));
}

/// What stands behind an s2n-tls server for the material: a new builder, whose policy was
/// set to `20251014`, and which then loaded the material's chain with its key, was
/// finished. Returns the builder after each of these steps.
pub proof fn lemma_s2n_server_is_for_the_material(
    certs: CertMaterial,
    client: s2n_tls::config::Config,
    server: s2n_tls::config::Config,
) -> (w: (s2n_tls::config::Builder, s2n_tls::config::Builder, s2n_tls::config::Builder))
    requires
        s2n_configs_give(certs, Ok((client, server))),
    ensures
        new_builder_gives(w.0),
        policy_gives(w.0, "20251014"@, w.1, Ok(())),
        load_pem_gives(w.1, certs.cert_chain_pem@, certs.key_pem@, w.2, Ok(())),
        build_gives(w.2, Ok(server)),
{
    assert(server_finished(certs, Ok(server)));
    let last = choose|b: s2n_tls::config::Builder|
        server_builder(certs, b, Ok(())) && #[trigger] build_gives(b, Ok(server));
    let policed = choose|b: s2n_tls::config::Builder|
        policed_builder(b, Ok(())) && #[trigger] load_pem_gives(
            b,
            certs.cert_chain_pem@,
            certs.key_pem@,
            last,
            Ok(()),
        );
    let first = choose|b: s2n_tls::config::Builder|
        new_builder_gives(b) && #[trigger] policy_gives(b, "20251014"@, policed, Ok(()));
    (first, policed, last)
}

/// What stands behind an s2n-tls client for the material: a new builder, whose policy was
/// set to `20251014`, which then trusted the material's authority and was told to accept
/// the host `localhost` alone, was finished. Returns the builder after each of these
/// steps.
pub proof fn lemma_s2n_client_is_for_the_material(
    certs: CertMaterial,
    client: s2n_tls::config::Config,
    server: s2n_tls::config::Config,
) -> (w: (
    s2n_tls::config::Builder,
    s2n_tls::config::Builder,
    s2n_tls::config::Builder,
    s2n_tls::config::Builder,
))
    requires
        s2n_configs_give(certs, Ok((client, server))),
    ensures
        new_builder_gives(w.0),
        policy_gives(w.0, "20251014"@, w.1, Ok(())),
        trust_pem_gives(w.1, certs.ca_pem@, w.2, Ok(())),
        host_callback_gives(w.2, AcceptLocalhost, w.3, Ok(())),
        build_gives(w.3, Ok(client)),
{
    assert(client_finished(certs, Ok(client)));
    let last = choose|b: s2n_tls::config::Builder|
        client_builder(certs, b, Ok(())) && #[trigger] build_gives(b, Ok(client));
    let trusting = choose|b: s2n_tls::config::Builder|
        trusting_builder(certs, b, Ok(())) && #[trigger] host_callback_gives(
            b,
            AcceptLocalhost,
            last,
            Ok(()),
        );
    let policed = choose|b: s2n_tls::config::Builder|
        policed_builder(b, Ok(())) && #[trigger] trust_pem_gives(
            b,
            certs.ca_pem@,
            trusting,
            Ok(()),
        );
    let first = choose|b: s2n_tls::config::Builder|
        new_builder_gives(b) && #[trigger] policy_gives(b, "20251014"@, policed, Ok(()));
    (first, policed, trusting, last)
}

/// A joined pair of a client with the one configuration and a server with the other,
/// whose client was told the name `localhost`, and the pair after its handshake.
pub open spec fn went_through(
    client_config: s2n_tls::config::Config,
    server_config: s2n_tls::config::Config,
    client: s2n_tls::connection::Connection,
    server: s2n_tls::connection::Connection,
    pair: s2n_tls::testing::TestPair,
    ready: s2n_tls::testing::TestPair,
    done: s2n_tls::testing::TestPair,
) -> bool {
    &&& connection_gives(client_config, Side::Client, Ok(client))
    &&& connection_gives(server_config, Side::Server, Ok(server))
    &&& pair_gives(client, server, pair)
    &&& pair_name_gives(pair, "localhost"@, ready, Ok(()))
    &&& pair_handshake_gives(ready, done, Ok(()))
}

proof fn lemma_s2n_negotiation(
    client_config: s2n_tls::config::Config,
    server_config: s2n_tls::config::Config,
    done: s2n_tls::testing::TestPair,
) -> (w: (
    s2n_tls::connection::Connection,
    s2n_tls::connection::Connection,
    s2n_tls::testing::TestPair,
    s2n_tls::testing::TestPair,
))
    requires
        negotiated(client_config, server_config, done, Ok(())),
    ensures
        connection_gives(client_config, Side::Client, Ok(w.0)),
        connection_gives(server_config, Side::Server, Ok(w.1)),
        pair_gives(w.0, w.1, w.2),
        pair_name_gives(w.2, "localhost"@, w.3, Ok(())),
        pair_handshake_gives(w.3, done, Ok(())),
{
    let ready = choose|p: s2n_tls::testing::TestPair|
        named(client_config, server_config, p, Ok(())) && #[trigger] pair_handshake_gives(
            p,
            done,
            Ok(()),
        );
    let pair = choose|p: s2n_tls::testing::TestPair|
        joined(client_config, server_config, p) && #[trigger] pair_name_gives(
            p,
            "localhost"@,
            ready,
            Ok(()),
        );
    let (client, server) = choose|
        client: s2n_tls::connection::Connection,
        server: s2n_tls::connection::Connection,
    |
        {
            &&& connection_gives(client_config, Side::Client, Ok(client))
            &&& connection_gives(server_config, Side::Server, Ok(server))
            &&& #[trigger] pair_gives(client, server, pair)
        };
    (client, server, pair, ready)
}

/// What stands behind an s2n-tls handshake that went well: a client and a server with
/// their configurations were opened and joined, the client was told the name
/// `localhost`, the handshake went well, and the client then named the suite
/// `TLS_AES_128_GCM_SHA256`. Returns the two connections, and the pair after each step.
pub proof fn lemma_s2n_handshake_step_by_step(
    client_config: s2n_tls::config::Config,
    server_config: s2n_tls::config::Config,
) -> (w: (
    s2n_tls::connection::Connection,
    s2n_tls::connection::Connection,
    s2n_tls::testing::TestPair,
    s2n_tls::testing::TestPair,
    s2n_tls::testing::TestPair,
))
    requires
        s2n_handshake_gives(client_config, server_config, Ok(())),
    ensures
        connection_gives(client_config, Side::Client, Ok(w.0)),
        connection_gives(server_config, Side::Server, Ok(w.1)),
        pair_gives(w.0, w.1, w.2),
        pair_name_gives(w.2, "localhost"@, w.3, Ok(())),
        pair_handshake_gives(w.3, w.4, Ok(())),
        suite_gives(w.4, Ok("TLS_AES_128_GCM_SHA256"@)),
{
    let done = choose|pair: s2n_tls::testing::TestPair| #[trigger]
        negotiated(client_config, server_config, pair, Ok(())) && suite_gives(
            pair,
            Ok("TLS_AES_128_GCM_SHA256"@),
        );
    let (client, server, pair, ready) = lemma_s2n_negotiation(client_config, server_config, done);
    (client, server, pair, ready, done)
}

/// An s2n-tls handshake that came to another suite went through all its steps, and the
/// client then named that suite. Returns the pair after its handshake.
pub proof fn lemma_s2n_handshake_with_another_suite(
    client_config: s2n_tls::config::Config,
    server_config: s2n_tls::config::Config,
    name: String,
) -> (done: s2n_tls::testing::TestPair)
    requires
        s2n_handshake_gives(
            client_config,
            server_config,
            Err(S2nHandshakeError::OtherSuite(name)),
        ),
    ensures
        name@ != "TLS_AES_128_GCM_SHA256"@,
        suite_gives(done, Ok(name@)),
        exists|
            client: s2n_tls::connection::Connection,
            server: s2n_tls::connection::Connection,
            pair: s2n_tls::testing::TestPair,
            ready: s2n_tls::testing::TestPair,
        | #[trigger]
            went_through(client_config, server_config, client, server, pair, ready, done),
{
    let done = choose|pair: s2n_tls::testing::TestPair| #[trigger]
        negotiated(client_config, server_config, pair, Ok(())) && suite_gives(pair, Ok(name@));
    let (client, server, pair, ready) = lemma_s2n_negotiation(client_config, server_config, done);
    assert(went_through(client_config, server_config, client, server, pair, ready, done));
    done
}

/// What stands behind a rustls client and server for the material. One provider, which
/// offers the suite registered as 0x1301 and no other, serves both. The server presents
/// its own certificate followed by the authority, with the key read from the material.
/// The client trusts a store that was made of the authority, and never resumes a session.
/// Returns the provider, the key, the store and the client before resumption was
/// disabled.
pub proof fn lemma_rustls_sides_are_for_the_material(
    certs: CertMaterial,
    client: Arc<rustls::ClientConfig>,
    server: Arc<rustls::ServerConfig>,
) -> (w: (
    rustls::crypto::CryptoProvider,
    rustls::pki_types::PrivateKeyDer<'static>,
    rustls::RootCertStore,
    rustls::ClientConfig,
))
    requires
        rustls_configs_give(certs, Ok((client, server))),
    ensures
        offered_suites(w.0).len() == 1,
        suite_number(offered_suites(w.0)[0]) == 0x1301,
        private_key_gives(certs.server_key_der@, Ok(w.1)),
        server_config_gives(
            w.0,
            seq![certs.server_cert_der@, certs.ca_cert_der@],
            w.1,
            Ok(*server),
        ),
        root_store_gives(certs.ca_cert_der@, Ok(w.2)),
        client_config_gives(w.0, w.2, Ok(w.3)),
        no_resumption_gives(w.3, *client),
{
    assert(pair_configured(certs, *client, *server));
    let provider = choose|provider: rustls::crypto::CryptoProvider|
        {
            &&& is_pinned(provider)
            &&& #[trigger] server_configured(certs, provider, Ok(*server))
            &&& full_handshakes_only(certs, provider, *client)
        };
    let chain = seq![certs.server_cert_der@, certs.ca_cert_der@];
    let key = choose|key: rustls::pki_types::PrivateKeyDer<'static>|
        {
            &&& private_key_gives(certs.server_key_der@, Ok(key))
            &&& #[trigger] server_config_gives(provider, chain, key, Ok(*server))
        };
    let plain = choose|plain: rustls::ClientConfig|
        {
            &&& client_configured(certs, provider, Ok(plain))
            &&& #[trigger] no_resumption_gives(plain, *client)
        };
    let roots = choose|roots: rustls::RootCertStore|
        {
            &&& root_store_gives(certs.ca_cert_der@, Ok(roots))
            &&& #[trigger] client_config_gives(provider, roots, Ok(plain))
        };
    (provider, key, roots, plain)
}

/// Writes stand one after the other: the connection goes through the states, and from one
/// to the next hands out the bytes from one end to the next. Each write was made while
/// there was something to send. Returns the states and the ends.
pub proof fn lemma_writes_one_after_another(
    before: rustls::Connection,
    k: nat,
    after: rustls::Connection,
    bytes: Seq<u8>,
) -> (w: (Seq<rustls::Connection>, Seq<int>))
    requires
        wrote(before, k, after, bytes),
    ensures
        w.0.len() == k + 1,
        w.1.len() == k + 1,
        w.0[0] == before,
        w.0.last() == after,
        w.1[0] == 0,
        w.1.last() == bytes.len(),
        forall|i: int|
            0 <= i < k ==> {
                &&& 0 <= #[trigger] w.1[i] <= w.1[i + 1] <= bytes.len()
                &&& unsent(w.0[i]).len() > 0
                &&& write_gives(w.0[i], w.0[i + 1], bytes.subrange(w.1[i], w.1[i + 1]))
            },
    decreases k,
{
    if k == 0 {
        (seq![before], seq![0int])
    } else {
        let (mid, head) = choose|mid: rustls::Connection, head: Seq<u8>|
            wrote(before, (k - 1) as nat, mid, head) && #[trigger] write_step(
                mid,
                after,
                head,
                bytes,
            );
        let (states, ends) = lemma_writes_one_after_another(before, (k - 1) as nat, mid, head);
        let all = (states.push(after), ends.push(bytes.len() as int));
        assert forall|i: int| 0 <= i < k implies {
            &&& 0 <= #[trigger] all.1[i] <= all.1[i + 1] <= bytes.len()
            &&& unsent(all.0[i]).len() > 0
            &&& write_gives(all.0[i], all.0[i + 1], bytes.subrange(all.1[i], all.1[i + 1]))
        } by {
            if i < k - 1 {
                assert(all.1[i] == ends[i] && all.1[i + 1] == ends[i + 1]);
                assert(all.0[i] == states[i] && all.0[i + 1] == states[i + 1]);
                assert(head =~= bytes.subrange(0, head.len() as int));
                assert(bytes.subrange(ends[i], ends[i + 1]) =~= head.subrange(
                    ends[i],
                    ends[i + 1],
                ));
            } else {
                assert(all.1[i] == ends.last() && all.0[i] == states.last());
                assert(bytes.subrange(all.1[i], all.1[i + 1]) =~= bytes.skip(head.len() as int));
            }
        }
        all
    }
}

/// Reads stand one after the other: the connection goes through the states, and each read
/// takes something of the flight from where the one before it ended. Returns the states
/// and the ends.
pub proof fn lemma_reads_one_after_another(
    flight: Seq<u8>,
    before: rustls::Connection,
    k: nat,
    at: int,
    after: rustls::Connection,
) -> (w: (Seq<rustls::Connection>, Seq<int>))
    requires
        read_in_steps(flight, before, k, at, after),
    ensures
        w.0.len() == k + 1,
        w.1.len() == k + 1,
        w.0[0] == before,
        w.0.last() == after,
        w.1[0] == 0,
        w.1.last() == at,
        forall|i: int|
            0 <= i < k ==> {
                &&& 0 <= #[trigger] w.1[i] < w.1[i + 1] <= flight.len()
                &&& exists|n: usize|
                    n == w.1[i + 1] - w.1[i] && #[trigger] read_gives(
                        w.0[i],
                        flight.skip(w.1[i]),
                        w.0[i + 1],
                        Ok(n),
                    )
            },
    decreases k,
{
    if k == 0 {
        (seq![before], seq![0int])
    } else {
        let (mid, from) = choose|mid: rustls::Connection, from: int|
            read_in_steps(flight, before, (k - 1) as nat, from, mid) && #[trigger] read_step(
                flight,
                mid,
                from,
                after,
                at,
            );
        let (states, ends) = lemma_reads_one_after_another(
            flight,
            before,
            (k - 1) as nat,
            from,
            mid,
        );
        let all = (states.push(after), ends.push(at));
        assert forall|i: int| 0 <= i < k implies {
            &&& 0 <= #[trigger] all.1[i] < all.1[i + 1] <= flight.len()
            &&& exists|n: usize|
                n == all.1[i + 1] - all.1[i] && #[trigger] read_gives(
                    all.0[i],
                    flight.skip(all.1[i]),
                    all.0[i + 1],
                    Ok(n),
                )
        } by {
            if i < k - 1 {
                assert(all.1[i] == ends[i] && all.1[i + 1] == ends[i + 1]);
                assert(all.0[i] == states[i] && all.0[i + 1] == states[i + 1]);
            } else {
                assert(all.1[i] == ends.last() && all.0[i] == states.last());
                let n = choose|n: usize|
                    at == from + n && #[trigger] read_gives(
                        mid,
                        flight.skip(from),
                        after,
                        Ok(n),
                    );
                assert(read_gives(all.0[i], flight.skip(all.1[i]), all.0[i + 1], Ok(n)));
            }
        }
        all
    }
}

/// Carrying empties the sender and lets the receiver read and process. The sender has
/// written all that it held, and otherwise is as it was. The receiver has read that from
/// its beginning on, all of it unless a read took nothing, and then has processed what it
/// had read. Returns how many bytes were read, and the receiver before it processed them.
pub proof fn lemma_carrying_hands_the_bytes_over(
    from: rustls::Connection,
    to: rustls::Connection,
    from_after: rustls::Connection,
    to_after: rustls::Connection,
) -> (w: (int, rustls::Connection))
    requires
        carried(from, to, from_after, to_after),
    ensures
        unsent(from_after).len() == 0,
        unread(from_after) == unread(from),
        handshaking(from_after) == handshaking(from),
        exists|k: nat| #[trigger] wrote(from, k, from_after, unsent(from)),
        0 <= w.0 <= unsent(from).len(),
        process_gives(w.1, to_after, Ok(())),
        w.0 == unsent(from).len() ==> {
            &&& exists|k: nat| #[trigger] read_in_steps(unsent(from), to, k, w.0, w.1)
            &&& unread(w.1) == unread(to) + unsent(from)
            &&& unsent(w.1) == unsent(to)
            &&& handshaking(w.1) == handshaking(to)
        },
        w.0 < unsent(from).len() ==> exists|k: nat, mid: rustls::Connection|
            {
                &&& #[trigger] read_in_steps(unsent(from), to, k, w.0, mid)
                &&& unread(mid) == unread(to) + unsent(from).take(w.0)
                &&& unsent(mid) == unsent(to)
                &&& handshaking(mid) == handshaking(to)
                &&& read_gives(mid, unsent(from).skip(w.0), w.1, Ok(0))
            },
{
    let flight = unsent(from);
    let (at, mid) = choose|at: int, mid: rustls::Connection| #[trigger]
        took(flight, to, at, mid) && process_gives(mid, to_after, Ok(()));
    if at == flight.len() && read_up_to(flight, to, at, mid) {
        assert(flight.take(at) =~= flight);
    } else {
        assert(stopped_at(flight, to, at, mid));
        let last = choose|last: rustls::Connection|
            {
                &&& #[trigger] read_up_to(flight, to, at, last)
                &&& at < flight.len()
                &&& read_gives(last, flight.skip(at), mid, Ok(0))
            };
        let k = choose|k: nat| #[trigger] read_in_steps(flight, to, k, at, last);
        assert(read_in_steps(flight, to, k, at, last));
    }
    (at, mid)
}

/// A round carries the client's bytes to the server first, and then what the server, with
/// them, holds for the client. Returns the client and the server in between.
pub proof fn lemma_a_round_goes_there_and_back(
    client: rustls::Connection,
    server: rustls::Connection,
    client_after: rustls::Connection,
    server_after: rustls::Connection,
) -> (w: (rustls::Connection, rustls::Connection))
    requires
        round(client, server, client_after, server_after),
    ensures
        carried(client, server, w.0, w.1),
        carried(w.1, w.0, server_after, client_after),
{
    choose|c: rustls::Connection, s: rustls::Connection| #[trigger]
        carried(client, server, c, s) && carried(s, c, server_after, client_after)
}

/// Rounds stand one after the other, and each of them was begun while a side was in its
/// handshake. Returns the clients and the servers between the rounds.
pub proof fn lemma_rounds_one_after_another(
    client: rustls::Connection,
    server: rustls::Connection,
    n: nat,
    client_after: rustls::Connection,
    server_after: rustls::Connection,
) -> (w: (Seq<rustls::Connection>, Seq<rustls::Connection>))
    requires
        rounds(client, server, n, client_after, server_after),
    ensures
        w.0.len() == n + 1,
        w.1.len() == n + 1,
        w.0[0] == client,
        w.1[0] == server,
        w.0.last() == client_after,
        w.1.last() == server_after,
        forall|i: int|
            0 <= i < n ==> (handshaking(#[trigger] w.0[i]) || handshaking(w.1[i])) && round(
                w.0[i],
                w.1[i],
                w.0[i + 1],
                w.1[i + 1],
            ),
    decreases n,
{
    if n == 0 {
        (seq![client], seq![server])
    } else {
        let (c, s) = choose|c: rustls::Connection, s: rustls::Connection|
            {
                &&& rounds(client, server, (n - 1) as nat, c, s)
                &&& handshaking(c) || handshaking(s)
                &&& #[trigger] round(c, s, client_after, server_after)
            };
        let (clients, servers) = lemma_rounds_one_after_another(
            client,
            server,
            (n - 1) as nat,
            c,
            s,
        );
        let all = (clients.push(client_after), servers.push(server_after));
        assert forall|i: int| 0 <= i < n implies (handshaking(#[trigger] all.0[i]) || handshaking(
            all.1[i],
        )) && round(all.0[i], all.1[i], all.0[i + 1], all.1[i + 1]) by {
            if i < n - 1 {
                assert(all.0[i] == clients[i] && all.0[i + 1] == clients[i + 1]);
                assert(all.1[i] == servers[i] && all.1[i + 1] == servers[i + 1]);
            } else {
                assert(all.0[i] == clients.last() && all.1[i] == servers.last());
            }
        }
        all
    }
}

/// What stands behind a rustls handshake that went well: a client for the host
/// `localhost` and a server, each with its configuration, were opened, and some rounds
/// took them to where neither is in its handshake. Returns the number of rounds, the
/// host's name, the two connections, and the two after the rounds.
pub proof fn lemma_rustls_handshake_step_by_step(
    client_config: rustls::ClientConfig,
    server_config: rustls::ServerConfig,
) -> (w: (
    u64,
    rustls::pki_types::ServerName<'static>,
    rustls::Connection,
    rustls::Connection,
    rustls::Connection,
    rustls::Connection,
))
    requires
        handshake_gives(client_config, server_config, Ok(())),
    ensures
        server_name_gives("localhost"@, Ok(w.1)),
        client_gives(client_config, w.1, Ok(w.2)),
        server_gives(server_config, Ok(w.3)),
        rounds(w.2, w.3, w.0 as nat, w.4, w.5),
        !handshaking(w.4),
        !handshaking(w.5),
{
    let n = choose|n: u64| #[trigger] some_exchange_gives(client_config, server_config, Ok(n));
    let (client, server, client_after, server_after) = choose|
        client: rustls::Connection,
        server: rustls::Connection,
        client_after: rustls::Connection,
        server_after: rustls::Connection,
    |
        opened(client_config, server_config, client, server) && #[trigger] exchange_gives(
            client,
            server,
            u64::MAX as nat,
            client_after,
            server_after,
            Ok(n),
        );
    let name = choose|name: rustls::pki_types::ServerName<'static>|
        server_name_gives("localhost"@, Ok(name)) && #[trigger] client_gives(
            client_config,
            name,
            Ok(client),
        );
    (n, name, client, server, client_after, server_after)
}

/// A read or a processing step that ends a rustls handshake comes behind rounds that went
/// well, in a round that was begun while a side was in its handshake: on the way to the
/// server, or on the way back. Returns the number of rounds, and the client and the
/// server behind them.
pub proof fn lemma_rustls_handshake_fails_in_a_round(
    client: rustls::Connection,
    server: rustls::Connection,
    max: nat,
    client_after: rustls::Connection,
    server_after: rustls::Connection,
    e: HandshakeError,
) -> (w: (nat, rustls::Connection, rustls::Connection))
    requires
        exchange_gives(client, server, max, client_after, server_after, Err(e)),
        !(e is Stalled),
    ensures
        e is Read || e is Process,
        w.0 < max,
        rounds(client, server, w.0, w.1, w.2),
        handshaking(w.1) || handshaking(w.2),
        carry_failed(w.1, w.2, client_after, server_after, e) || exists|
            c: rustls::Connection,
            s: rustls::Connection,
        | #[trigger]
            carried(w.1, w.2, c, s) && carry_failed(s, c, server_after, client_after, e),
{
    assert(rounds_failed(client, server, max, client_after, server_after, e));
    let (n, c, s) = choose|n: nat, c: rustls::Connection, s: rustls::Connection|
        {
            &&& n < max
            &&& #[trigger] rounds(client, server, n, c, s)
            &&& handshaking(c) || handshaking(s)
            &&& round_failed(c, s, client_after, server_after, e)
        };
    if !carry_failed(c, s, client_after, server_after, e) {
        assert(answer_failed(c, s, client_after, server_after, e));
    }
    (n, c, s)
}

/// Where carrying fails, the sender has written all that it held, and the receiver has
/// read it from its beginning on. A read of the rest failed, or the receiver rejected
/// what it had read.
pub proof fn lemma_carrying_fails_at_the_receiver(
    from: rustls::Connection,
    to: rustls::Connection,
    from_after: rustls::Connection,
    to_after: rustls::Connection,
    e: HandshakeError,
)
    requires
        carry_failed(from, to, from_after, to_after, e),
    ensures
        unsent(from_after).len() == 0,
        unread(from_after) == unread(from),
        handshaking(from_after) == handshaking(from),
        exists|k: nat| #[trigger] wrote(from, k, from_after, unsent(from)),
        e is Read || e is Process,
        e matches HandshakeError::Read(e) ==> exists|k: nat, at: int, mid: rustls::Connection|
            {
                &&& #[trigger] read_in_steps(unsent(from), to, k, at, mid)
                &&& 0 <= at < unsent(from).len()
                &&& unread(mid) == unread(to) + unsent(from).take(at)
                &&& read_gives(mid, unsent(from).skip(at), to_after, Err(e))
            },
        e matches HandshakeError::Process(e) ==> exists|at: int, mid: rustls::Connection|
            {
                &&& #[trigger] took(unsent(from), to, at, mid)
                &&& 0 <= at <= unsent(from).len()
                &&& at == unsent(from).len() ==> unread(mid) == unread(to) + unsent(from)
                &&& process_gives(mid, to_after, Err(e))
            },
{
    let flight = unsent(from);
    match e {
        HandshakeError::Read(e) => {
            let (at, mid) = choose|at: int, mid: rustls::Connection| #[trigger]
                read_up_to(flight, to, at, mid) && at < flight.len() && read_gives(
                    mid,
                    flight.skip(at),
                    to_after,
                    Err(e),
                );
            let k = choose|k: nat| #[trigger] read_in_steps(flight, to, k, at, mid);
            assert(read_in_steps(flight, to, k, at, mid));
        },
        HandshakeError::Process(e) => {
            let (at, mid) = choose|at: int, mid: rustls::Connection| #[trigger]
                took(flight, to, at, mid) && process_gives(mid, to_after, Err(e));
            assert(flight.take(flight.len() as int) =~= flight);
            assert(took(flight, to, at, mid));
        },
        _ => {},
    }
}

/// An exchange that stalls has gone through all the rounds that it was given, each of
/// them begun while a side was in its handshake, and a side still is.
pub proof fn lemma_rustls_stalls_behind_the_last_round(
    client: rustls::Connection,
    server: rustls::Connection,
    max: nat,
    client_after: rustls::Connection,
    server_after: rustls::Connection,
) -> (w: (Seq<rustls::Connection>, Seq<rustls::Connection>))
    requires
        exchange_gives(
            client,
            server,
            max,
            client_after,
            server_after,
            Err(HandshakeError::Stalled),
        ),
    ensures
        handshaking(client_after) || handshaking(server_after),
        w.0.len() == max + 1,
        w.1.len() == max + 1,
        w.0[0] == client,
        w.1[0] == server,
        w.0.last() == client_after,
        w.1.last() == server_after,
        forall|i: int|
            0 <= i < max ==> (handshaking(#[trigger] w.0[i]) || handshaking(w.1[i])) && round(
                w.0[i],
                w.1[i],
                w.0[i + 1],
                w.1[i + 1],
            ),
{
    lemma_rounds_one_after_another(client, server, max, client_after, server_after)
}

/// Where s2n-tls cannot be configured, one call failed with the error: the one that the
/// error says, on what the material holds.
pub proof fn lemma_s2n_configuration_fails_at_one_step(certs: CertMaterial, e: S2nConfigError)
    requires
        s2n_configs_give(certs, Err(e)),
    ensures
        match e {
            S2nConfigError::Policy(e) => exists|
                b: s2n_tls::config::Builder,
                after: s2n_tls::config::Builder,
            | #[trigger]
                policy_gives(b, "20251014"@, after, Err(e)) && new_builder_gives(b),
            S2nConfigError::LoadChain(e) => exists|
                b: s2n_tls::config::Builder,
                after: s2n_tls::config::Builder,
            | #[trigger]
                load_pem_gives(b, certs.cert_chain_pem@, certs.key_pem@, after, Err(e)),
            S2nConfigError::BuildServer(e) => exists|b: s2n_tls::config::Builder| #[trigger]
                build_gives(b, Err(e)) && server_builder(certs, b, Ok(())),
            S2nConfigError::TrustRoot(e) => exists|
                b: s2n_tls::config::Builder,
                after: s2n_tls::config::Builder,
            | #[trigger]
                trust_pem_gives(b, certs.ca_pem@, after, Err(e)),
            S2nConfigError::HostCallback(e) => exists|
                b: s2n_tls::config::Builder,
                after: s2n_tls::config::Builder,
            | #[trigger]
                host_callback_gives(b, AcceptLocalhost, after, Err(e)),
            S2nConfigError::BuildClient(e) => exists|b: s2n_tls::config::Builder| #[trigger]
                build_gives(b, Err(e)) && client_builder(certs, b, Ok(())),
        },
{
    match e {
        S2nConfigError::Policy(e) => {
            let after = choose|b: s2n_tls::config::Builder| #[trigger]
                policed_builder(b, Err(e));
            let b = choose|b: s2n_tls::config::Builder|
                new_builder_gives(b) && #[trigger] policy_gives(b, "20251014"@, after, Err(e));
            assert(policy_gives(b, "20251014"@, after, Err(e)));
        },
        S2nConfigError::LoadChain(e) => {
            let after = choose|after: s2n_tls::config::Builder| #[trigger]
                server_builder(certs, after, Err(e));
            let b = choose|b: s2n_tls::config::Builder| #[trigger]
                load_pem_gives(b, certs.cert_chain_pem@, certs.key_pem@, after, Err(e));
            assert(load_pem_gives(b, certs.cert_chain_pem@, certs.key_pem@, after, Err(e)));
        },
        S2nConfigError::TrustRoot(e) => {
            let after = choose|after: s2n_tls::config::Builder| #[trigger]
                trusting_builder(certs, after, Err(e));
            let b = choose|b: s2n_tls::config::Builder| #[trigger]
                trust_pem_gives(b, certs.ca_pem@, after, Err(e));
            assert(trust_pem_gives(b, certs.ca_pem@, after, Err(e)));
        },
        S2nConfigError::HostCallback(e) => {
            let after = choose|after: s2n_tls::config::Builder| #[trigger]
                client_builder(certs, after, Err(e));
            let b = choose|b: s2n_tls::config::Builder| #[trigger]
                host_callback_gives(b, AcceptLocalhost, after, Err(e));
            assert(host_callback_gives(b, AcceptLocalhost, after, Err(e)));
        },
        _ => {},
    }
}

/// Where an s2n-tls handshake fails before its suite is known, one call failed with the
/// error: the one that the error says.
pub proof fn lemma_s2n_handshake_fails_at_one_step(
    client_config: s2n_tls::config::Config,
    server_config: s2n_tls::config::Config,
    e: S2nHandshakeError,
)
    requires
        s2n_handshake_gives(client_config, server_config, Err(e)),
    ensures
        match e {
            S2nHandshakeError::OpenClient(e) => connection_gives(
                client_config,
                Side::Client,
                Err(e),
            ),
            S2nHandshakeError::OpenServer(e) => connection_gives(
                server_config,
                Side::Server,
                Err(e),
            ),
            S2nHandshakeError::Name(e) => exists|
                pair: s2n_tls::testing::TestPair,
                after: s2n_tls::testing::TestPair,
            | #[trigger]
                pair_name_gives(pair, "localhost"@, after, Err(e)) && joined(
                    client_config,
                    server_config,
                    pair,
                ),
            S2nHandshakeError::Handshake(e) => exists|
                pair: s2n_tls::testing::TestPair,
                after: s2n_tls::testing::TestPair,
            | #[trigger]
                pair_handshake_gives(pair, after, Err(e)) && named(
                    client_config,
                    server_config,
                    pair,
                    Ok(()),
                ),
            S2nHandshakeError::NoSuite(e) => exists|pair: s2n_tls::testing::TestPair| #[trigger]
                suite_gives(pair, Err(e)) && negotiated(
                    client_config,
                    server_config,
                    pair,
                    Ok(()),
                ),
            S2nHandshakeError::OtherSuite(name) => name@ != "TLS_AES_128_GCM_SHA256"@,
        },
{
    match e {
        S2nHandshakeError::Name(e) => {
            let after = choose|pair: s2n_tls::testing::TestPair| #[trigger]
                named(client_config, server_config, pair, Err(e));
            let pair = choose|p: s2n_tls::testing::TestPair|
                joined(client_config, server_config, p) && #[trigger] pair_name_gives(
                    p,
                    "localhost"@,
                    after,
                    Err(e),
                );
            assert(pair_name_gives(pair, "localhost"@, after, Err(e)));
        },
        S2nHandshakeError::Handshake(e) => {
            let after = choose|pair: s2n_tls::testing::TestPair| #[trigger]
                negotiated(client_config, server_config, pair, Err(e));
            let pair = choose|p: s2n_tls::testing::TestPair|
                named(client_config, server_config, p, Ok(())) && #[trigger] pair_handshake_gives(
                    p,
                    after,
                    Err(e),
                );
            assert(pair_handshake_gives(pair, after, Err(e)));
        },
        S2nHandshakeError::NoSuite(e) => {
            let pair = choose|pair: s2n_tls::testing::TestPair| #[trigger]
                negotiated(client_config, server_config, pair, Ok(())) && suite_gives(
                    pair,
                    Err(e),
                );
            assert(suite_gives(pair, Err(e)));
        },
        _ => {},
    }
}

/// Where rustls cannot be configured, one call failed with the error: the one that the
/// error says, on what the material holds.
pub proof fn lemma_rustls_configuration_fails_at_one_step(
    certs: CertMaterial,
    e: RustlsConfigError,
)
    requires
        rustls_configs_give(certs, Err(e)),
    ensures
        match e {
            RustlsConfigError::PrivateKey(e) => private_key_gives(certs.server_key_der@, Err(e)),
            RustlsConfigError::Server(e) => exists|
                provider: rustls::crypto::CryptoProvider,
                chain: Seq<Seq<u8>>,
                key: rustls::pki_types::PrivateKeyDer<'static>,
            |
                {
                    &&& #[trigger] server_config_gives(provider, chain, key, Err(e))
                    &&& chain == seq![certs.server_cert_der@, certs.ca_cert_der@]
                    &&& offered_suites(provider).len() == 1
                    &&& suite_number(offered_suites(provider)[0]) == 0x1301
                    &&& private_key_gives(certs.server_key_der@, Ok(key))
                },
            RustlsConfigError::Root(e) => root_store_gives(certs.ca_cert_der@, Err(e)),
            RustlsConfigError::Client(e) => exists|
                provider: rustls::crypto::CryptoProvider,
                roots: rustls::RootCertStore,
            |
                {
                    &&& #[trigger] client_config_gives(provider, roots, Err(e))
                    &&& offered_suites(provider).len() == 1
                    &&& suite_number(offered_suites(provider)[0]) == 0x1301
                    &&& root_store_gives(certs.ca_cert_der@, Ok(roots))
                },
        },
{
    match e {
        RustlsConfigError::Server(e) => {
            let provider = choose|provider: rustls::crypto::CryptoProvider|
                is_pinned(provider) && #[trigger] server_configured(certs, provider, Err(e));
            let chain = seq![certs.server_cert_der@, certs.ca_cert_der@];
            let key = choose|key: rustls::pki_types::PrivateKeyDer<'static>|
                {
                    &&& private_key_gives(certs.server_key_der@, Ok(key))
                    &&& #[trigger] server_config_gives(provider, chain, key, Err(e))
                };
            assert(server_config_gives(provider, chain, key, Err(e)));
        },
        RustlsConfigError::Client(e) => {
            let provider = choose|provider: rustls::crypto::CryptoProvider| #[trigger]
                server_can_be_configured(certs, provider) && client_configured(
                    certs,
                    provider,
                    Err(e),
                );
            let roots = choose|roots: rustls::RootCertStore|
                {
                    &&& root_store_gives(certs.ca_cert_der@, Ok(roots))
                    &&& #[trigger] client_config_gives(provider, roots, Err(e))
                };
            assert(client_config_gives(provider, roots, Err(e)));
        },
        _ => {},
    }
}

/// Where a rustls handshake does not come to its first round, naming the host `localhost`
/// or opening a side failed with the error. Where it fails later, both sides were opened.
pub proof fn lemma_rustls_handshake_fails_at_one_step(
    client_config: rustls::ClientConfig,
    server_config: rustls::ServerConfig,
    e: HandshakeError,
)
    requires
        handshake_gives(client_config, server_config, Err(e)),
    ensures
        match e {
            HandshakeError::Name(e) => server_name_gives("localhost"@, Err(e)),
            HandshakeError::OpenClient(e) => exists|name: rustls::pki_types::ServerName<'static>|
                #[trigger] client_gives(client_config, name, Err(e)) && server_name_gives(
                    "localhost"@,
                    Ok(name),
                ),
            HandshakeError::OpenServer(e) => server_gives(server_config, Err(e)),
            _ => exists|
                client: rustls::Connection,
                server: rustls::Connection,
                client_after: rustls::Connection,
                server_after: rustls::Connection,
            |
                {
                    &&& client_opened(client_config, client)
                    &&& server_gives(server_config, Ok(server))
                    &&& #[trigger] exchange_gives(
                        client,
                        server,
                        u64::MAX as nat,
                        client_after,
                        server_after,
                        Err(e),
                    )
                },
        },
{
}

} // verus!

use std::sync::{Arc, Mutex};

use rustls::pki_types::ServerName;
use s2n_tls::callbacks::VerifyHostNameCallback;
use s2n_tls::connection::Connection;
use s2n_tls::events::{EventSubscriber, HandshakeEvent, TimingCheckpoint};
use s2n_tls::testing::TestPair;
use tls_handshake_benchmarking::certs::{generate_certs, CertMaterial};
use tls_handshake_benchmarking::checkpoint::RawCheckpoint;
use tls_handshake_benchmarking::durations::compute_durations_s2n;
use tls_handshake_benchmarking::groups::group_durations;
use tls_handshake_benchmarking::keys::KeyLog;
use tls_handshake_benchmarking::hosts::{AcceptLocalhost, InsecureAcceptAllCertificatesHandler};
use tls_handshake_benchmarking::rustls_run::{
    build_rustls_configs, complete_handshake, run_rustls_handshake_plain, HandshakeError,
    RustlsConfigError,
};
use tls_handshake_benchmarking::s2n_run::{
    build_s2n_configs, finish_s2n_client, finish_s2n_server, run_s2n_handshake_plain,
    s2n_client_builder, s2n_server_builder, S2nConfigError, S2nHandshakeError,
    PINNED_SUITE_NAME, POLICY,
};

fn certs(cert_type: &str) -> CertMaterial {
    generate_certs(cert_type, &mut KeyLog::new()).unwrap()
}

#[test]
fn host_names() {
    assert!(InsecureAcceptAllCertificatesHandler {}.verify_host_name("anything"));
    assert!(InsecureAcceptAllCertificatesHandler {}.verify_host_name(""));
    assert!(AcceptLocalhost.verify_host_name("localhost"));
    assert!(!AcceptLocalhost.verify_host_name("localhost."));
    assert!(!AcceptLocalhost.verify_host_name("Localhost"));
    assert!(!AcceptLocalhost.verify_host_name(""));
}

#[test]
fn rustls_handshakes_complete() {
    for cert_type in ["rsa2048", "ecdsa256", "ecdsa384"] {
        let (client, server) = build_rustls_configs(&certs(cert_type)).unwrap();
        run_rustls_handshake_plain(&client, &server).unwrap();
        run_rustls_handshake_plain(&client, &server).unwrap();
    }
}

#[test]
fn rustls_offers_the_pinned_suite_alone() {
    let (client, server) = build_rustls_configs(&certs("ecdsa256")).unwrap();
    for provider in [client.crypto_provider(), server.crypto_provider()] {
        assert_eq!(provider.cipher_suites.len(), 1);
        assert_eq!(
            provider.cipher_suites[0].suite(),
            rustls::CipherSuite::TLS13_AES_128_GCM_SHA256
        );
        assert_eq!(u16::from(provider.cipher_suites[0].suite()), 0x1301);
    }
}

fn opened(
    client: &Arc<rustls::ClientConfig>,
    server: &Arc<rustls::ServerConfig>,
) -> (rustls::Connection, rustls::Connection) {
    let name = ServerName::try_from("localhost").unwrap();
    (
        rustls::ClientConnection::new(client.clone(), name).unwrap().into(),
        rustls::ServerConnection::new(server.clone()).unwrap().into(),
    )
}

#[test]
fn rustls_handshakes_are_full_ones() {
    let (client, server) = build_rustls_configs(&certs("ecdsa256")).unwrap();
    for _ in 0..3 {
        let (mut c, mut s) = opened(&client, &server);
        assert!(matches!(complete_handshake(&mut c, &mut s, 10), Ok(2)));
        assert!(!c.is_handshaking() && !s.is_handshaking());
        assert_eq!(c.handshake_kind(), Some(rustls::HandshakeKind::Full));
        assert_eq!(s.handshake_kind(), Some(rustls::HandshakeKind::Full));
        // The server's own certificate is followed by the authority's.
        assert_eq!(c.peer_certificates().unwrap().len(), 2);
    }
}

#[test]
fn rustls_handshakes_can_stall() {
    let (client, server) = build_rustls_configs(&certs("ecdsa256")).unwrap();
    for rounds in [0, 1] {
        let (mut c, mut s) = opened(&client, &server);
        assert!(matches!(
            complete_handshake(&mut c, &mut s, rounds),
            Err(HandshakeError::Stalled)
        ));
        assert!(c.is_handshaking() || s.is_handshaking());
    }
}

#[test]
fn completed_handshakes_take_no_rounds() {
    let (client, server) = build_rustls_configs(&certs("ecdsa256")).unwrap();
    let (mut c, mut s) = opened(&client, &server);
    assert!(complete_handshake(&mut c, &mut s, 10).is_ok());
    assert!(matches!(complete_handshake(&mut c, &mut s, 0), Ok(0)));
}

#[test]
fn rustls_rejects_another_authority() {
    let (client, _) = build_rustls_configs(&certs("ecdsa256")).unwrap();
    let (_, server) = build_rustls_configs(&certs("ecdsa256")).unwrap();
    assert!(matches!(
        run_rustls_handshake_plain(&client, &server),
        Err(HandshakeError::Process(_))
    ));
}

#[test]
fn rustls_configuration_errors() {
    let good = certs("ecdsa256");
    let with = |ca: Vec<u8>, server: Vec<u8>, key: Vec<u8>| {
        build_rustls_configs(&CertMaterial::from_encodings("", "", "", ca, server, key))
    };
    assert!(matches!(
        with(good.ca_cert_der.clone(), good.server_cert_der.clone(), vec![1, 2, 3]),
        Err(RustlsConfigError::PrivateKey(_))
    ));
    let other = certs("ecdsa256");
    assert!(matches!(
        with(good.ca_cert_der.clone(), good.server_cert_der.clone(), other.server_key_der),
        Err(RustlsConfigError::Server(_))
    ));
    assert!(matches!(
        with(vec![0], good.server_cert_der.clone(), good.server_key_der.clone()),
        Err(RustlsConfigError::Root(_))
    ));
    assert!(with(good.ca_cert_der, good.server_cert_der, good.server_key_der).is_ok());
}

#[test]
fn s2n_handshakes_complete() {
    for cert_type in ["rsa2048", "ecdsa256", "ecdsa384"] {
        let (client, server) = build_s2n_configs(&certs(cert_type)).unwrap();
        run_s2n_handshake_plain(&client, &server).unwrap();
        run_s2n_handshake_plain(&client, &server).unwrap();
    }
}

#[test]
fn s2n_builders_can_be_finished_one_by_one() {
    let material = certs("ecdsa256");
    let server = finish_s2n_server(s2n_server_builder(&material).unwrap()).unwrap();
    let client = finish_s2n_client(s2n_client_builder(&material).unwrap()).unwrap();
    run_s2n_handshake_plain(&client, &server).unwrap();
}

#[test]
fn s2n_rejects_another_authority() {
    let (client, _) = build_s2n_configs(&certs("ecdsa256")).unwrap();
    let (_, server) = build_s2n_configs(&certs("ecdsa256")).unwrap();
    assert!(matches!(
        run_s2n_handshake_plain(&client, &server),
        Err(S2nHandshakeError::Handshake(_))
    ));
}

#[test]
fn s2n_needs_a_server_certificate() {
    let (client, _) = build_s2n_configs(&certs("ecdsa256")).unwrap();
    assert!(matches!(
        run_s2n_handshake_plain(&client, &client),
        Err(S2nHandshakeError::Handshake(_))
    ));
}

#[test]
fn s2n_configuration_errors() {
    let good = certs("ecdsa256");
    let bad_chain = CertMaterial { cert_chain_pem: b"no chain".to_vec(), ..certs("ecdsa256") };
    assert!(matches!(build_s2n_configs(&bad_chain), Err(S2nConfigError::LoadChain(_))));
    let bad_ca = CertMaterial { ca_pem: b"no certificate".to_vec(), ..good };
    assert!(matches!(build_s2n_configs(&bad_ca), Err(S2nConfigError::TrustRoot(_))));
}

struct Collector(Arc<Mutex<Vec<RawCheckpoint>>>);

impl EventSubscriber for Collector {
    fn on_handshake_event(&self, _connection: &Connection, _event: &HandshakeEvent) {}

    fn on_timing_checkpoint(&self, _connection: &Connection, checkpoint: &TimingCheckpoint) {
        self.0.lock().unwrap().push(RawCheckpoint::new(
            checkpoint.name(),
            checkpoint.is_server(),
            checkpoint.timestamp_ns(),
        ));
    }
}

#[test]
fn checkpoints_of_real_handshakes_give_durations() {
    let all = Arc::new(Mutex::new(Vec::new()));
    let material = certs("ecdsa256");
    let mut server = s2n_server_builder(&material).unwrap();
    server.set_event_subscriber(Collector(all.clone())).unwrap();
    let server = finish_s2n_server(server).unwrap();
    let mut client = s2n_client_builder(&material).unwrap();
    client.set_event_subscriber(Collector(all.clone())).unwrap();
    let client = finish_s2n_client(client).unwrap();
    for _ in 0..4 {
        run_s2n_handshake_plain(&client, &server).unwrap();
    }
    let checkpoints = all.lock().unwrap();
    let per_handshake = checkpoints.len() / 4;
    assert_eq!(checkpoints.len(), per_handshake * 4);
    let records = compute_durations_s2n(&checkpoints, 4);
    let anchors = checkpoints.iter().filter(|c| c.name == "NEGOTIATE_START").count();
    assert_eq!(anchors, 8);
    assert_eq!(records.len() + anchors, checkpoints.len());
    assert!(records.iter().all(|r| r.message_name != "NEGOTIATE_START" && r.iteration < 4));
    let groups = group_durations(&records);
    assert_eq!(groups.get("s2n-tls|SERVER_CERT_VERIFY_server").unwrap().samples.len(), 4);
}

#[test]
fn s2n_negotiates_the_pinned_suite() {
    assert_eq!(PINNED_SUITE_NAME, "TLS_AES_128_GCM_SHA256");
    for cert_type in ["rsa2048", "ecdsa256", "ecdsa384"] {
        let (client, server) = build_s2n_configs(&certs(cert_type)).unwrap();
        let mut pair = TestPair::from_configs(&client, &server);
        pair.client.set_server_name("localhost").unwrap();
        pair.handshake().unwrap();
        assert_eq!(pair.client.cipher_suite().unwrap(), PINNED_SUITE_NAME);
        assert_eq!(pair.server.cipher_suite().unwrap(), PINNED_SUITE_NAME);
    }
}

#[test]
fn s2n_handshakes_with_another_suite_fail() {
    let material = certs("rsa2048");
    assert_eq!(POLICY, "20251014");
    // A policy that prefers AES-256-GCM-SHA384 takes the place of the library's own.
    let other = s2n_tls::security::Policy::from_version("20190801").unwrap();
    let mut server = s2n_server_builder(&material).unwrap();
    server.set_security_policy(&other).unwrap();
    let server = finish_s2n_server(server).unwrap();
    let mut client = s2n_client_builder(&material).unwrap();
    client.set_security_policy(&other).unwrap();
    let client = finish_s2n_client(client).unwrap();
    match run_s2n_handshake_plain(&client, &server) {
        Err(S2nHandshakeError::OtherSuite(name)) => assert_eq!(name, "TLS_AES_256_GCM_SHA384"),
        r => panic!("{r:?}"),
    }
}

#[test]
fn empty_material_has_no_private_key() {
    let nothing = CertMaterial::from_encodings("", "", "", vec![], vec![], vec![]);
    match build_rustls_configs(&nothing) {
        Err(RustlsConfigError::PrivateKey(e)) => assert_eq!(e, "unknown or invalid key format"),
        _ => panic!("an empty text is no private key"),
    }
    // The key is read before the root store is made.
    let bad_key_and_root = CertMaterial { server_key_der: vec![0x30, 0x00], ..nothing };
    assert!(matches!(
        build_rustls_configs(&bad_key_and_root),
        Err(RustlsConfigError::PrivateKey(_))
    ));
}

#[test]
fn forms_of_private_keys() {
    let with_key = |key: &[u8]| {
        build_rustls_configs(&CertMaterial {
            server_key_der: key.to_vec(),
            ..CertMaterial::from_encodings("", "", "", vec![], vec![], vec![])
        })
    };
    // Each of these begins like a key, so that another step fails.
    for key in [
        &[0x30, 0x04, 0x02, 0x01, 0x05, 0x30][..],
        &[0x30, 0x03, 0x02, 0x01, 0x00][..],
        &[0x30, 0x03, 0x02, 0x01, 0x01][..],
        &[0x30, 0x82, 0x00, 0x03, 0x02, 0x01, 0x00][..],
    ] {
        assert!(matches!(with_key(key), Err(RustlsConfigError::Server(_))), "{key:?}");
    }
    for key in [
        &[0x31, 0x03, 0x02, 0x01, 0x00][..],
        &[0x30, 0x03, 0x02, 0x01, 0x02][..],
        &[0x30, 0x03, 0x02, 0x01][..],
        &[0x30, 0x84, 0x02, 0x01, 0x00][..],
        &[0x30][..],
    ] {
        assert!(matches!(with_key(key), Err(RustlsConfigError::PrivateKey(_))), "{key:?}");
    }
}

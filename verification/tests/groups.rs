use tls_handshake_benchmarking::durations::MeasurementRecord;
use tls_handshake_benchmarking::groups::{group_durations, sample_key};
use tls_handshake_benchmarking::order::stable_order;
use tls_handshake_benchmarking::summary::{median, summary_rows, HANDSHAKE_ORDER};

fn record(implementation: &str, message: &str, role: &str, duration_ns: u64) -> MeasurementRecord {
    MeasurementRecord {
        implementation: implementation.to_string(),
        handshake_type: "tls13_full".to_string(),
        iteration: 0,
        message_name: message.to_string(),
        role: role.to_string(),
        duration_ns,
    }
}

#[test]
fn keys_are_namespaced_by_implementation() {
    assert_eq!(sample_key("s2n-tls", "SERVER_HELLO", "client"), "s2n-tls|SERVER_HELLO_client");
    assert_ne!(
        sample_key("s2n-tls", "SERVER_HELLO", "client"),
        sample_key("rustls", "SERVER_HELLO", "client")
    );
}

#[test]
fn groups_stand_in_key_order_and_keep_samples_in_order() {
    let groups = group_durations(&vec![
        record("s2n-tls", "SERVER_HELLO", "server", 5),
        record("s2n-tls", "CLIENT_HELLO", "server", 1),
        record("rustls", "CLIENT_HELLO", "server", 9),
        record("s2n-tls", "SERVER_HELLO", "server", 3),
        record("s2n-tls", "SERVER_HELLO", "client", 4),
        record("s2n-tls", "SERVER_HELLO", "server", 4),
    ]);
    let all: Vec<(&str, &[u64])> = (0..groups.len())
        .map(|i| (groups.group(i).key.as_str(), groups.group(i).samples.as_slice()))
        .collect();
    assert_eq!(
        all,
        vec![
            ("rustls|CLIENT_HELLO_server", &[9][..]),
            ("s2n-tls|CLIENT_HELLO_server", &[1][..]),
            ("s2n-tls|SERVER_HELLO_client", &[4][..]),
            ("s2n-tls|SERVER_HELLO_server", &[5, 3, 4][..]),
        ]
    );
    assert_eq!(groups.get("s2n-tls|SERVER_HELLO_client").unwrap().samples, vec![4]);
    assert!(groups.get("rustls|SERVER_HELLO_client").is_none());
    let held: usize = (0..groups.len()).map(|i| groups.group(i).samples.len()).sum();
    assert_eq!(held, 6);
}

#[test]
fn key_order_is_that_of_bytes() {
    let groups = group_durations(&vec![
        record("x", "\u{ffff}", "r", 1),
        record("x", "\u{10000}", "r", 2),
        record("x", "a", "r", 3),
        record("x", "B", "r", 4),
        record("x", "", "r", 5),
    ]);
    let keys: Vec<String> = (0..groups.len()).map(|i| groups.group(i).key.clone()).collect();
    let mut sorted = keys.clone();
    sorted.sort();
    assert_eq!(keys, sorted);
    assert_eq!(keys.len(), 5);
    assert_eq!(keys[4], "x|\u{10000}_r");
}

#[test]
fn no_measurements_no_groups() {
    assert_eq!(group_durations(&vec![]).len(), 0);
}

#[test]
fn stable_order_keeps_equal_keys_in_place() {
    assert_eq!(stable_order(&[3, 1, 2, 1, 3, 0]), vec![5, 1, 3, 2, 0, 4]);
    assert_eq!(stable_order(&[]), Vec::<usize>::new());
}

#[test]
fn median_is_the_upper_middle() {
    assert_eq!(median(&[7]), 7);
    assert_eq!(median(&[9, 1]), 9);
    assert_eq!(median(&[5, 1, 4]), 4);
    assert_eq!(median(&[4, 1, 3, 2]), 3);
    assert_eq!(median(&[2, 2, 1, u64::MAX]), 2);
}

#[test]
fn table_lists_messages_in_handshake_order() {
    let groups = group_durations(&vec![
        record("s2n-tls", "NEGOTIATE_END", "client", 2),
        record("s2n-tls", "CLIENT_HELLO", "client", 30),
        record("s2n-tls", "CLIENT_HELLO", "client", 10),
        record("s2n-tls", "CLIENT_HELLO", "client", 20),
        record("s2n-tls", "CLIENT_HELLO", "server", 8),
        record("s2n-tls", "NOT_LISTED", "server", 8),
        record("rustls", "SERVER_CERT", "client", 6),
        record("rustls", "SERVER_CERT", "client", 7),
    ]);
    let rows: Vec<(String, String, String, u64)> = summary_rows("s2n-tls", &groups)
        .into_iter()
        .map(|r| (r.message, r.role, r.key, r.median_ns))
        .collect();
    let row = |m: &str, r: &str, k: &str, d: u64| (m.to_string(), r.to_string(), k.to_string(), d);
    assert_eq!(
        rows,
        vec![
            row("CLIENT_HELLO", "server", "s2n-tls|CLIENT_HELLO_server", 8),
            row("CLIENT_HELLO", "client", "s2n-tls|CLIENT_HELLO_client", 20),
            row("NEGOTIATE_END", "client", "s2n-tls|NEGOTIATE_END_client", 2),
        ]
    );
    let rustls = summary_rows("rustls", &groups);
    assert_eq!(rustls.len(), 1);
    assert_eq!(rustls[0].key, "rustls|SERVER_CERT_client");
    assert_eq!(rustls[0].median_ns, 7);
    for a in &rows {
        assert_ne!(a.2, rustls[0].key);
    }
    assert!(summary_rows("other", &groups).is_empty());
}

#[test]
fn every_listed_message_can_have_two_rows() {
    let mut all = Vec::new();
    for message in HANDSHAKE_ORDER {
        all.push(record("rustls", message, "client", 1));
        all.push(record("rustls", message, "server", 2));
    }
    let rows = summary_rows("rustls", &group_durations(&all));
    assert_eq!(rows.len(), 30);
    for (i, r) in rows.iter().enumerate() {
        assert_eq!(r.message, HANDSHAKE_ORDER[i / 2]);
        assert_eq!(r.role, if i % 2 == 0 { "server" } else { "client" });
        assert_eq!(r.median_ns, if i % 2 == 0 { 2 } else { 1 });
    }
}

use tls_handshake_benchmarking::checkpoint::RawCheckpoint;
use tls_handshake_benchmarking::durations::{
    compute_durations_rustls, compute_durations_s2n, MeasurementRecord,
};

fn at(name: &str, is_server: bool, timestamp_ns: u64) -> RawCheckpoint {
    RawCheckpoint::new(name, is_server, timestamp_ns)
}

fn brief(records: &[MeasurementRecord]) -> Vec<(u64, &str, &str, u64)> {
    records
        .iter()
        .map(|r| (r.iteration, r.message_name.as_str(), r.role.as_str(), r.duration_ns))
        .collect()
}

fn one_handshake(epoch: u64) -> Vec<RawCheckpoint> {
    vec![
        at("NEGOTIATE_START", false, epoch),
        at("CLIENT_HELLO", false, epoch + 40),
        at("NEGOTIATE_START", true, epoch + 50),
        at("CLIENT_HELLO", true, epoch + 90),
        at("SERVER_HELLO", true, epoch + 200),
        at("SERVER_HELLO", false, epoch + 230),
    ]
}

#[test]
fn checkpoint_names_its_side() {
    let c = at("SERVER_HELLO", true, 7);
    assert_eq!((c.name.as_str(), c.role.as_str(), c.timestamp_ns), ("SERVER_HELLO", "server", 7));
    assert_eq!(at("SERVER_HELLO", false, 7).role, "client");
}

#[test]
fn s2n_durations_run_over_one_timeline() {
    let records = compute_durations_s2n(&one_handshake(1_000), 1);
    assert_eq!(
        brief(&records),
        vec![
            (0, "CLIENT_HELLO", "client", 40),
            (0, "CLIENT_HELLO", "server", 40),
            (0, "SERVER_HELLO", "server", 110),
            (0, "SERVER_HELLO", "client", 30),
        ]
    );
    for r in &records {
        assert_eq!(r.implementation, "s2n-tls");
        assert_eq!(r.handshake_type, "tls13_full");
    }
}

#[test]
fn s2n_without_checkpoints_or_iterations() {
    assert!(compute_durations_s2n(&[], 3).is_empty());
    assert!(compute_durations_s2n(&one_handshake(0), 0).is_empty());
    assert!(compute_durations_s2n(&one_handshake(0), 7).is_empty());
}

#[test]
fn s2n_numbers_the_handshakes() {
    let mut all = one_handshake(0);
    all.extend(one_handshake(10_000));
    all.extend(one_handshake(20_000));
    let records = compute_durations_s2n(&all, 3);
    let single = compute_durations_s2n(&one_handshake(5), 1);
    assert_eq!(records.len(), 12);
    for (i, r) in records.iter().enumerate() {
        assert_eq!(r.iteration, i as u64 / 4);
        assert_eq!(r.message_name, single[i % 4].message_name);
        assert_eq!(r.role, single[i % 4].role);
        assert_eq!(r.duration_ns, single[i % 4].duration_ns);
    }
}

#[test]
fn s2n_checkpoints_that_do_not_divide_evenly() {
    let all: Vec<RawCheckpoint> =
        (0..7).map(|i| at("CLIENT_HELLO", false, i * i)).collect();
    // Two iterations of 7 checkpoints: batches of 3, 3 and 1.
    assert_eq!(
        brief(&compute_durations_s2n(&all, 2)),
        vec![
            (0, "CLIENT_HELLO", "client", 1),
            (0, "CLIENT_HELLO", "client", 3),
            (1, "CLIENT_HELLO", "client", 7),
            (1, "CLIENT_HELLO", "client", 9),
        ]
    );
    // Three iterations: batches of 2, 2, 2 and 1.
    assert_eq!(compute_durations_s2n(&all, 3).len(), 3);
}

#[test]
fn s2n_sorts_by_time_and_keeps_ties() {
    let all = vec![
        at("D", false, 30),
        at("B", false, 10),
        at("A", true, 5),
        at("C", true, 10),
    ];
    assert_eq!(
        brief(&compute_durations_s2n(&all, 1)),
        vec![(0, "B", "client", 5), (0, "C", "server", 0), (0, "D", "client", 20)]
    );
}

#[test]
fn first_checkpoint_is_never_measured() {
    let all = vec![at("CLIENT_HELLO", false, 3), at("SERVER_HELLO", true, 8)];
    assert_eq!(brief(&compute_durations_s2n(&all, 1)), vec![(0, "SERVER_HELLO", "server", 5)]);
}

#[test]
fn durations_do_not_depend_on_the_epoch() {
    let near = compute_durations_s2n(&one_handshake(0), 1);
    let far = compute_durations_s2n(&one_handshake(u64::MAX - 1_000), 1);
    assert_eq!(brief(&near), brief(&far));
}

#[test]
fn durations_and_anchors_fill_the_span() {
    // 230 ns in all, of which 10 lead to the server's anchor.
    let total: u64 =
        compute_durations_s2n(&one_handshake(77), 1).iter().map(|r| r.duration_ns).sum();
    assert_eq!(total, 220);
}

#[test]
fn rustls_sides_are_processed_apart() {
    let clients = vec![
        vec![at("NEGOTIATE_START", false, 0), at("SERVER_HELLO", false, 100)],
        vec![at("NEGOTIATE_START", false, 0), at("SERVER_HELLO", false, 90)],
    ];
    let servers = vec![
        vec![
            at("NEGOTIATE_START", true, 0),
            at("CLIENT_FINISHED", true, 70),
            at("CLIENT_HELLO", true, 50),
        ],
        vec![],
    ];
    let records = compute_durations_rustls(&clients, &servers);
    assert_eq!(
        brief(&records),
        vec![
            (0, "SERVER_HELLO", "client", 100),
            (1, "SERVER_HELLO", "client", 90),
            (0, "CLIENT_HELLO", "server", 50),
            (0, "CLIENT_FINISHED", "server", 20),
        ]
    );
    for r in &records {
        assert_eq!(r.implementation, "rustls");
        assert_eq!(r.handshake_type, "tls13_full");
    }
    let alone = compute_durations_rustls(&clients, &[]);
    assert_eq!(brief(&alone), brief(&records)[..2].to_vec());
    assert!(compute_durations_rustls(&[], &[]).is_empty());
}

#[test]
fn durations_do_not_depend_on_arrival() {
    let mut arrived = one_handshake(10);
    arrived.extend(one_handshake(10_000));
    let mut rearranged = one_handshake(10);
    rearranged.reverse();
    let mut second = one_handshake(10_000);
    second.swap(0, 4);
    rearranged.extend(second);
    assert_eq!(
        brief(&compute_durations_s2n(&arrived, 2)),
        brief(&compute_durations_s2n(&rearranged, 2))
    );
    let clients = vec![one_handshake(0), one_handshake(5)];
    let servers = vec![one_handshake(100)];
    let mut clients_rearranged = vec![one_handshake(3), one_handshake(900)];
    clients_rearranged[1].reverse();
    let mut servers_rearranged = vec![one_handshake(0)];
    servers_rearranged[0].reverse();
    assert_eq!(
        brief(&compute_durations_rustls(&clients, &servers)),
        brief(&compute_durations_rustls(&clients_rearranged, &servers_rearranged))
    );
}

#[test]
fn whole_buffer_does_not_depend_on_the_epoch() {
    let buffer = |epoch: u64| {
        let mut all = one_handshake(epoch);
        all.extend(one_handshake(epoch + 5_000));
        all
    };
    assert_eq!(
        brief(&compute_durations_s2n(&buffer(0), 2)),
        brief(&compute_durations_s2n(&buffer(1 << 60), 2))
    );
}

#[test]
fn joined_buffers_are_measured_like_each_alone() {
    let mut first = one_handshake(0);
    first.extend(one_handshake(1_000));
    // The second buffer ends in two checkpoints that are left over.
    let mut second = one_handshake(2_000);
    second.extend(one_handshake(3_000));
    second.extend(one_handshake(4_000));
    second.push(at("A", true, 9_000));
    second.push(at("B", true, 9_005));
    let mut joined = first.clone();
    joined.extend(second.iter().cloned());
    let of_first = compute_durations_s2n(&first, 2);
    let of_second = compute_durations_s2n(&second, 3);
    let of_both = compute_durations_s2n(&joined, 5);
    let mut expected = brief(&of_first);
    expected.extend(brief(&of_second).into_iter().map(|(i, m, r, d)| (i + 2, m, r, d)));
    assert_eq!(brief(&of_both), expected);
    assert_eq!(expected.last(), Some(&(5, "B", "server", 5)));
}

#[test]
fn each_handshake_may_have_a_clock_of_its_own() {
    // Batches of 6, 6 and 1.
    let buffer = |epochs: [u64; 3]| {
        let mut all = one_handshake(epochs[0]);
        all.extend(one_handshake(epochs[1]));
        all.push(at("CLIENT_HELLO", true, epochs[2]));
        all
    };
    let near = compute_durations_s2n(&buffer([0, 1_000, 2_000]), 2);
    let far = compute_durations_s2n(&buffer([1 << 50, 5, 70]), 2);
    assert_eq!(near.len(), 8);
    assert_eq!(brief(&near), brief(&far));
}

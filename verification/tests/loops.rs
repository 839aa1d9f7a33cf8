use std::time::{Duration, Instant};

use tls_handshake_benchmarking::certs::generate_certs;
use tls_handshake_benchmarking::hotloop::{
    next_step, run_for, run_hotloop, workload_for, HotLoopError, LoopStep, WorkloadError,
    BATCH_HANDSHAKES, WARMUP_HANDSHAKES,
};
use tls_handshake_benchmarking::keys::KeyLog;
use tls_handshake_benchmarking::microbench::{
    check_rsa, public_key, run_microbench, sign_times, signing_key, verify_times, MicrobenchError,
    SigningKeyError, MESSAGE, TIMED_SIGNATURES, WARMUP_SIGNATURES,
};
use tls_handshake_benchmarking::signing::OperationLog;
use tls_handshake_benchmarking::workload::{read_clock, FailedHandshake, Journal, Workload};

#[test]
fn sizes_of_the_loops() {
    assert_eq!((WARMUP_HANDSHAKES, BATCH_HANDSHAKES), (200, 50));
    assert_eq!((WARMUP_SIGNATURES, TIMED_SIGNATURES), (200, 5000));
    assert_eq!(MESSAGE.as_bytes(), b"handshake transcript hash stand-in (32 bytes!!)");
}

#[test]
fn steps_of_the_hot_loop() {
    assert_eq!(next_step(0, false), LoopStep::Stop);
    assert_eq!(next_step(u64::MAX, false), LoopStep::Stop);
    assert_eq!(next_step(0, true), LoopStep::Batch(50));
    assert_eq!(next_step(150, true), LoopStep::Batch(200));
    assert_eq!(next_step(u64::MAX - 50, true), LoopStep::Batch(u64::MAX));
    assert_eq!(next_step(u64::MAX - 49, true), LoopStep::Overflow);
}

#[test]
fn hot_loop_without_time_counts_nothing() {
    for implementation in ["s2n-tls", "rustls"] {
        let before = Instant::now();
        let run = run_hotloop(implementation, "ecdsa256", 0, &mut Journal::new())
            .unwrap_or_else(|e| panic!("{e:?}"));
        assert_eq!(run.handshakes, 0);
        assert!(run.start >= before && run.start <= Instant::now());
    }
}

#[test]
fn hot_loop_runs_for_its_time() {
    for implementation in ["s2n-tls", "rustls"] {
        let run = run_hotloop(implementation, "ecdsa256", 1, &mut Journal::new())
            .unwrap_or_else(|e| panic!("{e:?}"));
        assert!(run.start.elapsed() >= Duration::from_secs(1));
        assert_eq!(run.handshakes % 50, 0);
        assert!(run.handshakes >= 50);
    }
}

#[test]
fn warm_up_is_not_timed() {
    let certs = generate_certs("ecdsa256", &mut KeyLog::new()).unwrap();
    let workload = workload_for("rustls", &certs).unwrap_or_else(|e| panic!("{e:?}"));
    let mut journal = Journal::new();
    let before = read_clock(&mut journal);
    let run = run_for(&workload, 0, &mut journal).unwrap_or_else(|e| panic!("{e:?}"));
    // 200 handshakes take far longer than reading the clock.
    assert!(run.start.duration_since(before) > run.start.elapsed());
}

#[test]
fn hot_loop_errors() {
    match run_hotloop("openssl", "ecdsa256", 1, &mut Journal::new()) {
        Err(HotLoopError::Workload(WorkloadError::Unknown(message))) => {
            assert_eq!(message, "Unknown implementation: openssl. Use: s2n-tls|rustls")
        }
        Err(e) => panic!("{e:?}"),
        Ok(_) => panic!("there is no such implementation"),
    }
    assert!(matches!(
        run_hotloop("rustls", "ecdsa256", u64::MAX, &mut Journal::new()),
        Err(HotLoopError::Deadline)
    ));
}

#[test]
fn workloads_by_name() {
    let certs = generate_certs("ecdsa256", &mut KeyLog::new()).unwrap();
    assert!(matches!(workload_for("s2n-tls", &certs), Ok(Workload::S2nTls(_, _))));
    assert!(matches!(workload_for("rustls", &certs), Ok(Workload::Rustls(_, _))));
    assert!(matches!(workload_for("", &certs), Err(WorkloadError::Unknown(_))));
    let mut broken = generate_certs("ecdsa256", &mut KeyLog::new()).unwrap();
    broken.server_key_der.clear();
    assert!(matches!(workload_for("rustls", &broken), Err(WorkloadError::Rustls(_))));
    broken.key_pem.clear();
    assert!(matches!(workload_for("s2n-tls", &broken), Err(WorkloadError::S2nTls(_))));
}

#[test]
fn failing_handshakes_end_a_loop() {
    let one = generate_certs("ecdsa256", &mut KeyLog::new()).unwrap();
    let other = generate_certs("ecdsa256", &mut KeyLog::new()).unwrap();
    let mixed = |implementation: &str| {
        match (workload_for(implementation, &one), workload_for(implementation, &other)) {
            (Ok(Workload::S2nTls(client, _)), Ok(Workload::S2nTls(_, server))) => {
                Workload::S2nTls(client, server)
            }
            (Ok(Workload::Rustls(client, _)), Ok(Workload::Rustls(_, server))) => {
                Workload::Rustls(client, server)
            }
            _ => panic!("no workload"),
        }
    };
    let s2n = mixed("s2n-tls");
    assert!(s2n.repeat(0, &mut Journal::new()).is_ok());
    assert!(matches!(s2n.repeat(3, &mut Journal::new()), Err(FailedHandshake::S2nTls(_))));
    let rustls = mixed("rustls");
    assert!(matches!(rustls.handshake(&mut Journal::new()), Err(FailedHandshake::Rustls(_))));
    assert!(matches!(
        run_for(&rustls, 1, &mut Journal::new()),
        Err(HotLoopError::Handshake(FailedHandshake::Rustls(_)))
    ));
}

#[test]
fn only_rsa_is_anchored() {
    assert_eq!(check_rsa("rsa2048"), Ok(()));
    assert_eq!(check_rsa("rsa"), Ok(()));
    for other in ["ecdsa256", "rs", "", "xrsa2048", "RSA2048"] {
        let message = format!(
            "microbench currently anchors RSA sign/verify only; got '{other}'. \
             Use rsa2048|rsa3072|rsa4096."
        );
        assert_eq!(check_rsa(other), Err(message.clone()));
        match signing_key(other) {
            Err(SigningKeyError::NotRsa(said)) => assert_eq!(said, message),
            _ => panic!("{other} has no RSA key"),
        }
    }
}

#[test]
fn signatures_are_accepted() {
    let key = signing_key("rsa2048").unwrap();
    let signature = sign_times(&key, 3, &mut OperationLog::new()).unwrap();
    assert_eq!(signature.len(), 256);
    assert_eq!(signature, sign_times(&key, 1, &mut OperationLog::new()).unwrap());
    let public = public_key(&key);
    assert!(verify_times(&public, &signature, 2, &mut OperationLog::new()).is_ok());
    let mut wrong = signature.clone();
    wrong[17] ^= 1;
    assert!(verify_times(&public, &wrong, 2, &mut OperationLog::new()).is_err());
    assert!(verify_times(&public, &wrong, 0, &mut OperationLog::new()).is_ok());
    assert!(verify_times(&public, &[], 1, &mut OperationLog::new()).is_err());
    assert!(verify_times(&[], &signature, 1, &mut OperationLog::new()).is_err());
    assert_eq!(sign_times(&key, 0, &mut OperationLog::new()).unwrap(), vec![0u8; 256]);
}

#[test]
fn signatures_depend_on_the_key() {
    let key = signing_key("rsa2048").unwrap();
    let other = signing_key("rsa2048").unwrap();
    let signature = sign_times(&key, 1, &mut OperationLog::new()).unwrap();
    assert_ne!(signature, sign_times(&other, 1, &mut OperationLog::new()).unwrap());
    assert!(verify_times(&public_key(&other), &signature, 1, &mut OperationLog::new()).is_err());
    // What is signed is the message, as the primitive itself sees it.
    let verifier = aws_lc_rs::signature::UnparsedPublicKey::new(
        &aws_lc_rs::signature::RSA_PKCS1_2048_8192_SHA256,
        public_key(&key),
    );
    assert!(verifier.verify(MESSAGE.as_bytes(), &signature).is_ok());
    assert!(verifier.verify(b"another message", &signature).is_err());
}

#[test]
fn microbench_reads_the_clock_around_what_is_timed() {
    let before = Instant::now();
    let run = run_microbench("rsa2048", &mut OperationLog::new())
        .unwrap_or_else(|e| panic!("{e:?}"));
    assert!(before <= run.sign_start);
    assert!(run.sign_start < run.sign_end);
    assert!(run.sign_end < run.check_start);
    assert!(run.check_start < run.check_end);
    assert!(run.check_end <= Instant::now());
    // Making an RSA signature takes longer than checking it.
    assert!(run.sign_end - run.sign_start > run.check_end - run.check_start);
}

#[test]
fn microbench_refuses_other_keys() {
    match run_microbench("ecdsa256", &mut OperationLog::new()) {
        Err(MicrobenchError::Key(SigningKeyError::NotRsa(message))) => assert_eq!(
            message,
            "microbench currently anchors RSA sign/verify only; got 'ecdsa256'. \
             Use rsa2048|rsa3072|rsa4096."
        ),
        _ => panic!("there is no RSA key"),
    }
}

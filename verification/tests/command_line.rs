use tls_handshake_benchmarking::cli::{
    check_cert_type, hotloop_args, parse_args, Command, Implementation,
};
use tls_handshake_benchmarking::text::{chars_of, decimal, parse_u64, place_of, same_text, Place};

fn parse(args: &[&str]) -> Command {
    let all: Vec<String> = args.iter().map(|a| a.to_string()).collect();
    parse_args(&all)
}

fn shown(args: &[&str]) -> String {
    format!("{:?}", parse(args))
}

#[test]
fn measuring_is_the_default() {
    assert_eq!(
        shown(&["bench"]),
        "Measure { cert_type: \"rsa2048\", output_path: \"results.json\" }"
    );
    assert_eq!(
        shown(&["bench", "ecdsa256", "out.json", "more"]),
        "Measure { cert_type: \"ecdsa256\", output_path: \"out.json\" }"
    );
    assert_eq!(shown(&[]), "Measure { cert_type: \"rsa2048\", output_path: \"results.json\" }");
}

#[test]
fn hotloop_operands_and_defaults() {
    assert_eq!(
        shown(&["bench", "--hotloop"]),
        "HotLoop { implementation: \"s2n-tls\", cert_type: \"rsa2048\", secs: 20 }"
    );
    assert_eq!(
        shown(&["bench", "--hotloop", "rustls", "ecdsa384", "5"]),
        "HotLoop { implementation: \"rustls\", cert_type: \"ecdsa384\", secs: 5 }"
    );
    for bad in ["-1", "1.5", "", "18446744073709551616", "five"] {
        assert_eq!(
            shown(&["bench", "--hotloop", "rustls", "ecdsa384", bad]),
            "HotLoop { implementation: \"rustls\", cert_type: \"ecdsa384\", secs: 20 }"
        );
    }
}

#[test]
fn flags_are_found_anywhere_in_order_of_precedence() {
    assert_eq!(shown(&["bench", "x", "--microbench", "rsa4096"]), "Microbench { cert_type: \"rsa4096\" }");
    assert_eq!(shown(&["bench", "--microbench"]), "Microbench { cert_type: \"rsa2048\" }");
    assert_eq!(shown(&["bench", "--compare", "rsa3072"]), "Compare { cert_type: \"rsa3072\" }");
    assert_eq!(shown(&["bench", "--compare"]), "Compare { cert_type: \"rsa2048\" }");
    assert_eq!(
        shown(&["bench", "--compare", "--microbench"]),
        "Microbench { cert_type: \"rsa2048\" }"
    );
    assert_eq!(
        shown(&["bench", "--flamegraph", "--compare", "--microbench", "--hotloop"]),
        "HotLoop { implementation: \"s2n-tls\", cert_type: \"rsa2048\", secs: 20 }"
    );
    assert_eq!(
        shown(&["bench", "--flamegraph", "--compare"]),
        "Compare { cert_type: \"rsa2048\" }"
    );
}

#[test]
fn flamegraph_takes_both_spellings() {
    let expected = "Flamegraph { implementation: \"rustls\", cert_type: \"rsa3072\" }";
    assert_eq!(shown(&["bench", "--flamegraph", "--impl", "rustls", "rsa3072"]), expected);
    assert_eq!(shown(&["bench", "--flamegraph", "rustls", "rsa3072"]), expected);
    assert_eq!(shown(&["bench", "--flamegraph", "rustls", "--impl", "rsa3072"]), expected);
    assert_eq!(
        shown(&["bench", "--flamegraph"]),
        "Flamegraph { implementation: \"s2n-tls\", cert_type: \"rsa2048\" }"
    );
}

#[test]
fn hotloop_call_is_read_back() {
    for secs in [0, 20, u64::MAX] {
        let mut args = vec!["bench".to_string()];
        args.extend(hotloop_args("--impl", "--compare", secs));
        match parse_args(&args) {
            Command::HotLoop { implementation, cert_type, secs: read } => {
                assert_eq!(implementation, "--impl");
                assert_eq!(cert_type, "--compare");
                assert_eq!(read, secs);
            }
            other => panic!("{other:?}"),
        }
    }
}

#[test]
fn cert_types_are_checked() {
    for t in ["rsa2048", "rsa3072", "rsa4096", "ecdsa256", "ecdsa384"] {
        assert_eq!(check_cert_type(t), Ok(()));
    }
    assert_eq!(
        check_cert_type("ed25519"),
        Err("Unknown: ed25519. Use: rsa2048|rsa3072|rsa4096|ecdsa256|ecdsa384".to_string())
    );
    assert!(check_cert_type("RSA2048").is_err());
    assert!(check_cert_type("").is_err());
}

#[test]
fn implementations_by_name() {
    assert_eq!(Implementation::from_name("s2n-tls"), Ok(Implementation::S2nTls));
    assert_eq!(Implementation::from_name("rustls"), Ok(Implementation::Rustls));
    assert_eq!(
        Implementation::from_name("openssl"),
        Err("Unknown implementation: openssl. Use: s2n-tls|rustls".to_string())
    );
    assert_eq!(Implementation::S2nTls.name(), "s2n-tls");
    assert_eq!(Implementation::Rustls.name(), "rustls");
}

#[test]
fn numerals_are_read_as_std_reads_them() {
    for s in [
        "0", "7", "+7", "007", "-7", "+", "-", "", " 7", "7 ", "++7", "1_000", "18446744073709551615",
        "18446744073709551616", "99999999999999999999999", "\u{0667}", "0x10", "1e3",
    ] {
        assert_eq!(parse_u64(s), s.parse::<u64>().ok(), "{s:?}");
    }
    for n in [0, 9, 10, 999, 1_000, u64::MAX] {
        assert_eq!(decimal(n), n.to_string());
        assert_eq!(parse_u64(&decimal(n)), Some(n));
    }
}

#[test]
fn texts_are_compared_as_std_compares_them() {
    let all = ["", "a", "ab", "b", "B", "\u{e9}", "\u{ffff}", "\u{10000}"];
    for a in all {
        assert_eq!(chars_of(a), a.chars().collect::<Vec<char>>());
        for b in all {
            assert_eq!(same_text(a, b), a == b);
            let place = if a < b {
                Place::Before
            } else if a > b {
                Place::After
            } else {
                Place::Same
            };
            assert_eq!(place_of(a, b), place);
        }
    }
}

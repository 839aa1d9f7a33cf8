use tls_handshake_benchmarking::checkpoint::RawCheckpoint;
use tls_handshake_benchmarking::cpuinfo::{cpu_model, is_white_space};
use tls_handshake_benchmarking::measure::{
    collect_measurements, Metadata, MEASUREMENT_ITERATIONS, WARMUP_ITERATIONS,
};
use tls_handshake_benchmarking::units::DurationUnit;

fn expected_model(text: Option<&str>) -> String {
    text.and_then(|s| {
        s.lines()
            .find(|l| l.starts_with("model name"))
            .map(|l| l.split(':').nth(1).unwrap_or("").trim().to_string())
    })
    .unwrap_or_else(|| "unknown".to_string())
}

#[test]
fn model_of_a_processor() {
    let text = "processor\t: 0\nvendor_id\t: X\nmodel name\t:  Some CPU @ 3.10GHz \nmodel name\t: Other\n";
    assert_eq!(cpu_model(Some(text)), "Some CPU @ 3.10GHz");
    assert_eq!(cpu_model(None), "unknown");
    assert_eq!(cpu_model(Some("")), "unknown");
}

#[test]
fn odd_processor_texts() {
    for text in [
        "\n\n",
        "model name",
        "model name:",
        "model name: a: b",
        "x\nmodel name\r\nmodel name: y",
        "model name: y\r\nz",
        "Model name: y",
        " model name: y",
        "model names: y",
        "a\nmodel name:\u{3000}y\u{2003}\u{85}",
        "model nam\nmodel name: z",
    ] {
        assert_eq!(cpu_model(Some(text)), expected_model(Some(text)), "{text:?}");
    }
}

#[test]
fn white_space_is_that_of_unicode() {
    for v in 0..=0x10ffffu32 {
        if let Some(c) = char::from_u32(v) {
            assert_eq!(is_white_space(c), c.is_whitespace(), "{v:#x}");
        }
    }
}

fn fmt(ns: u64) -> String {
    let unit = DurationUnit::for_duration(ns);
    format!("{:.*} {}", unit.decimals(), ns as f64 / unit.nanoseconds() as f64, unit.symbol())
}

#[test]
fn units_of_durations() {
    assert_eq!(fmt(0), "0 ns");
    assert_eq!(fmt(999), "999 ns");
    assert_eq!(fmt(1_000), "1.000 us");
    assert_eq!(fmt(295_250), "295.250 us");
    assert_eq!(fmt(999_999), "999.999 us");
    assert_eq!(fmt(1_000_000), "1.000 ms");
    assert_eq!(fmt(12_345_678), "12.346 ms");
}

#[test]
fn description_of_a_run() {
    assert_eq!((WARMUP_ITERATIONS, MEASUREMENT_ITERATIONS), (200, 1000));
    let m = Metadata::of_run("Some CPU".to_string(), "rsa3072");
    assert_eq!(m.cpu_model, "Some CPU");
    assert_eq!(m.warmup_iterations, 200);
    assert_eq!(m.measurement_iterations, 1000);
    assert_eq!(m.cert_type, "rsa3072");
}

#[test]
fn measurements_of_both_implementations() {
    let mut s2n = Vec::new();
    for i in 0..1000u64 {
        s2n.push(RawCheckpoint::new("NEGOTIATE_START", false, i * 100));
        s2n.push(RawCheckpoint::new("CLIENT_HELLO", true, i * 100 + i));
    }
    let clients = vec![vec![
        RawCheckpoint::new("NEGOTIATE_START", false, 0),
        RawCheckpoint::new("SERVER_HELLO", false, 12),
    ]];
    let all = collect_measurements(&s2n, &clients, &[]);
    assert_eq!(all.len(), 1001);
    for (i, r) in all[..1000].iter().enumerate() {
        assert_eq!(r.implementation, "s2n-tls");
        assert_eq!(r.iteration, i as u64);
        assert_eq!(r.duration_ns, i as u64);
    }
    assert_eq!(all[1000].implementation, "rustls");
    assert_eq!(all[1000].iteration, 0);
    assert_eq!(all[1000].duration_ns, 12);
}

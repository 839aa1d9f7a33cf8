use tls_handshake_benchmarking::compare::{
    analysis_args, chart_path, script_path, CompareStep, ProfileResult,
};
use tls_handshake_benchmarking::profile::{
    first_missing, flamegraph_args, mean_file, missing_tool_message, perf_record_args, perf_script_args,
    ProfileStep, RunFiles, PERF_TOOLS, PROFILE_SECS,
};

#[test]
fn tools_and_their_absence() {
    assert_eq!(PERF_TOOLS, ["perf", "stackcollapse-perf.pl", "flamegraph.pl"]);
    assert_eq!(PROFILE_SECS, 20);
    assert_eq!(
        missing_tool_message("perf"),
        "ERROR: required tool 'perf' not found on PATH.\n\
         Install perf, and clone https://github.com/brendangregg/FlameGraph\n\
         then add it to PATH (provides stackcollapse-perf.pl and flamegraph.pl)."
    );
}

#[test]
fn first_missing_tool() {
    assert_eq!(first_missing(&[true, true, true]), None);
    assert_eq!(first_missing(&[true, false, false]), Some(1));
    assert_eq!(first_missing(&[false]), Some(0));
    assert_eq!(first_missing(&[]), None);
}

#[test]
fn files_of_a_run() {
    let s2n = RunFiles::new("s2n-tls", "rsa2048");
    assert_eq!(s2n.perf_data, "perf_s2n-tls_rsa2048.data");
    assert_eq!(s2n.svg, "flamegraph_s2n-tls_rsa2048.svg");
    assert_eq!(s2n.folded, "folded_s2n-tls_rsa2048.txt");
    assert_eq!(s2n.mean, "hotloop_mean_s2n-tls_rsa2048.txt");
    assert_eq!(mean_file("s2n-tls", "rsa2048"), s2n.mean);
    let names = [&s2n.perf_data, &s2n.svg, &s2n.folded, &s2n.mean];
    for i in 0..4 {
        for j in 0..i {
            assert_ne!(names[i], names[j]);
        }
    }
    let rustls = RunFiles::new("rustls", "rsa2048");
    assert_ne!(s2n.perf_data, rustls.perf_data);
    assert_ne!(s2n.svg, rustls.svg);
    assert_ne!(s2n.folded, rustls.folded);
    assert_ne!(s2n.mean, rustls.mean);
}

#[test]
fn arguments_of_the_tools() {
    assert_eq!(
        perf_record_args("p.data"),
        ["record", "-F", "999", "-g", "--call-graph", "fp", "-o", "p.data", "--"]
    );
    assert_eq!(perf_script_args("p.data"), ["script", "-i", "p.data"]);
    assert_eq!(
        flamegraph_args("rustls", "ecdsa256", "f.txt"),
        ["--title", "rustls ecdsa256 handshake", "f.txt"]
    );
}

#[test]
fn steps_of_a_profile() {
    assert_eq!(ProfileStep::Record.after(true), Ok(ProfileStep::Fold));
    assert_eq!(ProfileStep::Fold.after(true), Ok(ProfileStep::Render));
    assert_eq!(ProfileStep::Render.after(true), Ok(ProfileStep::ReadMean));
    assert_eq!(ProfileStep::ReadMean.after(false), Ok(ProfileStep::ReadMean));
    assert_eq!(
        ProfileStep::Record.after(false),
        Err("ERROR: perf record failed. Is kernel.perf_event_paranoid <= 1?")
    );
    assert_eq!(ProfileStep::Fold.after(false), Err("ERROR: stackcollapse-perf.pl failed."));
    assert_eq!(ProfileStep::Render.after(false), Err("ERROR: flamegraph.pl failed."));
    assert_eq!(
        ProfileStep::Record.announcement("rustls", "rsa2048", 20),
        Some("Recording rustls (rsa2048) under perf for ~20s...".to_string())
    );
    assert_eq!(
        ProfileStep::Fold.announcement("rustls", "rsa2048", 20),
        Some("Folding stacks -> folded_rustls_rsa2048.txt ...".to_string())
    );
    assert_eq!(
        ProfileStep::Render.announcement("rustls", "rsa2048", 20),
        Some("Rendering flamegraph_rustls_rsa2048.svg ...".to_string())
    );
    assert_eq!(ProfileStep::ReadMean.announcement("rustls", "rsa2048", 20), None);
}

#[test]
fn steps_of_a_comparison() {
    let mut step = CompareStep::FindScript;
    let mut seen = vec![step];
    while let Some(next) = step.next() {
        step = next;
        seen.push(step);
    }
    assert_eq!(
        seen,
        vec![
            CompareStep::FindScript,
            CompareStep::FindPython,
            CompareStep::ProfileS2n,
            CompareStep::ProfileRustls,
            CompareStep::CheckMeans,
            CompareStep::Analyze,
        ]
    );
}

#[test]
fn failures_of_a_comparison() {
    let said = |step: CompareStep| step.failure("/repo/analyze_fg.py");
    assert_eq!(
        said(CompareStep::FindScript),
        Some("ERROR: analyze_fg.py not found at /repo/analyze_fg.py".to_string())
    );
    assert_eq!(
        said(CompareStep::FindPython),
        Some("ERROR: python3 not found on PATH (needed for analyze_fg.py).".to_string())
    );
    assert_eq!(said(CompareStep::ProfileS2n), None);
    assert_eq!(said(CompareStep::ProfileRustls), None);
    assert_eq!(
        said(CompareStep::CheckMeans),
        Some("ERROR: could not read hot-loop mean(s); aborting analysis.".to_string())
    );
    assert_eq!(said(CompareStep::Analyze), Some("ERROR: analyze_fg.py failed.".to_string()));
}

#[test]
fn analysis_call() {
    assert_eq!(script_path("/repo"), "/repo/analyze_fg.py");
    assert_eq!(chart_path("rsa2048"), "charts/rsa2048/operation_comparison_rsa2048.png");
    let s2n = ProfileResult { folded: "a.txt".to_string(), mean_us: "812.250".to_string() };
    let rustls = ProfileResult { folded: "b.txt".to_string(), mean_us: "790.000".to_string() };
    assert_eq!(
        analysis_args("/repo/analyze_fg.py", &s2n, &rustls, "rsa2048", "c.png"),
        [
            "/repo/analyze_fg.py",
            "--s2n",
            "a.txt",
            "--s2n-mean",
            "812.250",
            "--rustls",
            "b.txt",
            "--rustls-mean",
            "790.000",
            "--cert-type",
            "rsa2048",
            "--chart",
            "c.png",
        ]
    );
}

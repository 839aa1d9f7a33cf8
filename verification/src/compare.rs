//! Comparing the two implementations operation by operation: the steps and what
//! the analysis script is called with.

use crate::cli::text_views;
use vstd::prelude::*;

verus! {

/// The steps of a comparison.
#[derive(Clone, Copy, Debug, PartialEq, Eq, Structural)]
pub enum CompareStep {
    /// Look for the analysis script.
    FindScript,
    /// Look for the script's interpreter.
    FindPython,
    /// Profile s2n-tls.
    ProfileS2n,
    /// Profile rustls.
    ProfileRustls,
    /// See that both mean handshake times are known.
    CheckMeans,
    /// Run the analysis script.
    Analyze,
}

impl CompareStep {
    /// The step that follows one that succeeded; there is none behind the last.
    pub open spec fn spec_next(self) -> Option<CompareStep> {
        match self {
            CompareStep::FindScript => Some(CompareStep::FindPython),
            CompareStep::FindPython => Some(CompareStep::ProfileS2n),
            CompareStep::ProfileS2n => Some(CompareStep::ProfileRustls),
            CompareStep::ProfileRustls => Some(CompareStep::CheckMeans),
            CompareStep::CheckMeans => Some(CompareStep::Analyze),
            CompareStep::Analyze => None,
        }
    }

    /// The step that follows one that succeeded.
    pub fn next(self) -> (r: Option<CompareStep>)
        ensures
            r == self.spec_next(),
            match self {
                CompareStep::FindScript => r matches Some(step) && step is FindPython,
                CompareStep::FindPython => r matches Some(step) && step is ProfileS2n,
                CompareStep::ProfileS2n => r matches Some(step) && step is ProfileRustls,
                CompareStep::ProfileRustls => r matches Some(step) && step is CheckMeans,
                CompareStep::CheckMeans => r matches Some(step) && step is Analyze,
                CompareStep::Analyze => r is None,
            },
    {
        match self {
            CompareStep::FindScript => Some(CompareStep::FindPython),
            CompareStep::FindPython => Some(CompareStep::ProfileS2n),
            CompareStep::ProfileS2n => Some(CompareStep::ProfileRustls),
            CompareStep::ProfileRustls => Some(CompareStep::CheckMeans),
            CompareStep::CheckMeans => Some(CompareStep::Analyze),
            CompareStep::Analyze => None,
        }
    }

    /// What is said of a step that failed. A profiling run reports its own failures.
    pub open spec fn spec_failure(self, script: Seq<char>) -> Option<Seq<char>> {
        match self {
            CompareStep::FindScript => Some("ERROR: analyze_fg.py not found at "@ + script),
            CompareStep::FindPython => Some(
                "ERROR: python3 not found on PATH (needed for analyze_fg.py)."@,
            ),
            CompareStep::ProfileS2n => None,
            CompareStep::ProfileRustls => None,
            CompareStep::CheckMeans => Some(
                "ERROR: could not read hot-loop mean(s); aborting analysis."@,
            ),
            CompareStep::Analyze => Some("ERROR: analyze_fg.py failed."@),
        }
    }

    /// What is said of a step that failed.
    pub fn failure(self, script: &str) -> (r: Option<String>)
        ensures
            match (r, self.spec_failure(script@)) {
                (Some(text), Some(expected)) => text@ == expected,
                (None, None) => true,
                _ => false,
            },
            r is None <==> self is ProfileS2n || self is ProfileRustls,
            r matches Some(text) ==> match self {
                CompareStep::FindScript => text@ == "ERROR: analyze_fg.py not found at "@
                    + script@,
                CompareStep::FindPython => text@
                    == "ERROR: python3 not found on PATH (needed for analyze_fg.py)."@,
                CompareStep::CheckMeans => text@
                    == "ERROR: could not read hot-loop mean(s); aborting analysis."@,
                _ => text@ == "ERROR: analyze_fg.py failed."@,
            },
    {
        match self {
            CompareStep::FindScript => {
                let mut text: String = "ERROR: analyze_fg.py not found at ".to_owned();
                text.append(script);
                Some(text)
            },
            CompareStep::FindPython => Some(
                "ERROR: python3 not found on PATH (needed for analyze_fg.py).".to_owned(),
            ),
            CompareStep::ProfileS2n => None,
            CompareStep::ProfileRustls => None,
            CompareStep::CheckMeans => Some(
                "ERROR: could not read hot-loop mean(s); aborting analysis.".to_owned(),
            ),
            CompareStep::Analyze => Some("ERROR: analyze_fg.py failed.".to_owned()),
        }
    }
}

/// The path of the analysis script in the directory `dir`.
pub fn script_path(dir: &str) -> (r: String)
    ensures
        r@ == dir@ + "/analyze_fg.py"@,
{
    let mut path: String = dir.to_owned();
    path.append("/analyze_fg.py");
    path
}

/// The path of the chart for a certificate type.
pub open spec fn chart_path_of(cert_type: Seq<char>) -> Seq<char> {
    "charts/"@ + cert_type + "/operation_comparison_"@ + cert_type + ".png"@
}

/// The path of the chart for a certificate type.
pub fn chart_path(cert_type: &str) -> (r: String)
    ensures
        r@ == chart_path_of(cert_type@),
        r@ == "charts/"@ + cert_type@ + "/operation_comparison_"@ + cert_type@ + ".png"@,
{
    let mut path: String = "charts/".to_owned();
    path.append(cert_type);
    path.append("/operation_comparison_");
    path.append(cert_type);
    path.append(".png");
    path
}

/// What one profiling run hands to the analysis: the folded stacks and the mean
/// handshake time in microseconds, as text.
#[derive(Debug)]
pub struct ProfileResult {
    pub folded: String,
    pub mean_us: String,
}

/// The arguments of `python3` that run the analysis script.
pub fn analysis_args(
    script: &str,
    s2n: &ProfileResult,
    rustls: &ProfileResult,
    cert_type: &str,
    chart: &str,
) -> (r: Vec<String>)
    ensures
        text_views(r@) == seq![
            script@,
            "--s2n"@,
            s2n.folded@,
            "--s2n-mean"@,
            s2n.mean_us@,
            "--rustls"@,
            rustls.folded@,
            "--rustls-mean"@,
            rustls.mean_us@,
            "--cert-type"@,
            cert_type@,
            "--chart"@,
            chart@,
        ],
{
    let mut args: Vec<String> = Vec::new();
    args.push(script.to_owned());
    args.push("--s2n".to_owned());
    args.push(s2n.folded.clone());
    args.push("--s2n-mean".to_owned());
    args.push(s2n.mean_us.clone());
    args.push("--rustls".to_owned());
    args.push(rustls.folded.clone());
    args.push("--rustls-mean".to_owned());
    args.push(rustls.mean_us.clone());
    args.push("--cert-type".to_owned());
    args.push(cert_type.to_owned());
    args.push("--chart".to_owned());
    args.push(chart.to_owned());
    args
}

} // verus!

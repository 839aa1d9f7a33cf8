//! Profiling one implementation's hot loop: the files, the tools and the steps.

use crate::cli::text_views;
use crate::durations::{RUSTLS, S2N_TLS};
use crate::text::{decimal, decimal_of};
use vstd::prelude::*;

verus! {

/// The tools that profiling needs, in the order in which they are looked for.
pub const PERF_TOOLS: [&'static str; 3] = ["perf", "stackcollapse-perf.pl", "flamegraph.pl"];

/// How long an implementation is profiled, in seconds.
pub const PROFILE_SECS: u64 = 20;

/// The first thing in a list that was not found, from which of them were.
pub fn first_missing(found: &[bool]) -> (r: Option<usize>)
    ensures
        match r {
            Some(i) => i < found@.len() && !found@[i as int] && forall|j: int|
                0 <= j < i ==> #[trigger] found@[j],
            None => forall|j: int| 0 <= j < found@.len() ==> #[trigger] found@[j],
        },
{
    let mut i: usize = 0;
    while i < found.len()
        invariant
            i <= found@.len(),
            forall|j: int| 0 <= j < i ==> #[trigger] found@[j],
        decreases found@.len() - i,
    {
        if !found[i] {
            return Some(i);
        }
        i = i + 1;
    }
    None
}

/// What is said when a tool is missing.
pub open spec fn missing_tool(tool: Seq<char>) -> Seq<char> {
    "ERROR: required tool '"@ + tool
        + "' not found on PATH.\nInstall perf, and clone https://github.com/brendangregg/FlameGraph\nthen add it to PATH (provides stackcollapse-perf.pl and flamegraph.pl)."@
}

/// Says that a tool is missing and where it can be had.
pub fn missing_tool_message(tool: &str) -> (r: String)
    ensures
        r@ == missing_tool(tool@),
        r@ == "ERROR: required tool '"@ + tool@
            + "' not found on PATH.\nInstall perf, and clone https://github.com/brendangregg/FlameGraph\nthen add it to PATH (provides stackcollapse-perf.pl and flamegraph.pl)."@,
{
    let mut message: String = "ERROR: required tool '".to_owned();
    message.append(tool);
    message.append(
        "' not found on PATH.\nInstall perf, and clone https://github.com/brendangregg/FlameGraph\nthen add it to PATH (provides stackcollapse-perf.pl and flamegraph.pl).",
    );
    message
}

/// The name of a file that belongs to one implementation and certificate type.
pub open spec fn run_file(
    kind: Seq<char>,
    implementation: Seq<char>,
    cert_type: Seq<char>,
    extension: Seq<char>,
) -> Seq<char> {
    kind + "_"@ + implementation + "_"@ + cert_type + extension
}

fn run_file_name(kind: &str, implementation: &str, cert_type: &str, extension: &str) -> (r: String)
    ensures
        r@ == run_file(kind@, implementation@, cert_type@, extension@),
        r@ == kind@ + "_"@ + implementation@ + "_"@ + cert_type@ + extension@,
{
    let mut name: String = kind.to_owned();
    name.append("_");
    name.append(implementation);
    name.append("_");
    name.append(cert_type);
    name.append(extension);
    name
}

/// The file through which the hot loop hands on its mean handshake time.
pub open spec fn mean_file_of(implementation: Seq<char>, cert_type: Seq<char>) -> Seq<char> {
    run_file("hotloop_mean"@, implementation, cert_type, ".txt"@)
}

/// Names the file through which the hot loop hands on its mean handshake time.
pub fn mean_file(implementation: &str, cert_type: &str) -> (r: String)
    ensures
        r@ == mean_file_of(implementation@, cert_type@),
        r@ == "hotloop_mean"@ + "_"@ + implementation@ + "_"@ + cert_type@ + ".txt"@,
{
    run_file_name("hotloop_mean", implementation, cert_type, ".txt")
}

/// The files of one profiling run.
#[derive(Debug)]
pub struct RunFiles {
    /// The recorded samples.
    pub perf_data: String,
    /// The rendered flamegraph.
    pub svg: String,
    /// The folded stacks.
    pub folded: String,
    /// The hot loop's mean handshake time.
    pub mean: String,
}

impl RunFiles {
    /// The files of the run for one implementation and certificate type.
    pub open spec fn belongs_to(&self, implementation: Seq<char>, cert_type: Seq<char>) -> bool {
        &&& self.perf_data@ == run_file("perf"@, implementation, cert_type, ".data"@)
        &&& self.svg@ == run_file("flamegraph"@, implementation, cert_type, ".svg"@)
        &&& self.folded@ == run_file("folded"@, implementation, cert_type, ".txt"@)
        &&& self.mean@ == mean_file_of(implementation, cert_type)
    }

    /// Names the files of the run for one implementation and certificate type.
    pub fn new(implementation: &str, cert_type: &str) -> (r: RunFiles)
        ensures
            r.belongs_to(implementation@, cert_type@),
            r.perf_data@ == "perf"@ + "_"@ + implementation@ + "_"@ + cert_type@ + ".data"@,
            r.svg@ == "flamegraph"@ + "_"@ + implementation@ + "_"@ + cert_type@ + ".svg"@,
            r.folded@ == "folded"@ + "_"@ + implementation@ + "_"@ + cert_type@ + ".txt"@,
            r.mean@ == "hotloop_mean"@ + "_"@ + implementation@ + "_"@ + cert_type@ + ".txt"@,
    {
        RunFiles {
            perf_data: run_file_name("perf", implementation, cert_type, ".data"),
            svg: run_file_name("flamegraph", implementation, cert_type, ".svg"),
            folded: run_file_name("folded", implementation, cert_type, ".txt"),
            mean: mean_file(implementation, cert_type),
        }
    }
}

/// No two files of one run have the same name.
pub proof fn lemma_run_files_are_distinct(
    files: RunFiles,
    implementation: Seq<char>,
    cert_type: Seq<char>,
)
    requires
        files.belongs_to(implementation, cert_type),
    ensures
        files.perf_data@ != files.svg@,
        files.perf_data@ != files.folded@,
        files.perf_data@ != files.mean@,
        files.svg@ != files.folded@,
        files.svg@ != files.mean@,
        files.folded@ != files.mean@,
{
    reveal_strlit("perf");
    reveal_strlit("flamegraph");
    reveal_strlit("folded");
    reveal_strlit("hotloop_mean");
    reveal_strlit("_");
    assert(files.perf_data@[0] == 'p');
    assert(files.svg@[0] == 'f' && files.svg@[1] == 'l');
    assert(files.folded@[0] == 'f' && files.folded@[1] == 'o');
    assert(files.mean@[0] == 'h');
}

/// Profiling s2n-tls and profiling rustls never write to the same file.
pub proof fn lemma_runs_do_not_collide(
    s2n: RunFiles,
    s2n_cert_type: Seq<char>,
    rustls: RunFiles,
    rustls_cert_type: Seq<char>,
)
    requires
        s2n.belongs_to(S2N_TLS@, s2n_cert_type),
        rustls.belongs_to(RUSTLS@, rustls_cert_type),
    ensures
        s2n.perf_data@ != rustls.perf_data@,
        s2n.svg@ != rustls.svg@,
        s2n.folded@ != rustls.folded@,
        s2n.mean@ != rustls.mean@,
{
    reveal_strlit("perf");
    reveal_strlit("flamegraph");
    reveal_strlit("folded");
    reveal_strlit("hotloop_mean");
    reveal_strlit("_");
    reveal_strlit("s2n-tls");
    reveal_strlit("rustls");
    assert(s2n.perf_data@[5] == 's' && rustls.perf_data@[5] == 'r');
    assert(s2n.svg@[11] == 's' && rustls.svg@[11] == 'r');
    assert(s2n.folded@[7] == 's' && rustls.folded@[7] == 'r');
    assert(s2n.mean@[13] == 's' && rustls.mean@[13] == 'r');
}

/// The arguments of `perf` that record samples into `perf_data`, up to the program
/// that is profiled.
pub fn perf_record_args(perf_data: &str) -> (r: Vec<String>)
    ensures
        text_views(r@) == seq![
            "record"@,
            "-F"@,
            "999"@,
            "-g"@,
            "--call-graph"@,
            "fp"@,
            "-o"@,
            perf_data@,
            "--"@,
        ],
{
    let mut args: Vec<String> = Vec::new();
    args.push("record".to_owned());
    args.push("-F".to_owned());
    args.push("999".to_owned());
    args.push("-g".to_owned());
    args.push("--call-graph".to_owned());
    args.push("fp".to_owned());
    args.push("-o".to_owned());
    args.push(perf_data.to_owned());
    args.push("--".to_owned());
    args
}

/// The arguments of `perf` that print the recorded samples.
pub fn perf_script_args(perf_data: &str) -> (r: Vec<String>)
    ensures
        text_views(r@) == seq!["script"@, "-i"@, perf_data@],
{
    let mut args: Vec<String> = Vec::new();
    args.push("script".to_owned());
    args.push("-i".to_owned());
    args.push(perf_data.to_owned());
    args
}

/// The arguments of `flamegraph.pl` that render the folded stacks.
pub fn flamegraph_args(implementation: &str, cert_type: &str, folded: &str) -> (r: Vec<String>)
    ensures
        text_views(r@) == seq![
            "--title"@,
            implementation@ + " "@ + cert_type@ + " handshake"@,
            folded@,
        ],
{
    let mut title: String = implementation.to_owned();
    title.append(" ");
    title.append(cert_type);
    title.append(" handshake");
    let mut args: Vec<String> = Vec::new();
    args.push("--title".to_owned());
    args.push(title);
    args.push(folded.to_owned());
    args
}

/// The steps of a profiling run.
#[derive(Clone, Copy, Debug, PartialEq, Eq, Structural)]
pub enum ProfileStep {
    /// Record the hot loop.
    Record,
    /// Fold the recorded stacks.
    Fold,
    /// Render the flamegraph.
    Render,
    /// Read the mean handshake time.
    ReadMean,
}

impl ProfileStep {
    /// The step that follows a step that succeeded, or what is said of one that
    /// failed. Reading the mean is the last step and does not fail.
    pub open spec fn spec_after(self, succeeded: bool) -> Result<ProfileStep, Seq<char>> {
        match (self, succeeded) {
            (ProfileStep::Record, true) => Ok(ProfileStep::Fold),
            (ProfileStep::Record, false) => Err(
                "ERROR: perf record failed. Is kernel.perf_event_paranoid <= 1?"@,
            ),
            (ProfileStep::Fold, true) => Ok(ProfileStep::Render),
            (ProfileStep::Fold, false) => Err("ERROR: stackcollapse-perf.pl failed."@),
            (ProfileStep::Render, true) => Ok(ProfileStep::ReadMean),
            (ProfileStep::Render, false) => Err("ERROR: flamegraph.pl failed."@),
            (ProfileStep::ReadMean, _) => Ok(ProfileStep::ReadMean),
        }
    }

    /// The step that follows, or what is said when the step failed.
    pub fn after(self, succeeded: bool) -> (r: Result<ProfileStep, &'static str>)
        ensures
            match (r, self.spec_after(succeeded)) {
                (Ok(step), Ok(expected)) => step == expected,
                (Err(message), Err(expected)) => message@ == expected,
                _ => false,
            },
            r is Err <==> !succeeded && !(self is ReadMean),
            r matches Ok(step) ==> match self {
                ProfileStep::Record => step is Fold,
                ProfileStep::Fold => step is Render,
                ProfileStep::Render => step is ReadMean,
                ProfileStep::ReadMean => step is ReadMean,
            },
            r matches Err(message) ==> match self {
                ProfileStep::Record => message@
                    == "ERROR: perf record failed. Is kernel.perf_event_paranoid <= 1?"@,
                ProfileStep::Fold => message@ == "ERROR: stackcollapse-perf.pl failed."@,
                _ => message@ == "ERROR: flamegraph.pl failed."@,
            },
    {
        match (self, succeeded) {
            (ProfileStep::Record, true) => Ok(ProfileStep::Fold),
            (ProfileStep::Record, false) => Err(
                "ERROR: perf record failed. Is kernel.perf_event_paranoid <= 1?",
            ),
            (ProfileStep::Fold, true) => Ok(ProfileStep::Render),
            (ProfileStep::Fold, false) => Err("ERROR: stackcollapse-perf.pl failed."),
            (ProfileStep::Render, true) => Ok(ProfileStep::ReadMean),
            (ProfileStep::Render, false) => Err("ERROR: flamegraph.pl failed."),
            (ProfileStep::ReadMean, _) => Ok(ProfileStep::ReadMean),
        }
    }

    /// What is said before a step; reading the mean is not announced.
    pub open spec fn spec_announcement(
        self,
        implementation: Seq<char>,
        cert_type: Seq<char>,
        secs: nat,
    ) -> Option<Seq<char>> {
        match self {
            ProfileStep::Record => Some(
                "Recording "@ + implementation + " ("@ + cert_type + ") under perf for ~"@
                    + decimal_of(secs) + "s..."@,
            ),
            ProfileStep::Fold => Some(
                "Folding stacks -> "@ + run_file("folded"@, implementation, cert_type, ".txt"@)
                    + " ..."@,
            ),
            ProfileStep::Render => Some(
                "Rendering "@ + run_file("flamegraph"@, implementation, cert_type, ".svg"@)
                    + " ..."@,
            ),
            ProfileStep::ReadMean => None,
        }
    }

    /// What is said before a step.
    pub fn announcement(
        self,
        implementation: &str,
        cert_type: &str,
        secs: u64,
    ) -> (r: Option<String>)
        ensures
            match (r, self.spec_announcement(implementation@, cert_type@, secs as nat)) {
                (Some(text), Some(expected)) => text@ == expected,
                (None, None) => true,
                _ => false,
            },
            r is None <==> self is ReadMean,
            r matches Some(text) ==> match self {
                ProfileStep::Record => text@ == "Recording "@ + implementation@ + " ("@
                    + cert_type@ + ") under perf for ~"@ + decimal_of(secs as nat) + "s..."@,
                ProfileStep::Fold => text@ == "Folding stacks -> "@ + ("folded"@ + "_"@
                    + implementation@ + "_"@ + cert_type@ + ".txt"@) + " ..."@,
                _ => text@ == "Rendering "@ + ("flamegraph"@ + "_"@ + implementation@ + "_"@
                    + cert_type@ + ".svg"@) + " ..."@,
            },
    {
        match self {
            ProfileStep::Record => {
                let mut text: String = "Recording ".to_owned();
                text.append(implementation);
                text.append(" (");
                text.append(cert_type);
                text.append(") under perf for ~");
                text.append(decimal(secs).as_str());
                text.append("s...");
                Some(text)
            },
            ProfileStep::Fold => {
                let mut text: String = "Folding stacks -> ".to_owned();
                text.append(run_file_name("folded", implementation, cert_type, ".txt").as_str());
                text.append(" ...");
                Some(text)
            },
            ProfileStep::Render => {
                let mut text: String = "Rendering ".to_owned();
                text.append(
                    run_file_name("flamegraph", implementation, cert_type, ".svg").as_str(),
                );
                text.append(" ...");
                Some(text)
            },
            ProfileStep::ReadMean => None,
        }
    }
}

} // verus!

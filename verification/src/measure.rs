//! A measuring run: handshakes of both implementations, and what is kept of them.

use crate::checkpoint::{checkpoint_views, stream_views, CheckpointView, RawCheckpoint};
use crate::duration_laws::{lemma_rustls_labels, lemma_s2n_labels};
use crate::durations::{
    compute_durations_rustls, compute_durations_s2n, measurement_views, rustls_durations,
    s2n_durations, MeasurementRecord,
};
use crate::groups::{key_of, lemma_implementations_stay_separate};
use vstd::prelude::*;

verus! {

/// The handshakes of each implementation that are run before any is measured.
pub const WARMUP_ITERATIONS: u64 = 200;

/// The handshakes of each implementation that are measured.
pub const MEASUREMENT_ITERATIONS: u64 = 1000;

/// What a measuring run was made with.
#[derive(Debug)]
pub struct Metadata {
    pub cpu_model: String,
    pub warmup_iterations: u64,
    pub measurement_iterations: u64,
    pub cert_type: String,
}

impl Metadata {
    /// Describes a run on the given processor with certificates of the given type.
    pub fn of_run(cpu_model: String, cert_type: &str) -> (r: Metadata)
        ensures
            r.cpu_model@ == cpu_model@,
            r.warmup_iterations == WARMUP_ITERATIONS,
            r.measurement_iterations == MEASUREMENT_ITERATIONS,
            r.warmup_iterations == 200,
            r.measurement_iterations == 1000,
            r.cert_type@ == cert_type@,
    {
        Metadata {
            cpu_model,
            warmup_iterations: WARMUP_ITERATIONS,
            measurement_iterations: MEASUREMENT_ITERATIONS,
            cert_type: cert_type.to_owned(),
        }
    }
}

/// The measurements of a run: those of s2n-tls, whose checkpoints stand in one
/// list, followed by those of rustls, with one stream for each side and handshake.
pub fn collect_measurements(
    s2n: &[RawCheckpoint],
    rustls_clients: &[Vec<RawCheckpoint>],
    rustls_servers: &[Vec<RawCheckpoint>],
) -> (r: Vec<MeasurementRecord>)
    ensures
        measurement_views(r@) == s2n_durations(
            checkpoint_views(s2n@),
            MEASUREMENT_ITERATIONS as nat,
        ) + rustls_durations(stream_views(rustls_clients@), stream_views(rustls_servers@)),
{
    let mut measurements: Vec<MeasurementRecord> = compute_durations_s2n(
        s2n,
        MEASUREMENT_ITERATIONS,
    );
    let ghost first = measurements@;
    let mut of_rustls: Vec<MeasurementRecord> = compute_durations_rustls(
        rustls_clients,
        rustls_servers,
    );
    let ghost second = of_rustls@;
    measurements.append(&mut of_rustls);
    assert(measurement_views(first + second) =~= measurement_views(first) + measurement_views(
        second,
    ));
    measurements
}

/// No group of samples holds measurements of both implementations, whatever was
/// measured.
pub proof fn lemma_no_group_is_shared(
    s2n: Seq<CheckpointView>,
    iterations: nat,
    rustls_clients: Seq<Seq<CheckpointView>>,
    rustls_servers: Seq<Seq<CheckpointView>>,
    i: int,
    j: int,
)
    requires
        0 <= i < s2n_durations(s2n, iterations).len(),
        0 <= j < rustls_durations(rustls_clients, rustls_servers).len(),
    ensures
        key_of(s2n_durations(s2n, iterations)[i]) != key_of(
            rustls_durations(rustls_clients, rustls_servers)[j],
        ),
{
    lemma_s2n_labels(s2n, iterations);
    lemma_rustls_labels(rustls_clients, rustls_servers);
    let a = s2n_durations(s2n, iterations)[i];
    let b = rustls_durations(rustls_clients, rustls_servers)[j];
    lemma_implementations_stay_separate(a.message_name, a.role, b.message_name, b.role);
}

} // verus!

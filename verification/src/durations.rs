//! Per-message durations, computed as deltas between consecutive checkpoints.

use crate::checkpoint::{
    checkpoint_views, stream_views, timeline, times, CheckpointView, RawCheckpoint,
};
use crate::order::{as_ints, stable_order};
use crate::text::same_text;
use vstd::prelude::*;

verus! {

/// The checkpoint that opens a handshake. It anchors the first delta and has no
/// duration of its own.
pub const NEGOTIATE_START: &'static str = "NEGOTIATE_START";

/// The kind of handshake that is measured.
pub const HANDSHAKE_TYPE: &'static str = "tls13_full";

/// The name of the s2n-tls implementation.
pub const S2N_TLS: &'static str = "s2n-tls";

/// The name of the rustls implementation.
pub const RUSTLS: &'static str = "rustls";

/// The time that one side spent on one message in one iteration.
#[derive(Debug, Clone)]
pub struct MeasurementRecord {
    pub implementation: String,
    pub handshake_type: String,
    pub iteration: u64,
    pub message_name: String,
    pub role: String,
    pub duration_ns: u64,
}

/// What a measurement says.
#[verifier::ext_equal]
pub struct MeasurementView {
    pub implementation: Seq<char>,
    pub handshake_type: Seq<char>,
    pub iteration: nat,
    pub message_name: Seq<char>,
    pub role: Seq<char>,
    pub duration_ns: u64,
}

impl View for MeasurementRecord {
    type V = MeasurementView;

    open spec fn view(&self) -> MeasurementView {
        MeasurementView {
            implementation: self.implementation@,
            handshake_type: self.handshake_type@,
            iteration: self.iteration as nat,
            message_name: self.message_name@,
            role: self.role@,
            duration_ns: self.duration_ns,
        }
    }
}

/// What a list of measurements says.
pub open spec fn measurement_views(s: Seq<MeasurementRecord>) -> Seq<MeasurementView> {
    Seq::new(s.len(), |i: int| s[i]@)
}

/// The time from `earlier` to `later`, or nothing when `later` is not later.
pub open spec fn elapsed(earlier: u64, later: u64) -> u64 {
    if later >= earlier {
        (later - earlier) as u64
    } else {
        0
    }
}

/// The measurement of `curr`, whose work began when `prev` was emitted.
pub open spec fn measurement(
    implementation: Seq<char>,
    iteration: nat,
    prev: CheckpointView,
    curr: CheckpointView,
) -> MeasurementView {
    MeasurementView {
        implementation,
        handshake_type: HANDSHAKE_TYPE@,
        iteration,
        message_name: curr.name,
        role: curr.role,
        duration_ns: elapsed(prev.timestamp_ns, curr.timestamp_ns),
    }
}

/// The measurements along a line of checkpoints: one for each checkpoint behind
/// the first, except for the anchors.
pub open spec fn deltas(
    line: Seq<CheckpointView>,
    implementation: Seq<char>,
    iteration: nat,
) -> Seq<MeasurementView>
    decreases line.len(),
{
    if line.len() < 2 {
        Seq::empty()
    } else {
        let rest = deltas(line.drop_last(), implementation, iteration);
        if line.last().name == NEGOTIATE_START@ {
            rest
        } else {
            rest.push(measurement(implementation, iteration, line[line.len() - 2], line.last()))
        }
    }
}

/// The measurements of one stream of checkpoints that share a clock.
pub open spec fn stream_durations(
    stream: Seq<CheckpointView>,
    implementation: Seq<char>,
    iteration: nat,
) -> Seq<MeasurementView> {
    deltas(timeline(stream), implementation, iteration)
}

/// The measurements of a buffer that holds `per_handshake` checkpoints for each
/// iteration, the last iteration possibly fewer.
pub open spec fn batch_durations(
    checkpoints: Seq<CheckpointView>,
    per_handshake: nat,
    iteration: nat,
) -> Seq<MeasurementView>
    decreases checkpoints.len(),
{
    if checkpoints.len() == 0 || per_handshake == 0 {
        Seq::empty()
    } else {
        let n = if per_handshake < checkpoints.len() {
            per_handshake as int
        } else {
            checkpoints.len() as int
        };
        stream_durations(checkpoints.take(n), S2N_TLS@, iteration) + batch_durations(
            checkpoints.skip(n),
            per_handshake,
            iteration + 1,
        )
    }
}

/// The measurements of `iterations` s2n-tls handshakes whose checkpoints stand
/// one handshake after the other in one buffer. A buffer with fewer checkpoints
/// than iterations has none.
pub open spec fn s2n_durations(
    checkpoints: Seq<CheckpointView>,
    iterations: nat,
) -> Seq<MeasurementView> {
    if iterations == 0 {
        Seq::empty()
    } else {
        batch_durations(checkpoints, checkpoints.len() / iterations, 0)
    }
}

/// The measurements of one side of the rustls handshakes, one stream for each
/// iteration.
pub open spec fn side_durations(streams: Seq<Seq<CheckpointView>>) -> Seq<MeasurementView>
    decreases streams.len(),
{
    if streams.len() == 0 {
        Seq::empty()
    } else {
        side_durations(streams.drop_last()) + stream_durations(
            streams.last(),
            RUSTLS@,
            (streams.len() - 1) as nat,
        )
    }
}

/// The measurements of the rustls handshakes: the client's, then the server's.
pub open spec fn rustls_durations(
    client_streams: Seq<Seq<CheckpointView>>,
    server_streams: Seq<Seq<CheckpointView>>,
) -> Seq<MeasurementView> {
    side_durations(client_streams) + side_durations(server_streams)
}

/// Appends the measurements of one stream to `records`.
fn append_stream(
    records: &mut Vec<MeasurementRecord>,
    stream: &[RawCheckpoint],
    implementation: &str,
    iteration: u64,
)
    ensures
        measurement_views(final(records)@) == measurement_views(old(records)@) + stream_durations(
            checkpoint_views(stream@),
            implementation@,
            iteration as nat,
        ),
{
    let ghost views = checkpoint_views(stream@);
    let ghost line = timeline(views);
    let ghost before = measurement_views(records@);
    let mut keys: Vec<u64> = Vec::new();
    let mut k: usize = 0;
    while k < stream.len()
        invariant
            k <= stream@.len(),
            views == checkpoint_views(stream@),
            keys@ == times(views).take(k as int),
        decreases stream@.len() - k,
    {
        keys.push(stream[k].timestamp_ns);
        k = k + 1;
    }
    assert(keys@ =~= times(views));
    let order: Vec<usize> = stable_order(keys.as_slice());
    assert forall|a: int| 0 <= a < order@.len() implies 0 <= (#[trigger] order@[a]) < stream@.len()
        && line[a] == stream@[order@[a] as int]@ by {
        assert(as_ints(order@)[a] == order@[a]);
    }
    assert(line.take(0).len() < 2);
    let mut i: usize = 0;
    while i < order.len()
        invariant
            i <= order@.len(),
            order@.len() == line.len(),
            forall|a: int|
                0 <= a < order@.len() ==> 0 <= (#[trigger] order@[a]) < stream@.len() && line[a]
                    == stream@[order@[a] as int]@,
            measurement_views(records@) == before + deltas(
                line.take(i as int),
                implementation@,
                iteration as nat,
            ),
        decreases order@.len() - i,
    {
        let ghost now = records@;
        proof {
            assert(line.take(i + 1).drop_last() =~= line.take(i as int));
        }
        if i > 0 {
            let prev: &RawCheckpoint = &stream[order[i - 1]];
            let curr: &RawCheckpoint = &stream[order[i]];
            assert(line.take(i + 1)[i - 1] == prev@);
            assert(line.take(i + 1).last() == curr@);
            if !same_text(curr.name.as_str(), NEGOTIATE_START) {
                let duration_ns: u64 = curr.timestamp_ns.saturating_sub(prev.timestamp_ns);
                records.push(
                    MeasurementRecord {
                        implementation: implementation.to_owned(),
                        handshake_type: HANDSHAKE_TYPE.to_owned(),
                        iteration,
                        message_name: curr.name.clone(),
                        role: curr.role.clone(),
                        duration_ns,
                    },
                );
                assert(measurement_views(records@) =~= measurement_views(now).push(
                    measurement(implementation@, iteration as nat, prev@, curr@),
                ));
            }
        }
        i = i + 1;
    }
    assert(line.take(i as int) =~= line);
}

/// Converts a buffer of s2n-tls checkpoints into per-message durations.
///
/// The buffer is cut into `iterations` handshakes of equal length; what is left
/// over forms further, shorter ones. Both sides of an s2n-tls connection share
/// one absolute clock, so within a handshake all checkpoints stand on a single
/// timeline and a message's duration is the time since the checkpoint before it,
/// whichever side emitted that.
pub fn compute_durations_s2n(checkpoints: &[RawCheckpoint], iterations: u64) -> (r: Vec<
    MeasurementRecord,
>)
    ensures
        measurement_views(r@) == s2n_durations(checkpoint_views(checkpoints@), iterations as nat),
{
    let mut records: Vec<MeasurementRecord> = Vec::new();
    assert(measurement_views(records@) =~= Seq::empty());
    if iterations == 0 {
        return records;
    }
    let total: u64 = checkpoints.len() as u64;
    let per_handshake: usize = (total / iterations) as usize;
    if per_handshake == 0 {
        return records;
    }
    let ghost views = checkpoint_views(checkpoints@);
    let ghost whole = s2n_durations(views, iterations as nat);
    let mut start: usize = 0;
    let mut iteration: u64 = 0;
    assert(views.skip(0) =~= views);
    while start < checkpoints.len()
        invariant
            start <= checkpoints@.len(),
            iteration <= start,
            per_handshake > 0,
            views == checkpoint_views(checkpoints@),
            whole == measurement_views(records@) + batch_durations(
                views.skip(start as int),
                per_handshake as nat,
                iteration as nat,
            ),
        decreases checkpoints@.len() - start,
    {
        let left: usize = checkpoints.len() - start;
        let n: usize = if per_handshake < left {
            per_handshake
        } else {
            left
        };
        let chunk: &[RawCheckpoint] = vstd::slice::slice_subrange(checkpoints, start, start + n);
        proof {
            assert(checkpoint_views(chunk@) =~= views.skip(start as int).take(n as int));
            assert(views.skip(start as int).skip(n as int) =~= views.skip(start + n));
        }
        append_stream(&mut records, chunk, S2N_TLS, iteration);
        start = start + n;
        iteration = iteration + 1;
    }
    assert(whole =~= measurement_views(records@));
    records
}

/// Appends the measurements of one side's streams to `records`.
fn append_side(records: &mut Vec<MeasurementRecord>, streams: &[Vec<RawCheckpoint>])
    ensures
        measurement_views(final(records)@) == measurement_views(old(records)@) + side_durations(
            stream_views(streams@),
        ),
{
    let ghost views = stream_views(streams@);
    let ghost before = measurement_views(records@);
    let mut i: usize = 0;
    assert(views.take(0).len() == 0);
    while i < streams.len()
        invariant
            i <= streams@.len(),
            views == stream_views(streams@),
            measurement_views(records@) == before + side_durations(views.take(i as int)),
        decreases streams@.len() - i,
    {
        append_stream(records, streams[i].as_slice(), RUSTLS, i as u64);
        proof {
            assert(views.take(i + 1).drop_last() =~= views.take(i as int));
            assert(views.take(i + 1).last() == checkpoint_views(streams@[i as int]@));
        }
        i = i + 1;
    }
    assert(views.take(i as int) =~= views);
}

/// Converts rustls checkpoint streams, one for each handshake and side, into
/// per-message durations.
///
/// Each rustls connection starts its own clock, so the streams of the two sides
/// are never merged: a message's duration is the time since the checkpoint
/// before it on the same side.
pub fn compute_durations_rustls(
    client_iters: &[Vec<RawCheckpoint>],
    server_iters: &[Vec<RawCheckpoint>],
) -> (r: Vec<MeasurementRecord>)
    ensures
        measurement_views(r@) == rustls_durations(
            stream_views(client_iters@),
            stream_views(server_iters@),
        ),
{
    let mut records: Vec<MeasurementRecord> = Vec::new();
    append_side(&mut records, client_iters);
    append_side(&mut records, server_iters);
    records
}

} // verus!

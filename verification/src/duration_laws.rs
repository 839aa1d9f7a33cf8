//! What holds of every set of measurements.

use crate::checkpoint::{timeline, times, CheckpointView};
use crate::durations::{
    batch_durations, deltas, elapsed, measurement, rustls_durations, s2n_durations, side_durations,
    stream_durations, MeasurementView, HANDSHAKE_TYPE, NEGOTIATE_START, RUSTLS, S2N_TLS,
};
use crate::order::{
    is_stable_order, lemma_arranged_keeps_items, lemma_stable_order_exists,
    lemma_stable_order_found, sorts_before, stable_order_of,
};
use vstd::prelude::*;

verus! {

/// A timeline runs forward and holds exactly the checkpoints that were emitted.
pub proof fn lemma_timeline_is_chronological(s: Seq<CheckpointView>)
    ensures
        timeline(s).len() == s.len(),
        timeline(s).to_multiset() == s.to_multiset(),
        forall|a: int, b: int|
            0 <= a <= b < s.len() ==> (#[trigger] timeline(s)[a]).timestamp_ns <= (
            #[trigger] timeline(s)[b]).timestamp_ns,
{
    let order = stable_order_of(times(s));
    lemma_stable_order_exists(times(s));
    lemma_arranged_keeps_items(s, times(s));
    assert forall|a: int, b: int| 0 <= a <= b < s.len() implies (#[trigger] timeline(
        s,
    )[a]).timestamp_ns <= (#[trigger] timeline(s)[b]).timestamp_ns by {
        assert(timeline(s)[a] == s[order[a]]);
        assert(timeline(s)[b] == s[order[b]]);
        if a < b {
            assert(sorts_before(times(s), order[a], order[b]));
        }
    }
}

/// Every measurement is labelled with its implementation and handshake type, and
/// none belongs to an anchor.
pub open spec fn well_labelled(r: Seq<MeasurementView>, implementation: Seq<char>) -> bool {
    forall|i: int|
        0 <= i < r.len() ==> {
            &&& (#[trigger] r[i]).implementation == implementation
            &&& r[i].handshake_type == HANDSHAKE_TYPE@
            &&& r[i].message_name != NEGOTIATE_START@
        }
}

proof fn lemma_deltas_labelled(
    line: Seq<CheckpointView>,
    implementation: Seq<char>,
    iteration: nat,
)
    ensures
        well_labelled(deltas(line, implementation, iteration), implementation),
        forall|i: int|
            0 <= i < deltas(line, implementation, iteration).len() ==> (#[trigger] deltas(
                line,
                implementation,
                iteration,
            )[i]).iteration == iteration,
    decreases line.len(),
{
    if line.len() >= 2 {
        lemma_deltas_labelled(line.drop_last(), implementation, iteration);
    }
}

proof fn lemma_batches_labelled(
    checkpoints: Seq<CheckpointView>,
    per_handshake: nat,
    iteration: nat,
)
    ensures
        well_labelled(batch_durations(checkpoints, per_handshake, iteration), S2N_TLS@),
    decreases checkpoints.len(),
{
    if checkpoints.len() > 0 && per_handshake > 0 {
        let n = if per_handshake < checkpoints.len() {
            per_handshake as int
        } else {
            checkpoints.len() as int
        };
        lemma_deltas_labelled(timeline(checkpoints.take(n)), S2N_TLS@, iteration);
        lemma_batches_labelled(checkpoints.skip(n), per_handshake, iteration + 1);
    }
}

proof fn lemma_side_labelled(streams: Seq<Seq<CheckpointView>>)
    ensures
        well_labelled(side_durations(streams), RUSTLS@),
    decreases streams.len(),
{
    if streams.len() > 0 {
        lemma_side_labelled(streams.drop_last());
        lemma_deltas_labelled(timeline(streams.last()), RUSTLS@, (streams.len() - 1) as nat);
    }
}

/// Every s2n-tls measurement says so, and no anchor is measured.
pub proof fn lemma_s2n_labels(checkpoints: Seq<CheckpointView>, iterations: nat)
    ensures
        well_labelled(s2n_durations(checkpoints, iterations), S2N_TLS@),
{
    if iterations > 0 {
        lemma_batches_labelled(checkpoints, checkpoints.len() / iterations, 0);
    }
}

/// Every rustls measurement says so, and no anchor is measured.
pub proof fn lemma_rustls_labels(
    client_streams: Seq<Seq<CheckpointView>>,
    server_streams: Seq<Seq<CheckpointView>>,
)
    ensures
        well_labelled(rustls_durations(client_streams, server_streams), RUSTLS@),
{
    lemma_side_labelled(client_streams);
    lemma_side_labelled(server_streams);
}

/// The measured time in all.
pub open spec fn total_time(r: Seq<MeasurementView>) -> nat
    decreases r.len(),
{
    if r.len() == 0 {
        0
    } else {
        total_time(r.drop_last()) + r.last().duration_ns as nat
    }
}

/// The time that ends in an anchor, which no measurement counts.
pub open spec fn anchor_time(line: Seq<CheckpointView>) -> nat
    decreases line.len(),
{
    if line.len() < 2 {
        0
    } else {
        let rest = anchor_time(line.drop_last());
        if line.last().name == NEGOTIATE_START@ {
            rest + elapsed(line[line.len() - 2].timestamp_ns, line.last().timestamp_ns) as nat
        } else {
            rest
        }
    }
}

/// How many checkpoints behind the first are anchors.
pub open spec fn later_anchors(line: Seq<CheckpointView>) -> nat
    decreases line.len(),
{
    if line.len() < 2 {
        0
    } else {
        let rest = later_anchors(line.drop_last());
        if line.last().name == NEGOTIATE_START@ {
            rest + 1
        } else {
            rest
        }
    }
}

proof fn lemma_deltas_telescope(
    line: Seq<CheckpointView>,
    implementation: Seq<char>,
    iteration: nat,
)
    requires
        line.len() > 0,
        forall|a: int, b: int|
            0 <= a <= b < line.len() ==> (#[trigger] line[a]).timestamp_ns <= (
            #[trigger] line[b]).timestamp_ns,
    ensures
        total_time(deltas(line, implementation, iteration)) + anchor_time(line)
            == line.last().timestamp_ns - line[0].timestamp_ns,
        deltas(line, implementation, iteration).len() + later_anchors(line) + 1 == line.len(),
    decreases line.len(),
{
    if line.len() >= 2 {
        let shorter = line.drop_last();
        lemma_deltas_telescope(shorter, implementation, iteration);
        let rest = deltas(shorter, implementation, iteration);
        let m = measurement(implementation, iteration, line[line.len() - 2], line.last());
        assert(rest.push(m).drop_last() =~= rest);
        assert(line[line.len() - 2].timestamp_ns <= line[line.len() - 1].timestamp_ns);
        assert(shorter.last() == line[line.len() - 2]);
    }
}

/// The durations of a stream add up to the span from its first to its last
/// checkpoint, less the time that ends in an anchor: no time is counted twice and
/// none is lost. Each checkpoint behind the first is either an anchor or measured
/// once.
pub proof fn lemma_durations_fill_the_span(
    stream: Seq<CheckpointView>,
    implementation: Seq<char>,
    iteration: nat,
)
    requires
        stream.len() > 0,
    ensures
        total_time(stream_durations(stream, implementation, iteration)) + anchor_time(
            timeline(stream),
        ) == timeline(stream).last().timestamp_ns - timeline(stream)[0].timestamp_ns,
        stream_durations(stream, implementation, iteration).len() + later_anchors(timeline(stream))
            + 1 == stream.len(),
{
    lemma_timeline_is_chronological(stream);
    lemma_deltas_telescope(timeline(stream), implementation, iteration);
}

/// The same checkpoints on a clock that started `epoch` nanoseconds earlier.
pub open spec fn on_earlier_clock(s: Seq<CheckpointView>, epoch: nat) -> Seq<CheckpointView> {
    Seq::new(
        s.len(),
        |i: int|
            CheckpointView {
                name: s[i].name,
                role: s[i].role,
                timestamp_ns: (s[i].timestamp_ns + epoch) as u64,
            },
    )
}

proof fn lemma_deltas_ignore_epoch(
    line: Seq<CheckpointView>,
    epoch: nat,
    implementation: Seq<char>,
    iteration: nat,
)
    requires
        forall|i: int|
            0 <= i < line.len() ==> (#[trigger] line[i]).timestamp_ns + epoch <= u64::MAX,
    ensures
        deltas(on_earlier_clock(line, epoch), implementation, iteration) == deltas(
            line,
            implementation,
            iteration,
        ),
    decreases line.len(),
{
    if line.len() >= 2 {
        lemma_deltas_ignore_epoch(line.drop_last(), epoch, implementation, iteration);
        assert(on_earlier_clock(line, epoch).drop_last() =~= on_earlier_clock(
            line.drop_last(),
            epoch,
        ));
        let n = line.len();
        assert(line[n - 2].timestamp_ns + epoch <= u64::MAX);
        assert(line[n - 1].timestamp_ns + epoch <= u64::MAX);
    }
}

/// The measurements of a stream do not depend on when its clock was started.
pub proof fn lemma_durations_ignore_epoch(
    stream: Seq<CheckpointView>,
    epoch: nat,
    implementation: Seq<char>,
    iteration: nat,
)
    requires
        forall|i: int|
            0 <= i < stream.len() ==> (#[trigger] stream[i]).timestamp_ns + epoch <= u64::MAX,
    ensures
        stream_durations(on_earlier_clock(stream, epoch), implementation, iteration)
            == stream_durations(stream, implementation, iteration),
{
    let later = on_earlier_clock(stream, epoch);
    let order = stable_order_of(times(stream));
    lemma_stable_order_exists(times(stream));
    assert(is_stable_order(times(later), order)) by {
        assert forall|a: int, b: int| 0 <= a < b < order.len() implies sorts_before(
            times(later),
            #[trigger] order[a],
            #[trigger] order[b],
        ) by {
            assert(sorts_before(times(stream), order[a], order[b]));
            assert(stream[order[a]].timestamp_ns + epoch <= u64::MAX);
            assert(stream[order[b]].timestamp_ns + epoch <= u64::MAX);
        }
    }
    lemma_stable_order_found(times(later), order);
    assert forall|a: int| 0 <= a < order.len() implies 0 <= #[trigger] order[a] < stream.len() by {}
    assert(timeline(later) =~= on_earlier_clock(timeline(stream), epoch));
    assert forall|i: int| 0 <= i < timeline(stream).len() implies (#[trigger] timeline(
        stream,
    )[i]).timestamp_ns + epoch <= u64::MAX by {
        assert(timeline(stream)[i] == stream[order[i]]);
    }
    lemma_deltas_ignore_epoch(timeline(stream), epoch, implementation, iteration);
}

/// The two sides of a rustls handshake never influence each other: what is
/// measured on both is what is measured on each alone.
pub proof fn lemma_rustls_sides_are_separate(
    client_streams: Seq<Seq<CheckpointView>>,
    server_streams: Seq<Seq<CheckpointView>>,
)
    ensures
        rustls_durations(client_streams, server_streams) == rustls_durations(
            client_streams,
            Seq::empty(),
        ) + rustls_durations(Seq::empty(), server_streams),
{
    assert(side_durations(Seq::empty()) =~= Seq::empty());
    assert(side_durations(client_streams) + Seq::empty() =~= side_durations(client_streams));
    assert(Seq::empty() + side_durations(server_streams) =~= side_durations(server_streams));
}

/// The measurements of separate s2n-tls handshakes, numbered from `iteration` on.
pub open spec fn numbered_durations(
    handshakes: Seq<Seq<CheckpointView>>,
    iteration: nat,
) -> Seq<MeasurementView>
    decreases handshakes.len(),
{
    if handshakes.len() == 0 {
        Seq::empty()
    } else {
        stream_durations(handshakes[0], S2N_TLS@, iteration) + numbered_durations(
            handshakes.drop_first(),
            iteration + 1,
        )
    }
}

proof fn lemma_flattened_length(handshakes: Seq<Seq<CheckpointView>>, n: nat)
    requires
        forall|i: int| 0 <= i < handshakes.len() ==> (#[trigger] handshakes[i]).len() == n,
    ensures
        handshakes.flatten().len() == handshakes.len() * n,
    decreases handshakes.len(),
{
    if handshakes.len() > 0 {
        let rest = handshakes.drop_first();
        assert forall|i: int| 0 <= i < rest.len() implies (#[trigger] rest[i]).len() == n by {
            assert(rest[i] == handshakes[i + 1]);
        }
        lemma_flattened_length(rest, n);
        assert(handshakes[0].len() == n);
        assert(handshakes.len() * n == n + rest.len() * n) by (nonlinear_arith)
            requires
                handshakes.len() == rest.len() + 1,
        ;
    } else {
        assert(0 * n == 0);
    }
}

/// The handshakes are `n` checkpoints long, the last one possibly shorter, and none is
/// empty.
pub open spec fn is_cut(handshakes: Seq<Seq<CheckpointView>>, n: nat) -> bool {
    forall|i: int|
        0 <= i < handshakes.len() ==> {
            &&& 0 < (#[trigger] handshakes[i]).len() <= n
            &&& i < handshakes.len() - 1 ==> handshakes[i].len() == n
        }
}

/// The handshakes, one after the other, are what a buffer of `iterations` handshakes is
/// cut into.
pub open spec fn is_buffer(handshakes: Seq<Seq<CheckpointView>>, iterations: nat) -> bool {
    &&& iterations > 0
    &&& is_cut(handshakes, handshakes.flatten().len() / iterations)
}

proof fn lemma_batches_are_handshakes(
    handshakes: Seq<Seq<CheckpointView>>,
    n: nat,
    iteration: nat,
)
    requires
        is_cut(handshakes, n),
    ensures
        batch_durations(handshakes.flatten(), n, iteration) == numbered_durations(
            handshakes,
            iteration,
        ),
    decreases handshakes.len(),
{
    if handshakes.len() > 0 {
        let all = handshakes.flatten();
        let rest = handshakes.drop_first();
        let first = handshakes[0].len() as int;
        assert forall|i: int| 0 <= i < rest.len() implies {
            &&& 0 < (#[trigger] rest[i]).len() <= n
            &&& i < rest.len() - 1 ==> rest[i].len() == n
        } by {
            assert(rest[i] == handshakes[i + 1]);
        }
        lemma_batches_are_handshakes(rest, n, iteration + 1);
        assert(0 < handshakes[0].len() <= n);
        assert(all =~= handshakes[0] + rest.flatten());
        if rest.len() == 0 {
            assert(rest.flatten().len() == 0);
        } else {
            assert(0 < rest[0].len());
            assert(rest.flatten() =~= rest[0] + rest.drop_first().flatten());
        }
        assert(all.take(first) =~= handshakes[0]);
        assert(all.skip(first) =~= rest.flatten());
    }
}

/// Handshakes of equal length are what their buffer is cut into.
pub proof fn lemma_equal_handshakes_are_a_buffer(handshakes: Seq<Seq<CheckpointView>>, n: nat)
    requires
        n > 0,
        handshakes.len() > 0,
        forall|i: int| 0 <= i < handshakes.len() ==> (#[trigger] handshakes[i]).len() == n,
    ensures
        is_buffer(handshakes, handshakes.len()),
{
    lemma_flattened_length(handshakes, n);
    let k = handshakes.len();
    assert((k * n) / k == n) by (nonlinear_arith)
        requires
            k > 0,
    ;
}

/// A buffer that holds handshakes one after the other, all of one length but for a
/// shorter last one, is measured handshake by handshake, each under its own iteration
/// number.
pub proof fn lemma_s2n_measures_each_handshake(
    handshakes: Seq<Seq<CheckpointView>>,
    iterations: nat,
)
    requires
        is_buffer(handshakes, iterations),
    ensures
        s2n_durations(handshakes.flatten(), iterations) == numbered_durations(handshakes, 0),
{
    lemma_batches_are_handshakes(handshakes, handshakes.flatten().len() / iterations, 0);
}

/// No timestamp of a stream on a clock that started `epoch` nanoseconds earlier is
/// too large.
pub open spec fn fits_earlier_clock(s: Seq<CheckpointView>, epoch: nat) -> bool {
    forall|i: int| 0 <= i < s.len() ==> (#[trigger] s[i]).timestamp_ns + epoch <= u64::MAX
}

proof fn lemma_batches_ignore_epoch(
    checkpoints: Seq<CheckpointView>,
    epoch: nat,
    per_handshake: nat,
    iteration: nat,
)
    requires
        fits_earlier_clock(checkpoints, epoch),
    ensures
        batch_durations(on_earlier_clock(checkpoints, epoch), per_handshake, iteration)
            == batch_durations(checkpoints, per_handshake, iteration),
    decreases checkpoints.len(),
{
    if checkpoints.len() > 0 && per_handshake > 0 {
        let n = if per_handshake < checkpoints.len() {
            per_handshake as int
        } else {
            checkpoints.len() as int
        };
        let later = on_earlier_clock(checkpoints, epoch);
        assert(later.take(n) =~= on_earlier_clock(checkpoints.take(n), epoch));
        assert(later.skip(n) =~= on_earlier_clock(checkpoints.skip(n), epoch));
        assert(fits_earlier_clock(checkpoints.take(n), epoch)) by {
            let head = checkpoints.take(n);
            assert forall|i: int| 0 <= i < n implies (#[trigger] head[i]).timestamp_ns + epoch
                <= u64::MAX by {
                assert(checkpoints[i].timestamp_ns + epoch <= u64::MAX);
            }
        }
        assert(fits_earlier_clock(checkpoints.skip(n), epoch)) by {
            let rest = checkpoints.skip(n);
            assert forall|i: int| 0 <= i < rest.len() implies (#[trigger] rest[i]).timestamp_ns
                + epoch <= u64::MAX by {
                assert(checkpoints[i + n].timestamp_ns + epoch <= u64::MAX);
            }
        }
        lemma_durations_ignore_epoch(checkpoints.take(n), epoch, S2N_TLS@, iteration);
        lemma_batches_ignore_epoch(checkpoints.skip(n), epoch, per_handshake, iteration + 1);
    }
}

/// The measurements of a whole buffer of s2n-tls handshakes do not depend on when the
/// clock was started.
pub proof fn lemma_s2n_ignores_epoch(
    checkpoints: Seq<CheckpointView>,
    epoch: nat,
    iterations: nat,
)
    requires
        fits_earlier_clock(checkpoints, epoch),
    ensures
        s2n_durations(on_earlier_clock(checkpoints, epoch), iterations) == s2n_durations(
            checkpoints,
            iterations,
        ),
{
    if iterations > 0 {
        lemma_batches_ignore_epoch(checkpoints, epoch, checkpoints.len() / iterations, 0);
    }
}

/// The same streams, each on a clock of its own that started earlier by its epoch.
pub open spec fn on_earlier_clocks(
    streams: Seq<Seq<CheckpointView>>,
    epochs: Seq<nat>,
) -> Seq<Seq<CheckpointView>> {
    Seq::new(streams.len(), |i: int| on_earlier_clock(streams[i], epochs[i]))
}

/// Each stream has an epoch, with which no timestamp is too large.
pub open spec fn fit_earlier_clocks(
    streams: Seq<Seq<CheckpointView>>,
    epochs: Seq<nat>,
) -> bool {
    &&& epochs.len() == streams.len()
    &&& forall|i: int|
        0 <= i < streams.len() ==> fits_earlier_clock(#[trigger] streams[i], epochs[i])
}

/// Streams of the same lengths, one after the other, are of the same length.
proof fn lemma_same_flattened_length(s: Seq<Seq<CheckpointView>>, t: Seq<Seq<CheckpointView>>)
    requires
        s.len() == t.len(),
        forall|i: int| 0 <= i < s.len() ==> (#[trigger] s[i]).len() == t[i].len(),
    ensures
        s.flatten().len() == t.flatten().len(),
    decreases s.len(),
{
    if s.len() > 0 {
        assert forall|i: int| 0 <= i < s.drop_first().len() implies (
        #[trigger] s.drop_first()[i]).len() == t.drop_first()[i].len() by {
            assert(s[i + 1].len() == t[i + 1].len());
        }
        lemma_same_flattened_length(s.drop_first(), t.drop_first());
        assert(s[0].len() == t[0].len());
    }
}

/// A buffer of streams of the same lengths is cut into those streams.
proof fn lemma_same_cut(
    s: Seq<Seq<CheckpointView>>,
    t: Seq<Seq<CheckpointView>>,
    iterations: nat,
)
    requires
        is_buffer(s, iterations),
        s.len() == t.len(),
        forall|i: int| 0 <= i < s.len() ==> (#[trigger] s[i]).len() == t[i].len(),
    ensures
        is_buffer(t, iterations),
{
    lemma_same_flattened_length(s, t);
    let n = s.flatten().len() / iterations;
    assert forall|i: int| 0 <= i < t.len() implies {
        &&& 0 < (#[trigger] t[i]).len() <= n
        &&& i < t.len() - 1 ==> t[i].len() == n
    } by {
        assert(s[i].len() == t[i].len());
    }
}

proof fn lemma_numbered_ignore_epochs(
    handshakes: Seq<Seq<CheckpointView>>,
    epochs: Seq<nat>,
    iteration: nat,
)
    requires
        fit_earlier_clocks(handshakes, epochs),
    ensures
        numbered_durations(on_earlier_clocks(handshakes, epochs), iteration)
            == numbered_durations(handshakes, iteration),
    decreases handshakes.len(),
{
    if handshakes.len() > 0 {
        let rest = handshakes.drop_first();
        assert(on_earlier_clocks(handshakes, epochs).drop_first() =~= on_earlier_clocks(
            rest,
            epochs.drop_first(),
        ));
        assert forall|i: int| 0 <= i < rest.len() implies fits_earlier_clock(
            #[trigger] rest[i],
            epochs.drop_first()[i],
        ) by {
            assert(fits_earlier_clock(handshakes[i + 1], epochs[i + 1]));
        }
        lemma_numbered_ignore_epochs(rest, epochs.drop_first(), iteration + 1);
        assert(fits_earlier_clock(handshakes[0], epochs[0]));
        lemma_durations_ignore_epoch(handshakes[0], epochs[0], S2N_TLS@, iteration);
    }
}

/// The measurements of a buffer of s2n-tls handshakes do not depend on when the clock of
/// each single handshake was started.
pub proof fn lemma_s2n_ignores_epochs(
    handshakes: Seq<Seq<CheckpointView>>,
    epochs: Seq<nat>,
    iterations: nat,
)
    requires
        is_buffer(handshakes, iterations),
        fit_earlier_clocks(handshakes, epochs),
    ensures
        s2n_durations(on_earlier_clocks(handshakes, epochs).flatten(), iterations)
            == s2n_durations(handshakes.flatten(), iterations),
{
    let later = on_earlier_clocks(handshakes, epochs);
    assert forall|i: int| 0 <= i < handshakes.len() implies (#[trigger] handshakes[i]).len()
        == later[i].len() by {}
    lemma_same_cut(handshakes, later, iterations);
    lemma_s2n_measures_each_handshake(handshakes, iterations);
    lemma_s2n_measures_each_handshake(later, iterations);
    lemma_numbered_ignore_epochs(handshakes, epochs, 0);
}

/// The same measurements, with iteration numbers that are larger by `by`.
pub open spec fn renumbered(r: Seq<MeasurementView>, by: nat) -> Seq<MeasurementView> {
    Seq::new(
        r.len(),
        |i: int|
            MeasurementView {
                implementation: r[i].implementation,
                handshake_type: r[i].handshake_type,
                iteration: r[i].iteration + by,
                message_name: r[i].message_name,
                role: r[i].role,
                duration_ns: r[i].duration_ns,
            },
    )
}

proof fn lemma_deltas_renumbered(
    line: Seq<CheckpointView>,
    implementation: Seq<char>,
    iteration: nat,
    by: nat,
)
    ensures
        deltas(line, implementation, iteration + by) == renumbered(
            deltas(line, implementation, iteration),
            by,
        ),
    decreases line.len(),
{
    if line.len() >= 2 {
        lemma_deltas_renumbered(line.drop_last(), implementation, iteration, by);
    }
    assert(deltas(line, implementation, iteration + by) =~= renumbered(
        deltas(line, implementation, iteration),
        by,
    ));
}

proof fn lemma_batches_renumbered(
    checkpoints: Seq<CheckpointView>,
    per_handshake: nat,
    iteration: nat,
    by: nat,
)
    ensures
        batch_durations(checkpoints, per_handshake, iteration + by) == renumbered(
            batch_durations(checkpoints, per_handshake, iteration),
            by,
        ),
    decreases checkpoints.len(),
{
    if checkpoints.len() > 0 && per_handshake > 0 {
        let n = if per_handshake < checkpoints.len() {
            per_handshake as int
        } else {
            checkpoints.len() as int
        };
        lemma_deltas_renumbered(timeline(checkpoints.take(n)), S2N_TLS@, iteration, by);
        lemma_batches_renumbered(checkpoints.skip(n), per_handshake, iteration + 1, by);
        assert(iteration + 1 + by == iteration + by + 1);
    }
    assert(batch_durations(checkpoints, per_handshake, iteration + by) =~= renumbered(
        batch_durations(checkpoints, per_handshake, iteration),
        by,
    ));
}

proof fn lemma_batches_join(
    a: Seq<CheckpointView>,
    handshakes: nat,
    b: Seq<CheckpointView>,
    n: nat,
    iteration: nat,
)
    requires
        n > 0,
        a.len() == handshakes * n,
    ensures
        batch_durations(a + b, n, iteration) == batch_durations(a, n, iteration)
            + batch_durations(b, n, iteration + handshakes),
    decreases handshakes,
{
    if handshakes == 0 {
        assert(a.len() == 0) by (nonlinear_arith)
            requires
                a.len() == handshakes * n,
                handshakes == 0,
        ;
        assert(a + b =~= b);
        assert(batch_durations(a, n, iteration) + batch_durations(b, n, iteration)
            =~= batch_durations(b, n, iteration));
    } else {
        let fewer = (handshakes - 1) as nat;
        assert(handshakes * n == fewer * n + n) by (nonlinear_arith)
            requires
                handshakes == fewer + 1,
        ;
        assert(fewer * n >= 0) by (nonlinear_arith);
        let k = n as int;
        assert((a + b).take(k) =~= a.take(k));
        assert((a + b).skip(k) =~= a.skip(k) + b);
        lemma_batches_join(a.skip(k), fewer, b, n, iteration + 1);
        assert(iteration + 1 + fewer == iteration + handshakes);
        let rest = batch_durations(b, n, iteration + handshakes);
        assert(batch_durations(a + b, n, iteration) =~= batch_durations(a, n, iteration) + rest)
            by {
            let first = stream_durations(a.take(k), S2N_TLS@, iteration);
            let middle = batch_durations(a.skip(k), n, iteration + 1);
            if a.len() == n {
                assert(a.take(k) =~= a);
            }
            assert(batch_durations(a, n, iteration) =~= first + middle);
            if (a + b).len() == n {
                assert((a + b).take(k) =~= a + b);
                assert((a + b).skip(k).len() == 0);
            }
            assert(batch_durations(a + b, n, iteration) =~= first + (middle + rest));
        }
    }
}

/// Two buffers of s2n-tls handshakes of one length, joined, are measured like each of
/// them alone, and the handshakes of the second are numbered on. The second may end in
/// checkpoints that are left over.
pub proof fn lemma_s2n_buffers_join(
    a: Seq<CheckpointView>,
    a_iterations: nat,
    b: Seq<CheckpointView>,
    b_iterations: nat,
)
    requires
        a_iterations > 0,
        b_iterations > 0,
        a.len() == a_iterations * (b.len() / b_iterations),
    ensures
        s2n_durations(a + b, a_iterations + b_iterations) == s2n_durations(a, a_iterations)
            + renumbered(s2n_durations(b, b_iterations), a_iterations),
{
    let n = b.len() / b_iterations;
    let i = a_iterations;
    let j = b_iterations;
    assert(a.len() / i == n) by (nonlinear_arith)
        requires
            a.len() == i * n,
            i > 0,
    ;
    assert((a.len() + b.len()) / (i + j) == n) by {
        vstd::arithmetic::div_mod::lemma_fundamental_div_mod(b.len() as int, j as int);
        let rest = b.len() % j;
        assert(a.len() + b.len() == (i + j) * n + rest) by (nonlinear_arith)
            requires
                a.len() == i * n,
                b.len() == j * n + rest,
        ;
        vstd::arithmetic::div_mod::lemma_fundamental_div_mod_converse(
            (a.len() + b.len()) as int,
            (i + j) as int,
            n as int,
            rest as int,
        );
    }
    assert((a + b).len() == a.len() + b.len());
    if n > 0 {
        lemma_batches_join(a, i, b, n, 0);
        lemma_batches_renumbered(b, n, 0, i);
    } else {
        assert(s2n_durations(a, i) + renumbered(s2n_durations(b, j), i) =~= Seq::empty());
    }
}

proof fn lemma_side_ignores_epochs(streams: Seq<Seq<CheckpointView>>, epochs: Seq<nat>)
    requires
        fit_earlier_clocks(streams, epochs),
    ensures
        side_durations(on_earlier_clocks(streams, epochs)) == side_durations(streams),
    decreases streams.len(),
{
    if streams.len() > 0 {
        let n = streams.len() as int - 1;
        assert(on_earlier_clocks(streams, epochs).drop_last() =~= on_earlier_clocks(
            streams.drop_last(),
            epochs.drop_last(),
        ));
        assert forall|i: int| 0 <= i < n implies fits_earlier_clock(
            #[trigger] streams.drop_last()[i],
            epochs.drop_last()[i],
        ) by {
            assert(fits_earlier_clock(streams[i], epochs[i]));
        }
        lemma_side_ignores_epochs(streams.drop_last(), epochs.drop_last());
        assert(fits_earlier_clock(streams[n], epochs[n]));
        lemma_durations_ignore_epoch(streams[n], epochs[n], RUSTLS@, n as nat);
    }
}

/// The measurements of the rustls handshakes do not depend on when the clocks of the
/// single connections were started.
pub proof fn lemma_rustls_ignores_epochs(
    client_streams: Seq<Seq<CheckpointView>>,
    client_epochs: Seq<nat>,
    server_streams: Seq<Seq<CheckpointView>>,
    server_epochs: Seq<nat>,
)
    requires
        fit_earlier_clocks(client_streams, client_epochs),
        fit_earlier_clocks(server_streams, server_epochs),
    ensures
        rustls_durations(
            on_earlier_clocks(client_streams, client_epochs),
            on_earlier_clocks(server_streams, server_epochs),
        ) == rustls_durations(client_streams, server_streams),
{
    lemma_side_ignores_epochs(client_streams, client_epochs);
    lemma_side_ignores_epochs(server_streams, server_epochs);
}

/// No two checkpoints were emitted at the same time.
pub open spec fn has_distinct_times(s: Seq<CheckpointView>) -> bool {
    forall|a: int, b: int|
        0 <= a < s.len() && 0 <= b < s.len() && a != b ==> (#[trigger] s[a]).timestamp_ns != (
        #[trigger] s[b]).timestamp_ns
}

/// The two streams hold the same checkpoints, all at different times, in whatever
/// order they arrived.
pub open spec fn is_rearranged(s: Seq<CheckpointView>, t: Seq<CheckpointView>) -> bool {
    s.to_multiset() == t.to_multiset() && has_distinct_times(s) && has_distinct_times(t)
}

/// Two lines that run strictly forward and hold the same checkpoints are the same.
proof fn lemma_line_is_determined(s: Seq<CheckpointView>, t: Seq<CheckpointView>)
    requires
        s.to_multiset() == t.to_multiset(),
        forall|a: int, b: int|
            0 <= a < b < s.len() ==> (#[trigger] s[a]).timestamp_ns < (
            #[trigger] s[b]).timestamp_ns,
        forall|a: int, b: int|
            0 <= a < b < t.len() ==> (#[trigger] t[a]).timestamp_ns < (
            #[trigger] t[b]).timestamp_ns,
    ensures
        s == t,
    decreases s.len(),
{
    broadcast use vstd::seq_lib::group_to_multiset_ensures;

    assert(s.to_multiset().len() == s.len());
    assert(t.to_multiset().len() == t.len());
    if s.len() > 0 {
        let n = s.len() as int;
        assert(s.contains(s[n - 1]));
        assert(t.contains(t[n - 1]));
        assert(t.to_multiset().count(s.last()) > 0);
        assert(s.to_multiset().count(t.last()) > 0);
        assert(t.contains(s.last()));
        assert(s.contains(t.last()));
        let i = t.index_of(s.last());
        let j = s.index_of(t.last());
        assert(t[i] == s[n - 1]);
        assert(s[j] == t[n - 1]);
        if i < n - 1 {
            assert(t[i].timestamp_ns < t[n - 1].timestamp_ns);
        }
        if j < n - 1 {
            assert(s[j].timestamp_ns < s[n - 1].timestamp_ns);
        }
        assert(s.last() == t.last());
        assert(s =~= s.drop_last().push(s.last()));
        assert(t =~= t.drop_last().push(t.last()));
        assert(s.drop_last().to_multiset() =~= s.to_multiset().remove(s.last()));
        assert(t.drop_last().to_multiset() =~= t.to_multiset().remove(t.last()));
        lemma_line_is_determined(s.drop_last(), t.drop_last());
    }
}

/// With times that are all different, a timeline runs strictly forward.
proof fn lemma_timeline_is_strict(s: Seq<CheckpointView>)
    requires
        has_distinct_times(s),
    ensures
        forall|a: int, b: int|
            0 <= a < b < timeline(s).len() ==> (#[trigger] timeline(s)[a]).timestamp_ns < (
            #[trigger] timeline(s)[b]).timestamp_ns,
{
    let order = stable_order_of(times(s));
    lemma_stable_order_exists(times(s));
    assert forall|a: int, b: int| 0 <= a < b < timeline(s).len() implies (#[trigger] timeline(
        s,
    )[a]).timestamp_ns < (#[trigger] timeline(s)[b]).timestamp_ns by {
        assert(sorts_before(times(s), order[a], order[b]));
        assert(timeline(s)[a] == s[order[a]]);
        assert(timeline(s)[b] == s[order[b]]);
    }
}

/// The measurements of a stream do not depend on the order in which its checkpoints
/// arrived, as long as no two have the same time.
pub proof fn lemma_durations_ignore_arrival(
    s: Seq<CheckpointView>,
    t: Seq<CheckpointView>,
    implementation: Seq<char>,
    iteration: nat,
)
    requires
        is_rearranged(s, t),
    ensures
        stream_durations(s, implementation, iteration) == stream_durations(
            t,
            implementation,
            iteration,
        ),
{
    lemma_timeline_is_chronological(s);
    lemma_timeline_is_chronological(t);
    lemma_timeline_is_strict(s);
    lemma_timeline_is_strict(t);
    lemma_line_is_determined(timeline(s), timeline(t));
}

/// The streams of two lists hold the same checkpoints, stream by stream.
pub open spec fn are_rearranged(
    s: Seq<Seq<CheckpointView>>,
    t: Seq<Seq<CheckpointView>>,
) -> bool {
    &&& s.len() == t.len()
    &&& forall|i: int| 0 <= i < s.len() ==> is_rearranged(#[trigger] s[i], t[i])
}

proof fn lemma_numbered_ignore_arrival(
    s: Seq<Seq<CheckpointView>>,
    t: Seq<Seq<CheckpointView>>,
    iteration: nat,
)
    requires
        are_rearranged(s, t),
    ensures
        numbered_durations(s, iteration) == numbered_durations(t, iteration),
    decreases s.len(),
{
    if s.len() > 0 {
        assert(is_rearranged(s[0], t[0]));
        lemma_durations_ignore_arrival(s[0], t[0], S2N_TLS@, iteration);
        assert forall|i: int| 0 <= i < s.drop_first().len() implies is_rearranged(
            #[trigger] s.drop_first()[i],
            t.drop_first()[i],
        ) by {
            assert(is_rearranged(s[i + 1], t[i + 1]));
        }
        lemma_numbered_ignore_arrival(s.drop_first(), t.drop_first(), iteration + 1);
    }
}

/// The measurements of a buffer of s2n-tls handshakes do not depend on the order in which
/// the checkpoints of each handshake arrived.
pub proof fn lemma_s2n_ignores_arrival(
    s: Seq<Seq<CheckpointView>>,
    t: Seq<Seq<CheckpointView>>,
    iterations: nat,
)
    requires
        is_buffer(s, iterations),
        are_rearranged(s, t),
    ensures
        s2n_durations(s.flatten(), iterations) == s2n_durations(t.flatten(), iterations),
{
    broadcast use vstd::seq_lib::group_to_multiset_ensures;

    assert forall|i: int| 0 <= i < s.len() implies (#[trigger] s[i]).len() == t[i].len() by {
        assert(is_rearranged(s[i], t[i]));
        assert(s[i].to_multiset().len() == s[i].len());
        assert(t[i].to_multiset().len() == t[i].len());
    }
    lemma_same_cut(s, t, iterations);
    lemma_s2n_measures_each_handshake(s, iterations);
    lemma_s2n_measures_each_handshake(t, iterations);
    lemma_numbered_ignore_arrival(s, t, 0);
}

proof fn lemma_side_ignores_arrival(s: Seq<Seq<CheckpointView>>, t: Seq<Seq<CheckpointView>>)
    requires
        are_rearranged(s, t),
    ensures
        side_durations(s) == side_durations(t),
    decreases s.len(),
{
    if s.len() > 0 {
        let n = s.len() as int - 1;
        assert forall|i: int| 0 <= i < n implies is_rearranged(
            #[trigger] s.drop_last()[i],
            t.drop_last()[i],
        ) by {
            assert(is_rearranged(s[i], t[i]));
        }
        lemma_side_ignores_arrival(s.drop_last(), t.drop_last());
        assert(is_rearranged(s[n], t[n]));
        lemma_durations_ignore_arrival(s[n], t[n], RUSTLS@, n as nat);
    }
}

/// The measurements of the rustls handshakes do not depend on the order in which the
/// checkpoints of each connection arrived.
pub proof fn lemma_rustls_ignores_arrival(
    clients: Seq<Seq<CheckpointView>>,
    clients_rearranged: Seq<Seq<CheckpointView>>,
    servers: Seq<Seq<CheckpointView>>,
    servers_rearranged: Seq<Seq<CheckpointView>>,
)
    requires
        are_rearranged(clients, clients_rearranged),
        are_rearranged(servers, servers_rearranged),
    ensures
        rustls_durations(clients, servers) == rustls_durations(
            clients_rearranged,
            servers_rearranged,
        ),
{
    lemma_side_ignores_arrival(clients, clients_rearranged);
    lemma_side_ignores_arrival(servers, servers_rearranged);
}

} // verus!

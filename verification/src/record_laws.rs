//! What each single record says, and of which checkpoint.

use crate::checkpoint::{timeline, times, CheckpointView};
use crate::durations::{
    batch_durations, deltas, measurement_views, rustls_durations, s2n_durations, side_durations,
    stream_durations, MeasurementRecord, MeasurementView, NEGOTIATE_START,
};
use crate::order::{is_stable_order, lemma_arranged_by_rank, lemma_stable_order_found};
use vstd::prelude::*;

verus! {

/// What is said of measurements is what their fields hold, each in its place.
pub proof fn lemma_measurements_are_seen_as_they_are(s: Seq<MeasurementRecord>, i: int)
    requires
        0 <= i < s.len(),
    ensures
        measurement_views(s).len() == s.len(),
        measurement_views(s)[i].implementation == s[i].implementation@,
        measurement_views(s)[i].handshake_type == s[i].handshake_type@,
        measurement_views(s)[i].iteration == s[i].iteration,
        measurement_views(s)[i].message_name == s[i].message_name@,
        measurement_views(s)[i].role == s[i].role@,
        measurement_views(s)[i].duration_ns == s[i].duration_ns,
{
}

/// The records along a line: the places of the checkpoints that they belong to.
proof fn lemma_records_along_a_line(
    line: Seq<CheckpointView>,
    implementation: Seq<char>,
    iteration: nat,
) -> (places: Seq<int>)
    requires
        forall|a: int, b: int|
            0 <= a < b < line.len() ==> (#[trigger] line[a]).timestamp_ns <= (
            #[trigger] line[b]).timestamp_ns,
    ensures
        places.len() == deltas(line, implementation, iteration).len(),
        forall|i: int|
            0 <= i < places.len() ==> 1 <= #[trigger] places[i] < line.len()
                && line[places[i]].name != NEGOTIATE_START@,
        forall|i: int, j: int|
            0 <= i < j < places.len() ==> #[trigger] places[i] < #[trigger] places[j],
        forall|k: int|
            1 <= k < line.len() && (#[trigger] line[k]).name != NEGOTIATE_START@
                ==> places.contains(k),
        forall|i: int|
            0 <= i < places.len() ==> {
                let r = #[trigger] deltas(line, implementation, iteration)[i];
                &&& r.implementation == implementation
                &&& r.handshake_type == "tls13_full"@
                &&& r.iteration == iteration
                &&& r.message_name == line[places[i]].name
                &&& r.role == line[places[i]].role
                &&& r.duration_ns == line[places[i]].timestamp_ns - line[places[i]
                    - 1].timestamp_ns
            },
    decreases line.len(),
{
    if line.len() < 2 {
        Seq::empty()
    } else {
        let n = line.len() as int;
        let shorter = line.drop_last();
        let before = lemma_records_along_a_line(shorter, implementation, iteration);
        assert(line[n - 2].timestamp_ns <= line[n - 1].timestamp_ns);
        assert(line.last() == line[n - 1]);
        let places = if line.last().name == NEGOTIATE_START@ {
            before
        } else {
            before.push(n - 1)
        };
        assert forall|k: int|
            1 <= k < n && (#[trigger] line[k]).name != NEGOTIATE_START@ implies places.contains(
            k,
        ) by {
            if k < n - 1 {
                assert(shorter[k] == line[k]);
                assert(before.contains(k));
                let i = before.index_of(k);
                assert(places[i] == k);
            } else {
                assert(places[places.len() - 1] == k);
            }
        }
        assert forall|i: int| 0 <= i < places.len() implies {
            let r = #[trigger] deltas(line, implementation, iteration)[i];
            &&& r.implementation == implementation
            &&& r.handshake_type == "tls13_full"@
            &&& r.iteration == iteration
            &&& r.message_name == line[places[i]].name
            &&& r.role == line[places[i]].role
            &&& r.duration_ns == line[places[i]].timestamp_ns - line[places[i] - 1].timestamp_ns
        } by {
            if i < before.len() {
                assert(deltas(line, implementation, iteration)[i] == deltas(
                    shorter,
                    implementation,
                    iteration,
                )[i]);
                assert(1 <= before[i] < n - 1);
            }
        }
        places
    }
}

/// Rank the checkpoints of a stream by their time, and by their arrival where times are
/// equal. Then each checkpoint behind the first that is not a `NEGOTIATE_START` has one
/// record, in the order of the ranks, and there are no other records. A record has the
/// name and the role of the very checkpoint it belongs to, and its duration is the time
/// from the checkpoint of the rank just before.
pub proof fn lemma_each_record_belongs_to_its_checkpoint(
    stream: Seq<CheckpointView>,
    rank: Seq<int>,
    implementation: Seq<char>,
    iteration: nat,
) -> (places: Seq<int>)
    requires
        rank.len() == stream.len(),
        forall|a: int| 0 <= a < rank.len() ==> 0 <= #[trigger] rank[a] < stream.len(),
        forall|a: int, b: int|
            0 <= a < b < rank.len() ==> {
                ||| stream[#[trigger] rank[a]].timestamp_ns < stream[
                #[trigger] rank[b]].timestamp_ns
                ||| stream[rank[a]].timestamp_ns == stream[rank[b]].timestamp_ns && rank[a]
                    < rank[b]
            },
    ensures
        places.len() == stream_durations(stream, implementation, iteration).len(),
        forall|i: int|
            0 <= i < places.len() ==> 1 <= #[trigger] places[i] < rank.len()
                && stream[rank[places[i]]].name != "NEGOTIATE_START"@,
        forall|i: int, j: int|
            0 <= i < j < places.len() ==> #[trigger] places[i] < #[trigger] places[j],
        forall|k: int|
            1 <= k < rank.len() && stream[#[trigger] rank[k]].name != "NEGOTIATE_START"@
                ==> places.contains(k),
        forall|i: int|
            0 <= i < places.len() ==> {
                let r = #[trigger] stream_durations(stream, implementation, iteration)[i];
                &&& r.implementation == implementation
                &&& r.handshake_type == "tls13_full"@
                &&& r.iteration == iteration
                &&& r.message_name == stream[rank[places[i]]].name
                &&& r.role == stream[rank[places[i]]].role
                &&& r.duration_ns == stream[rank[places[i]]].timestamp_ns - stream[rank[places[i]
                    - 1]].timestamp_ns
            },
{
    let line = timeline(stream);
    assert(is_stable_order(times(stream), rank)) by {
        assert forall|a: int, b: int| 0 <= a < b < rank.len() implies crate::order::sorts_before(
            times(stream),
            #[trigger] rank[a],
            #[trigger] rank[b],
        ) by {
            assert(stream[rank[a]].timestamp_ns <= stream[rank[b]].timestamp_ns);
        }
    }
    lemma_stable_order_found(times(stream), rank);
    assert forall|a: int| 0 <= a < rank.len() implies #[trigger] line[a] == stream[rank[a]] by {}
    assert forall|a: int, b: int| 0 <= a < b < line.len() implies (#[trigger] line[a]).timestamp_ns
        <= (#[trigger] line[b]).timestamp_ns by {
        assert(stream[rank[a]].timestamp_ns <= stream[rank[b]].timestamp_ns);
    }
    let places = lemma_records_along_a_line(line, implementation, iteration);
    assert forall|i: int| 0 <= i < places.len() implies 1 <= #[trigger] places[i] < rank.len()
        && stream[rank[places[i]]].name != "NEGOTIATE_START"@ by {
        assert(line[places[i]] == stream[rank[places[i]]]);
    }
    assert forall|k: int|
        1 <= k < rank.len() && stream[#[trigger] rank[k]].name
            != "NEGOTIATE_START"@ implies places.contains(k) by {
        assert(line[k] == stream[rank[k]]);
    }
    assert forall|i: int| 0 <= i < places.len() implies {
        let r = #[trigger] stream_durations(stream, implementation, iteration)[i];
        &&& r.implementation == implementation
        &&& r.handshake_type == "tls13_full"@
        &&& r.iteration == iteration
        &&& r.message_name == stream[rank[places[i]]].name
        &&& r.role == stream[rank[places[i]]].role
        &&& r.duration_ns == stream[rank[places[i]]].timestamp_ns - stream[rank[places[i]
            - 1]].timestamp_ns
    } by {
        assert(1 <= places[i] < rank.len());
        assert(line[places[i]] == stream[rank[places[i]]]);
        assert(line[places[i] - 1] == stream[rank[places[i] - 1]]);
    }
    places
}

/// Every stream can be ranked by time, and by arrival where times are equal.
pub proof fn lemma_every_stream_has_a_rank(stream: Seq<CheckpointView>) -> (rank: Seq<int>)
    ensures
        rank.len() == stream.len(),
        forall|a: int| 0 <= a < rank.len() ==> 0 <= #[trigger] rank[a] < stream.len(),
        forall|a: int, b: int|
            0 <= a < b < rank.len() ==> {
                ||| stream[#[trigger] rank[a]].timestamp_ns < stream[
                #[trigger] rank[b]].timestamp_ns
                ||| stream[rank[a]].timestamp_ns == stream[rank[b]].timestamp_ns && rank[a]
                    < rank[b]
            },
{
    let keys = Seq::new(stream.len(), |i: int| stream[i].timestamp_ns);
    let rank = lemma_arranged_by_rank(keys, keys);
    assert forall|a: int, b: int| 0 <= a < b < rank.len() implies {
        ||| stream[#[trigger] rank[a]].timestamp_ns < stream[#[trigger] rank[b]].timestamp_ns
        ||| stream[rank[a]].timestamp_ns == stream[rank[b]].timestamp_ns && rank[a] < rank[b]
    } by {
        assert(keys[rank[a]] <= keys[rank[b]]);
    }
    rank
}

/// All records of one stream carry its iteration number.
proof fn lemma_stream_has_one_number(
    stream: Seq<CheckpointView>,
    implementation: Seq<char>,
    iteration: nat,
)
    ensures
        forall|i: int|
            0 <= i < stream_durations(stream, implementation, iteration).len() ==> (
            #[trigger] stream_durations(stream, implementation, iteration)[i]).iteration
                == iteration,
{
    let rank = lemma_every_stream_has_a_rank(stream);
    let places = lemma_each_record_belongs_to_its_checkpoint(
        stream,
        rank,
        implementation,
        iteration,
    );
}

/// One more client handshake adds its own records behind those of the ones before, and
/// they carry its number; so does one more server stream.
pub proof fn lemma_one_more_rustls_handshake(
    streams: Seq<Seq<CheckpointView>>,
    stream: Seq<CheckpointView>,
)
    ensures
        rustls_durations(Seq::empty(), Seq::empty()) == Seq::<MeasurementView>::empty(),
        rustls_durations(streams.push(stream), Seq::empty()) == rustls_durations(
            streams,
            Seq::empty(),
        ) + stream_durations(stream, "rustls"@, streams.len()),
        rustls_durations(Seq::empty(), streams.push(stream)) == rustls_durations(
            Seq::empty(),
            streams,
        ) + stream_durations(stream, "rustls"@, streams.len()),
        forall|i: int|
            0 <= i < stream_durations(stream, "rustls"@, streams.len()).len() ==> (
            #[trigger] stream_durations(stream, "rustls"@, streams.len())[i]).iteration
                == streams.len(),
{
    let none = Seq::<Seq<CheckpointView>>::empty();
    assert(side_durations(none) =~= Seq::empty());
    assert(streams.push(stream).drop_last() =~= streams);
    lemma_stream_has_one_number(stream, "rustls"@, streams.len());
    assert(rustls_durations(none, none) =~= Seq::empty());
    assert(rustls_durations(streams.push(stream), none) =~= rustls_durations(streams, none)
        + stream_durations(stream, "rustls"@, streams.len()));
    assert(rustls_durations(none, streams.push(stream)) =~= rustls_durations(none, streams)
        + stream_durations(stream, "rustls"@, streams.len()));
}

proof fn lemma_filter_keeps_all(r: Seq<MeasurementView>, k: nat)
    requires
        forall|i: int| 0 <= i < r.len() ==> (#[trigger] r[i]).iteration == k,
    ensures
        r.filter(|m: MeasurementView| m.iteration == k) == r,
    decreases r.len(),
{
    reveal(Seq::filter);
    if r.len() > 0 {
        lemma_filter_keeps_all(r.drop_last(), k);
        assert(r.drop_last().push(r.last()) =~= r);
    }
}

proof fn lemma_filter_keeps_none(r: Seq<MeasurementView>, k: nat)
    requires
        forall|i: int| 0 <= i < r.len() ==> (#[trigger] r[i]).iteration != k,
    ensures
        r.filter(|m: MeasurementView| m.iteration == k) == Seq::<MeasurementView>::empty(),
    decreases r.len(),
{
    reveal(Seq::filter);
    if r.len() > 0 {
        lemma_filter_keeps_none(r.drop_last(), k);
    }
}

/// The records of the batches of a buffer, numbered from `first` on.
proof fn lemma_numbers_of_batches(cs: Seq<CheckpointView>, n: nat, first: nat)
    requires
        n > 0,
    ensures
        ({
            let r = batch_durations(cs, n, first);
            &&& forall|i: int|
                0 <= i < r.len() ==> first <= (#[trigger] r[i]).iteration && (r[i].iteration
                    - first) * n < cs.len()
            &&& forall|i: int, j: int|
                0 <= i < j < r.len() ==> (#[trigger] r[i]).iteration <= (#[trigger] r[j]).iteration
        }),
    decreases cs.len(),
{
    if cs.len() > 0 {
        let k = if n < cs.len() {
            n as int
        } else {
            cs.len() as int
        };
        let head = stream_durations(cs.take(k), crate::durations::S2N_TLS@, first);
        let rest = batch_durations(cs.skip(k), n, first + 1);
        lemma_stream_has_one_number(cs.take(k), crate::durations::S2N_TLS@, first);
        lemma_numbers_of_batches(cs.skip(k), n, first + 1);
        let r = batch_durations(cs, n, first);
        assert(r =~= head + rest);
        assert forall|i: int| 0 <= i < r.len() implies first <= (#[trigger] r[i]).iteration && (
        r[i].iteration - first) * n < cs.len() by {
            if i < head.len() {
                assert(r[i] == head[i]);
                assert((r[i].iteration - first) * n == 0) by (nonlinear_arith)
                    requires
                        r[i].iteration - first == 0,
                ;
            } else {
                assert(r[i] == rest[i - head.len()]);
                let d = r[i].iteration - first - 1;
                assert(cs.skip(k).len() > 0) by {
                    assert(0 <= d * n) by (nonlinear_arith)
                        requires
                            d >= 0,
                    ;
                }
                assert((d + 1) * n == d * n + n) by (nonlinear_arith);
            }
        }
        assert forall|i: int, j: int| 0 <= i < j < r.len() implies (#[trigger] r[i]).iteration <= (
        #[trigger] r[j]).iteration by {
            if i < head.len() {
                assert(r[i] == head[i]);
                if j >= head.len() {
                    assert(r[j] == rest[j - head.len()]);
                } else {
                    assert(r[j] == head[j]);
                }
            } else {
                assert(r[i] == rest[i - head.len()]);
                assert(r[j] == rest[j - head.len()]);
            }
        }
    }
}

/// The records with one number are those of its batch.
proof fn lemma_batch_of_a_number(cs: Seq<CheckpointView>, n: nat, first: nat, k: nat)
    requires
        n > 0,
        k * n < cs.len(),
    ensures
        batch_durations(cs, n, first).filter(|m: MeasurementView| m.iteration == first + k)
            == stream_durations(
            cs.subrange(
                (k * n) as int,
                if (k + 1) * n < cs.len() {
                    ((k + 1) * n) as int
                } else {
                    cs.len() as int
                },
            ),
            "s2n-tls"@,
            first + k,
        ),
    decreases k,
{
    let size = if n < cs.len() {
        n as int
    } else {
        cs.len() as int
    };
    assert(cs.len() > 0) by {
        assert(0 <= k * n) by (nonlinear_arith);
    }
    let pred = |m: MeasurementView| m.iteration == first + k;
    let head = stream_durations(cs.take(size), "s2n-tls"@, first);
    let rest = batch_durations(cs.skip(size), n, first + 1);
    assert(batch_durations(cs, n, first) =~= head + rest);
    Seq::filter_distributes_over_add(head, rest, pred);
    lemma_stream_has_one_number(cs.take(size), "s2n-tls"@, first);
    lemma_numbers_of_batches(cs.skip(size), n, first + 1);
    if k == 0 {
        assert(k * n == 0) by (nonlinear_arith)
            requires
                k == 0,
        ;
        assert((k + 1) * n == n) by (nonlinear_arith)
            requires
                k == 0,
        ;
        lemma_filter_keeps_all(head, first);
        lemma_filter_keeps_none(rest, first);
        assert(pred =~= |m: MeasurementView| m.iteration == first);
        assert(cs.subrange(0, size) =~= cs.take(size));
        assert(head.filter(pred) + rest.filter(pred) =~= head);
    } else {
        let j = (k - 1) as nat;
        assert(k * n == j * n + n) by (nonlinear_arith)
            requires
                k == j + 1,
        ;
        assert((k + 1) * n == (j + 1) * n + n) by (nonlinear_arith)
            requires
                k == j + 1,
        ;
        assert(0 <= j * n) by (nonlinear_arith);
        lemma_filter_keeps_none(head, first + k);
        lemma_batch_of_a_number(cs.skip(size), n, first + 1, j);
        assert(pred =~= |m: MeasurementView| m.iteration == first + 1 + j);
        let rest_cs = cs.skip(size);
        let to = if (k + 1) * n < cs.len() {
            ((k + 1) * n) as int
        } else {
            cs.len() as int
        };
        let rest_to = if (j + 1) * n < rest_cs.len() {
            ((j + 1) * n) as int
        } else {
            rest_cs.len() as int
        };
        assert(rest_to + n == to);
        assert(rest_cs.subrange((j * n) as int, rest_to) =~= cs.subrange((k * n) as int, to));
        assert(head.filter(pred) + rest.filter(pred) =~= rest.filter(pred));
    }
}

/// A buffer of checkpoints is cut into handshakes of `checkpoints.len() / iterations`
/// each, what is left over forming further ones. The records that carry the number `k`
/// are those of the `k`-th handshake, all of them and in their order; the numbers
/// ascend, and there is none without a handshake.
pub proof fn lemma_records_of_a_number_are_of_its_handshake(
    checkpoints: Seq<CheckpointView>,
    iterations: nat,
    n: nat,
    k: nat,
)
    requires
        iterations > 0,
        n == checkpoints.len() / iterations,
        k * n < checkpoints.len(),
    ensures
        n > 0 ==> s2n_durations(checkpoints, iterations).filter(
            |m: MeasurementView| m.iteration == k,
        ) == stream_durations(
            checkpoints.subrange(
                (k * n) as int,
                if (k + 1) * n < checkpoints.len() {
                    ((k + 1) * n) as int
                } else {
                    checkpoints.len() as int
                },
            ),
            "s2n-tls"@,
            k,
        ),
        n > 0 ==> forall|i: int|
            0 <= i < s2n_durations(checkpoints, iterations).len() ==> (
            #[trigger] s2n_durations(checkpoints, iterations)[i]).iteration * n
                < checkpoints.len(),
        n > 0 ==> forall|i: int, j: int|
            0 <= i < j < s2n_durations(checkpoints, iterations).len() ==> (
            #[trigger] s2n_durations(checkpoints, iterations)[i]).iteration <= (
            #[trigger] s2n_durations(checkpoints, iterations)[j]).iteration,
        n == 0 ==> s2n_durations(checkpoints, iterations).len() == 0,
{
    if n > 0 {
        lemma_batch_of_a_number(checkpoints, n, 0, k);
        assert((|m: MeasurementView| m.iteration == 0 + k) =~= (|m: MeasurementView|
            m.iteration == k));
        lemma_numbers_of_batches(checkpoints, n, 0);
        let r = s2n_durations(checkpoints, iterations);
        assert forall|i: int| 0 <= i < r.len() implies (#[trigger] r[i]).iteration * n
            < checkpoints.len() by {
            assert((r[i].iteration - 0) * n == r[i].iteration * n);
        }
    }
}

/// Without iterations, or without checkpoints, nothing is measured.
pub proof fn lemma_nothing_comes_of_nothing(checkpoints: Seq<CheckpointView>, iterations: nat)
    ensures
        s2n_durations(checkpoints, 0).len() == 0,
        s2n_durations(Seq::empty(), iterations).len() == 0,
{
}

} // verus!

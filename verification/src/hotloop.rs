//! The hot loop: handshakes of one implementation, one after the other, for a fixed
//! time. It keeps no books but a count, so that a profile of it shows the handshakes
//! alone.

use crate::certs::{generate_certs, plan_for, some_certs_made, CertError, CertMaterial};
use crate::cli::Implementation;
use crate::clock::{add_seconds, earlier, is_earlier, seconds_after};
use crate::keys::KeyLog;
use crate::rustls_run::{build_rustls_configs, rustls_configs_give, RustlsConfigError};
use crate::s2n_run::{build_s2n_configs, s2n_configs_give, S2nConfigError};
use crate::workload::{read_clock, Event, FailedHandshake, Journal, Workload};
use vstd::prelude::*;

verus! {

/// The handshakes that are run and not counted, before anything is measured.
pub const WARMUP_HANDSHAKES: u64 = 200;

/// The handshakes between two looks at the clock.
pub const BATCH_HANDSHAKES: u64 = 50;

/// `n` handshakes of the workload that went well.
pub open spec fn successes(workload: Workload, n: nat) -> Seq<Event> {
    Seq::new(n, |i: int| Event::Handshake(workload, Ok(())))
}

/// `k` handshakes of the workload that went well, and then one that failed with `e`.
pub open spec fn failure_after(workload: Workload, k: nat, e: FailedHandshake) -> Seq<Event> {
    successes(workload, k).push(Event::Handshake(workload, Err(e)))
}

/// Of `n` handshakes that were to be run behind `before`, one failed with `e`, and it
/// was the last one run.
pub open spec fn failed_within(
    workload: Workload,
    n: nat,
    e: FailedHandshake,
    before: Seq<Event>,
    after: Seq<Event>,
) -> bool {
    exists|k: nat| k < n && after == before + #[trigger] failure_after(workload, k, e)
}

impl Workload {
    /// Runs `n` handshakes, or as many as it takes for one to fail.
    pub fn repeat(&self, n: u64, journal: &mut Journal) -> (r: Result<(), FailedHandshake>)
        requires
            self.is_ready(),
        ensures
            n == 0 ==> r is Ok,
            n > 0 ==> self.gives(r),
            match r {
                Ok(()) => final(journal)@ == old(journal)@ + successes(*self, n as nat),
                Err(e) => failed_within(*self, n as nat, e, old(journal)@, final(journal)@),
            },
            final(journal)@.len() >= old(journal)@.len(),
            final(journal)@.take(old(journal)@.len() as int) == old(journal)@,
            r is Ok ==> final(journal)@.len() == old(journal)@.len() + n,
            r is Ok ==> forall|i: int|
                old(journal)@.len() <= i < final(journal)@.len() ==> #[trigger] final(journal)@[i]
                    == Event::Handshake(*self, Ok(())),
            r matches Err(e) ==> {
                &&& old(journal)@.len() < final(journal)@.len() <= old(journal)@.len() + n
                &&& final(journal)@.last() == Event::Handshake(*self, Err(e))
                &&& forall|i: int|
                    old(journal)@.len() <= i < final(journal)@.len() - 1 ==>
                        #[trigger] final(journal)@[i] == Event::Handshake(*self, Ok(()))
            },
    {
        let mut done: u64 = 0;
        assert(journal@ =~= old(journal)@ + successes(*self, 0));
        assert(journal@.take(old(journal)@.len() as int) =~= old(journal)@);
        while done < n
            invariant
                done <= n,
                self.is_ready(),
                done > 0 ==> self.gives(Ok(())),
                journal@ == old(journal)@ + successes(*self, done as nat),
                journal@.len() == old(journal)@.len() + done,
                journal@.take(old(journal)@.len() as int) == old(journal)@,
                forall|i: int|
                    old(journal)@.len() <= i < journal@.len() ==> #[trigger] journal@[i]
                        == Event::Handshake(*self, Ok(())),
            decreases n - done,
        {
            let ghost now = journal@;
            match self.handshake(journal) {
                Ok(one) => {
                    assert(journal@.take(old(journal)@.len() as int) =~= now.take(
                        old(journal)@.len() as int,
                    ));
                    assert(one == ());
                    assert(journal@ =~= old(journal)@ + successes(*self, done as nat + 1));
                },
                Err(e) => {
                    assert(journal@.take(old(journal)@.len() as int) =~= now.take(
                        old(journal)@.len() as int,
                    ));
                    assert(journal@ =~= old(journal)@ + failure_after(*self, done as nat, e));
                    return Err(e);
                },
            }
            done = done + 1;
        }
        Ok(())
    }
}

/// Why there is no workload.
#[derive(Debug)]
pub enum WorkloadError {
    /// There is no implementation of that name; holds what to tell the user.
    Unknown(String),
    /// s2n-tls could not be configured.
    S2nTls(S2nConfigError),
    /// rustls could not be configured.
    Rustls(RustlsConfigError),
}

proof fn lemma_names_differ()
    ensures
        "s2n-tls"@ != "rustls"@,
{
    reveal_strlit("s2n-tls");
    reveal_strlit("rustls");
    assert("s2n-tls"@.len() != "rustls"@.len());
}

/// `r` can be the result of configuring the named implementation for the material.
pub open spec fn workload_gives(
    implementation: Seq<char>,
    certs: CertMaterial,
    r: Result<Workload, WorkloadError>,
) -> bool {
    if implementation == Implementation::S2nTls.spec_name() {
        match r {
            Ok(Workload::S2nTls(client, server)) => s2n_configs_give(certs, Ok((client, server))),
            Err(WorkloadError::S2nTls(e)) => s2n_configs_give(certs, Err(e)),
            _ => false,
        }
    } else if implementation == Implementation::Rustls.spec_name() {
        match r {
            Ok(Workload::Rustls(client, server)) => rustls_configs_give(
                certs,
                Ok((client, server)),
            ),
            Err(WorkloadError::Rustls(e)) => rustls_configs_give(certs, Err(e)),
            _ => false,
        }
    } else {
        r matches Err(WorkloadError::Unknown(message)) && message@ == "Unknown implementation: "@
            + implementation + ". Use: s2n-tls|rustls"@
    }
}

/// Configures the named implementation for the material.
pub fn workload_for(implementation: &str, certs: &CertMaterial) -> (r: Result<
    Workload,
    WorkloadError,
>)
    ensures
        workload_gives(implementation@, *certs, r),
        r matches Ok(workload) ==> workload.is_ready(),
        implementation@ == "s2n-tls"@ ==> match r {
            Ok(workload) => workload matches Workload::S2nTls(client, server) && s2n_configs_give(
                *certs,
                Ok((client, server)),
            ),
            Err(e) => e matches WorkloadError::S2nTls(e) && s2n_configs_give(*certs, Err(e)),
        },
        implementation@ == "rustls"@ ==> match r {
            Ok(workload) => workload matches Workload::Rustls(client, server)
                && rustls_configs_give(*certs, Ok((client, server))),
            Err(e) => e matches WorkloadError::Rustls(e) && rustls_configs_give(*certs, Err(e)),
        },
        implementation@ != "s2n-tls"@ && implementation@ != "rustls"@ ==> (r matches Err(
            WorkloadError::Unknown(message),
        ) && message@ == "Unknown implementation: "@ + implementation@ + ". Use: s2n-tls|rustls"@),
{
    proof {
        lemma_names_differ();
    }
    match Implementation::from_name(implementation) {
        Ok(Implementation::S2nTls) => match build_s2n_configs(certs) {
            Ok((client, server)) => Ok(Workload::S2nTls(client, server)),
            Err(e) => Err(WorkloadError::S2nTls(e)),
        },
        Ok(Implementation::Rustls) => match build_rustls_configs(certs) {
            Ok((client, server)) => Ok(Workload::Rustls(client, server)),
            Err(e) => Err(WorkloadError::Rustls(e)),
        },
        Err(message) => Err(WorkloadError::Unknown(message)),
    }
}

/// What to do after a look at the clock.
#[derive(Clone, Copy, Debug, PartialEq, Eq, Structural)]
pub enum LoopStep {
    /// Run a batch; holds the number of handshakes after it.
    Batch(u64),
    /// The deadline has passed.
    Stop,
    /// The count would not fit after another batch.
    Overflow,
}

/// Decides what to do after a look at the clock, from whether the deadline is still
/// ahead and from the number of handshakes so far.
pub fn next_step(handshakes: u64, before_deadline: bool) -> (r: LoopStep)
    ensures
        !before_deadline ==> r == LoopStep::Stop,
        before_deadline && handshakes + BATCH_HANDSHAKES <= u64::MAX ==> r == LoopStep::Batch(
            (handshakes + BATCH_HANDSHAKES) as u64,
        ),
        before_deadline && handshakes + BATCH_HANDSHAKES > u64::MAX ==> r == LoopStep::Overflow,
{
    if !before_deadline {
        LoopStep::Stop
    } else if handshakes <= u64::MAX - BATCH_HANDSHAKES {
        LoopStep::Batch(handshakes + BATCH_HANDSHAKES)
    } else {
        LoopStep::Overflow
    }
}

/// A finished hot loop: when the measured part began, and the handshakes in it.
pub struct HotLoop {
    pub start: std::time::Instant,
    pub handshakes: u64,
}

/// Why a hot loop ended early.
#[derive(Debug)]
pub enum HotLoopError {
    /// The certificates could not be made.
    Certs(CertError),
    /// The implementation is not known or could not be configured.
    Workload(WorkloadError),
    /// The deadline lies further ahead than the clock reaches.
    Deadline,
    /// A handshake failed.
    Handshake(FailedHandshake),
    /// There were more handshakes than can be counted.
    Overflow,
}

/// What is done behind the warm-up, up to the last of these readings of the clock: the
/// first reading, and then each time a batch that went well and the next reading.
pub open spec fn measured(workload: Workload, readings: Seq<std::time::Instant>) -> Seq<Event>
    decreases readings.len(),
{
    if readings.len() == 0 {
        Seq::empty()
    } else if readings.len() == 1 {
        seq![Event::Reading(readings[0])]
    } else {
        measured(workload, readings.drop_last()) + successes(
            workload,
            BATCH_HANDSHAKES as nat,
        ).push(Event::Reading(readings.last()))
    }
}

/// The warm-up, and what is done behind it up to the last of these readings.
pub open spec fn warmed_up_and_measured(
    workload: Workload,
    readings: Seq<std::time::Instant>,
) -> Seq<Event> {
    successes(workload, WARMUP_HANDSHAKES as nat) + measured(workload, readings)
}

/// The time of a loop of `secs` seconds that began at the first of these readings is
/// up at `now`.
pub open spec fn is_up(
    readings: Seq<std::time::Instant>,
    secs: u64,
    now: std::time::Instant,
) -> bool {
    seconds_after(readings[0], secs) matches Some(deadline) && !earlier(now, deadline)
}

/// There is a first reading, the deadline `secs` seconds behind it can be represented,
/// and the first `n` readings are all before that deadline.
pub open spec fn are_in_time(readings: Seq<std::time::Instant>, secs: u64, n: int) -> bool {
    &&& 0 < readings.len()
    &&& n <= readings.len()
    &&& seconds_after(readings[0], secs) matches Some(deadline) && forall|i: int|
        0 <= i < n ==> earlier(#[trigger] readings[i], deadline)
}

/// The loop ran until its time was up: it read the clock behind the warm-up, and
/// behind each batch, until a reading was not before the deadline.
pub open spec fn ran_its_time(
    workload: Workload,
    secs: u64,
    before: Seq<Event>,
    after: Seq<Event>,
    run: HotLoop,
) -> bool {
    exists|readings: Seq<std::time::Instant>|
        {
            &&& are_in_time(readings, secs, readings.len() - 1)
            &&& is_up(readings, secs, readings.last())
            &&& run.start == readings[0]
            &&& run.handshakes == BATCH_HANDSHAKES * (readings.len() - 1)
            &&& after == before + #[trigger] warmed_up_and_measured(workload, readings)
        }
}

/// The first reading behind the warm-up is so late that the deadline cannot be
/// represented.
pub open spec fn has_no_deadline(
    workload: Workload,
    secs: u64,
    before: Seq<Event>,
    after: Seq<Event>,
) -> bool {
    exists|start: std::time::Instant|
        {
            &&& seconds_after(start, secs) is None
            &&& after == before + #[trigger] warmed_up_and_measured(workload, seq![start])
        }
}

/// All readings were before the deadline, and another batch behind them could not be
/// counted.
pub open spec fn overflowed(
    workload: Workload,
    secs: u64,
    before: Seq<Event>,
    after: Seq<Event>,
) -> bool {
    exists|readings: Seq<std::time::Instant>|
        {
            &&& are_in_time(readings, secs, readings.len() as int)
            &&& BATCH_HANDSHAKES * readings.len() > u64::MAX
            &&& after == before + #[trigger] warmed_up_and_measured(workload, readings)
        }
}

/// All readings were before the deadline, and in the batch behind the last of them a
/// handshake failed with `e`.
pub open spec fn batch_failed(
    workload: Workload,
    secs: u64,
    e: FailedHandshake,
    before: Seq<Event>,
    after: Seq<Event>,
) -> bool {
    exists|readings: Seq<std::time::Instant>|
        {
            &&& are_in_time(readings, secs, readings.len() as int)
            &&& failed_within(
                workload,
                BATCH_HANDSHAKES as nat,
                e,
                before + #[trigger] warmed_up_and_measured(workload, readings),
                after,
            )
        }
}

/// What a hot loop of `secs` seconds can do to the journal, and what it returns then.
pub open spec fn hot_loop_gives(
    workload: Workload,
    secs: u64,
    before: Seq<Event>,
    after: Seq<Event>,
    r: Result<HotLoop, HotLoopError>,
) -> bool {
    match r {
        Ok(run) => {
            &&& ran_its_time(workload, secs, before, after, run)
            &&& workload.gives(Ok(()))
            &&& run.handshakes % BATCH_HANDSHAKES == 0
            &&& secs == 0 ==> run.handshakes == 0
            &&& secs > 0 ==> run.handshakes >= BATCH_HANDSHAKES
        },
        Err(HotLoopError::Deadline) => secs > 0 && has_no_deadline(workload, secs, before, after),
        Err(HotLoopError::Handshake(e)) => {
            &&& workload.gives(Err(e))
            &&& {
                ||| failed_within(workload, WARMUP_HANDSHAKES as nat, e, before, after)
                ||| batch_failed(workload, secs, e, before, after)
            }
        },
        Err(HotLoopError::Overflow) => overflowed(workload, secs, before, after),
        _ => false,
    }
}

/// Warms the workload up, and then runs handshakes in batches for `secs` seconds, the
/// last batch to its end.
pub fn run_for(workload: &Workload, secs: u64, journal: &mut Journal) -> (r: Result<
    HotLoop,
    HotLoopError,
>)
    requires
        workload.is_ready(),
    ensures
        hot_loop_gives(*workload, secs, old(journal)@, final(journal)@, r),
{
    let ghost before = journal@;
    match workload.repeat(WARMUP_HANDSHAKES, journal) {
        Ok(done) => {
            assert(done == ());
        },
        Err(e) => {
            return Err(HotLoopError::Handshake(e));
        },
    }
    let start = read_clock(journal);
    let ghost mut readings: Seq<std::time::Instant> = seq![start];
    assert(journal@ =~= before + warmed_up_and_measured(*workload, readings));
    let deadline = match add_seconds(start, secs) {
        Some(deadline) => deadline,
        None => {
            return Err(HotLoopError::Deadline);
        },
    };
    let mut look = start;
    let mut handshakes: u64 = 0;
    loop
        invariant
            workload.is_ready(),
            workload.gives(Ok(())),
            before == old(journal)@,
            readings.len() > 0,
            readings[0] == start,
            readings.last() == look,
            seconds_after(start, secs) == Some(deadline),
            earlier(start, deadline) == (secs > 0),
            are_in_time(readings, secs, readings.len() - 1),
            handshakes == BATCH_HANDSHAKES * (readings.len() - 1),
            journal@ == before + warmed_up_and_measured(*workload, readings),
        decreases u64::MAX - handshakes,
    {
        match next_step(handshakes, is_earlier(look, deadline)) {
            LoopStep::Batch(after) => {
                let ghost now = readings;
                assert(are_in_time(now, secs, now.len() as int));
                match workload.repeat(BATCH_HANDSHAKES, journal) {
                    Ok(_) => {},
                    Err(e) => {
                        assert(batch_failed(*workload, secs, e, before, journal@));
                        return Err(HotLoopError::Handshake(e));
                    },
                }
                look = read_clock(journal);
                handshakes = after;
                proof {
                    readings = now.push(look);
                    assert(readings.drop_last() =~= now);
                    assert(journal@ =~= before + warmed_up_and_measured(*workload, readings));
                }
            },
            LoopStep::Stop => {
                proof {
                    if secs == 0 && readings.len() > 1 {
                        assert(earlier(readings[0], deadline));
                    }
                }
                return Ok(HotLoop { start, handshakes });
            },
            LoopStep::Overflow => {
                assert(are_in_time(readings, secs, readings.len() as int));
                return Err(HotLoopError::Overflow);
            },
        }
    }
}

/// The workload can be one of the named implementation, for certificates of the type.
pub open spec fn is_workload(
    implementation: Seq<char>,
    cert_type: Seq<char>,
    workload: Workload,
) -> bool {
    exists|certs: CertMaterial|
        some_certs_made(plan_for(cert_type), Ok(certs)) && #[trigger] workload_gives(
            implementation,
            certs,
            Ok(workload),
        )
}

/// Configuring the named implementation for certificates of the type can fail with `e`.
pub open spec fn workload_can_fail(
    implementation: Seq<char>,
    cert_type: Seq<char>,
    e: WorkloadError,
) -> bool {
    exists|certs: CertMaterial|
        some_certs_made(plan_for(cert_type), Ok(certs)) && #[trigger] workload_gives(
            implementation,
            certs,
            Err(e),
        )
}

/// A hot loop of the named implementation with certificates of the type can do this to
/// the journal and return `r`.
pub open spec fn some_hot_loop_gives(
    implementation: Seq<char>,
    cert_type: Seq<char>,
    secs: u64,
    before: Seq<Event>,
    after: Seq<Event>,
    r: Result<HotLoop, HotLoopError>,
) -> bool {
    exists|workload: Workload| #[trigger]
        is_workload(implementation, cert_type, workload) && hot_loop_gives(
            workload,
            secs,
            before,
            after,
            r,
        )
}

/// Runs the hot loop of one implementation with certificates of one type: new
/// certificates, the warm-up, and then batches of handshakes for `duration_secs`
/// seconds.
pub fn run_hotloop(
    implementation: &str,
    cert_type: &str,
    duration_secs: u64,
    journal: &mut Journal,
) -> (r: Result<HotLoop, HotLoopError>)
    ensures
        match r {
            Err(HotLoopError::Certs(e)) => {
                &&& some_certs_made(plan_for(cert_type@), Err(e))
                &&& final(journal)@ == old(journal)@
            },
            Err(HotLoopError::Workload(e)) => {
                &&& workload_can_fail(implementation@, cert_type@, e)
                &&& final(journal)@ == old(journal)@
            },
            _ => some_hot_loop_gives(
                implementation@,
                cert_type@,
                duration_secs,
                old(journal)@,
                final(journal)@,
                r,
            ),
        },
        r is Ok ==> implementation@ == "s2n-tls"@ || implementation@ == "rustls"@,
{
    let certs = match generate_certs(cert_type, &mut KeyLog::new()) {
        Ok(certs) => certs,
        Err(e) => {
            return Err(HotLoopError::Certs(e));
        },
    };
    let workload = match workload_for(implementation, &certs) {
        Ok(workload) => workload,
        Err(e) => {
            assert(workload_can_fail(implementation@, cert_type@, e));
            return Err(HotLoopError::Workload(e));
        },
    };
    assert(is_workload(implementation@, cert_type@, workload));
    run_for(&workload, duration_secs, journal)
}

/// What stands where in the part of the journal that is measured.
proof fn lemma_places_of_events(workload: Workload, readings: Seq<std::time::Instant>)
    requires
        readings.len() > 0,
    ensures
        measured(workload, readings).len() == 51 * readings.len() - 50,
        forall|k: int|
            0 <= k < readings.len() ==> measured(workload, readings)[51 * k] == Event::Reading(
                #[trigger] readings[k],
            ),
        forall|i: int|
            0 <= i < measured(workload, readings).len() && i % 51 != 0 ==> #[trigger] measured(
                workload,
                readings,
            )[i] == Event::Handshake(workload, Ok(())),
    decreases readings.len(),
{
    let all = measured(workload, readings);
    if readings.len() > 1 {
        let n = readings.len() as int;
        let fewer = readings.drop_last();
        lemma_places_of_events(workload, fewer);
        let head = measured(workload, fewer);
        assert forall|k: int| 0 <= k < n implies all[51 * k] == Event::Reading(
            #[trigger] readings[k],
        ) by {
            if k < n - 1 {
                assert(fewer[k] == readings[k]);
                assert(all[51 * k] == head[51 * k]);
            }
        }
        assert forall|i: int| 0 <= i < all.len() && i % 51 != 0 implies #[trigger] all[i]
            == Event::Handshake(workload, Ok(())) by {
            if i < head.len() {
                assert(all[i] == head[i]);
            }
        }
    }
}

/// What a finished hot loop has added to the journal, event by event. First come 200
/// handshakes that went well, and then the reading at which the measured part began.
/// From there on, 50 handshakes that went well alternate with one reading, and there are
/// as many of these handshakes as the loop has counted. Each reading but the last was
/// before the deadline, and the last was not.
pub proof fn lemma_hot_loop_event_by_event(
    workload: Workload,
    secs: u64,
    before: Seq<Event>,
    after: Seq<Event>,
    run: HotLoop,
)
    requires
        hot_loop_gives(workload, secs, before, after, Ok(run)),
    ensures
        run.handshakes % 50 == 0,
        after.len() == before.len() + 201 + run.handshakes + run.handshakes / 50,
        after.take(before.len() as int) == before,
        forall|i: int|
            0 <= i < 200 ==> after[#[trigger] (before.len() + i)] == Event::Handshake(
                workload,
                Ok(()),
            ),
        after[before.len() as int + 200] == Event::Reading(run.start),
        forall|i: int|
            0 <= i < run.handshakes + run.handshakes / 50 && i % 51 != 50 ==> after[
            #[trigger] (before.len() + 201 + i)] == Event::Handshake(workload, Ok(())),
        seconds_after(run.start, secs) matches Some(deadline) && {
            &&& forall|k: int|
                0 <= k < run.handshakes / 50 ==> (after[#[trigger] (before.len() + 200 + 51
                    * k)] matches Event::Reading(t) && earlier(t, deadline))
            &&& after.last() matches Event::Reading(t) && !earlier(t, deadline)
        },
{
    let readings = choose|readings: Seq<std::time::Instant>|
        {
            &&& are_in_time(readings, secs, readings.len() - 1)
            &&& is_up(readings, secs, readings.last())
            &&& run.start == readings[0]
            &&& run.handshakes == BATCH_HANDSHAKES * (readings.len() - 1)
            &&& after == before + #[trigger] warmed_up_and_measured(workload, readings)
        };
    let n = readings.len() as int;
    let b = before.len() as int;
    let warm = successes(workload, 200);
    let part = measured(workload, readings);
    lemma_places_of_events(workload, readings);
    assert(after =~= before + (warm + part));
    assert(after.take(b) =~= before);
    assert(run.handshakes == 50 * (n - 1));
    assert(run.handshakes / 50 == n - 1);
    assert forall|i: int| 0 <= i < 200 implies after[#[trigger] (b + i)] == Event::Handshake(
        workload,
        Ok(()),
    ) by {
        assert(after[b + i] == warm[i]);
    }
    let first: int = 0;
    assert(after[b + 200] == part[51 * first]);
    assert(part[51 * first] == Event::Reading(readings[first]));
    assert forall|i: int| 0 <= i < 51 * (n - 1) && i % 51 != 50 implies after[
    #[trigger] (b + 201 + i)] == Event::Handshake(workload, Ok(())) by {
        assert((i + 1) % 51 != 0);
        assert(after[b + 201 + i] == part[i + 1]);
    }
    let deadline = seconds_after(run.start, secs)->0;
    assert forall|k: int| 0 <= k < n - 1 implies (after[#[trigger] (b + 200 + 51
        * k)] matches Event::Reading(t) && earlier(t, deadline)) by {
        assert(after[b + 200 + 51 * k] == part[51 * k]);
        assert(part[51 * k] == Event::Reading(readings[k]));
        assert(earlier(readings[k], deadline));
    }
    assert(after.last() == part[51 * (n - 1)]);
    assert(part[51 * (n - 1)] == Event::Reading(readings[n - 1]));
}

/// The events of a journal that are handshakes.
pub open spec fn handshakes_in(events: Seq<Event>) -> Seq<Event> {
    events.filter(|e: Event| e is Handshake)
}

proof fn lemma_successes_are_handshakes(workload: Workload, n: nat)
    ensures
        handshakes_in(successes(workload, n)).len() == n,
    decreases n,
{
    reveal(Seq::filter);
    if n > 0 {
        lemma_successes_are_handshakes(workload, (n - 1) as nat);
        assert(successes(workload, n).drop_last() =~= successes(workload, (n - 1) as nat));
    }
}

proof fn lemma_handshakes_in_the_measured_part(
    workload: Workload,
    readings: Seq<std::time::Instant>,
)
    requires
        readings.len() > 0,
    ensures
        handshakes_in(measured(workload, readings)).len() == 50 * (readings.len() - 1),
    decreases readings.len(),
{
    reveal(Seq::filter);
    let pred = |e: Event| e is Handshake;
    let last = Event::Reading(readings.last());
    if readings.len() == 1 {
        let one = seq![Event::Reading(readings[0])];
        assert(one.drop_last() =~= Seq::<Event>::empty());
        assert(one.last() == Event::Reading(readings[0]));
        assert(Seq::<Event>::empty().filter(pred).len() == 0);
    } else {
        let head = measured(workload, readings.drop_last());
        let batch = successes(workload, 50);
        lemma_handshakes_in_the_measured_part(workload, readings.drop_last());
        lemma_successes_are_handshakes(workload, 50);
        Seq::filter_distributes_over_add(head, batch.push(last), pred);
        assert(batch.push(last).drop_last() =~= batch);
    }
}

/// A finished hot loop has made the 200 handshakes of the warm-up and those that it
/// counted, and no others.
pub proof fn lemma_hot_loop_counts_its_handshakes(
    workload: Workload,
    secs: u64,
    before: Seq<Event>,
    after: Seq<Event>,
    run: HotLoop,
)
    requires
        hot_loop_gives(workload, secs, before, after, Ok(run)),
    ensures
        after.len() >= before.len(),
        after.skip(before.len() as int).filter(|e: Event| e is Handshake).len() == 200
            + run.handshakes,
{
    let readings = choose|readings: Seq<std::time::Instant>|
        {
            &&& are_in_time(readings, secs, readings.len() - 1)
            &&& is_up(readings, secs, readings.last())
            &&& run.start == readings[0]
            &&& run.handshakes == BATCH_HANDSHAKES * (readings.len() - 1)
            &&& after == before + #[trigger] warmed_up_and_measured(workload, readings)
        };
    let warm = successes(workload, 200);
    let part = measured(workload, readings);
    assert(after.skip(before.len() as int) =~= warm + part);
    Seq::filter_distributes_over_add(warm, part, |e: Event| e is Handshake);
    lemma_successes_are_handshakes(workload, 200);
    lemma_handshakes_in_the_measured_part(workload, readings);
}

/// A hot loop ends for its count only where the count is full: it has then made so many
/// handshakes behind the warm-up that another batch would not fit in 64 bits.
pub proof fn lemma_hot_loop_overflows_only_when_full(
    workload: Workload,
    secs: u64,
    before: Seq<Event>,
    after: Seq<Event>,
)
    requires
        hot_loop_gives(workload, secs, before, after, Err(HotLoopError::Overflow)),
    ensures
        after.len() >= before.len(),
        after.skip(before.len() as int).filter(|e: Event| e is Handshake).len() + 50 > 200
            + u64::MAX,
{
    let readings = choose|readings: Seq<std::time::Instant>|
        {
            &&& are_in_time(readings, secs, readings.len() as int)
            &&& BATCH_HANDSHAKES * readings.len() > u64::MAX
            &&& after == before + #[trigger] warmed_up_and_measured(workload, readings)
        };
    let warm = successes(workload, 200);
    let part = measured(workload, readings);
    assert(after.skip(before.len() as int) =~= warm + part);
    Seq::filter_distributes_over_add(warm, part, |e: Event| e is Handshake);
    lemma_successes_are_handshakes(workload, 200);
    lemma_handshakes_in_the_measured_part(workload, readings);
}

/// A hot loop that ends for a failed handshake ends with it. The journal holds up to
/// then what that of a finished loop does: 200 handshakes that went well, and behind
/// them readings before the deadline, with 50 handshakes that went well between two of
/// them.
pub proof fn lemma_hot_loop_stops_at_a_failure(
    workload: Workload,
    secs: u64,
    before: Seq<Event>,
    after: Seq<Event>,
    e: FailedHandshake,
)
    requires
        hot_loop_gives(workload, secs, before, after, Err(HotLoopError::Handshake(e))),
    ensures
        after.len() > before.len(),
        after.take(before.len() as int) == before,
        after.last() == Event::Handshake(workload, Err(e)),
        forall|i: int|
            0 <= i < 200 && i < after.len() - before.len() - 1 ==> after[#[trigger] (before.len()
                + i)] == Event::Handshake(workload, Ok(())),
        after.len() > before.len() + 200 ==> {
            &&& after[before.len() as int + 200] matches Event::Reading(start)
            &&& seconds_after(start, secs) matches Some(deadline)
            &&& forall|i: int|
                0 <= i < after.len() - before.len() - 201 ==> if i % 51 == 0 {
                    after[#[trigger] (before.len() + 200 + i)] matches Event::Reading(t)
                        && earlier(t, deadline)
                } else {
                    after[before.len() + 200 + i] == Event::Handshake(workload, Ok(()))
                }
        },
{
    let b = before.len() as int;
    let warm = successes(workload, 200);
    if failed_within(workload, WARMUP_HANDSHAKES as nat, e, before, after) {
        let k = choose|k: nat|
            k < WARMUP_HANDSHAKES && after == before + #[trigger] failure_after(workload, k, e);
        assert(after.take(b) =~= before);
        assert forall|i: int| 0 <= i < 200 && i < after.len() - b - 1 implies after[
        #[trigger] (b + i)] == Event::Handshake(workload, Ok(())) by {
            assert(after[b + i] == successes(workload, k)[i]);
        }
    } else {
        let readings = choose|readings: Seq<std::time::Instant>|
            {
                &&& are_in_time(readings, secs, readings.len() as int)
                &&& failed_within(
                    workload,
                    BATCH_HANDSHAKES as nat,
                    e,
                    before + #[trigger] warmed_up_and_measured(workload, readings),
                    after,
                )
            };
        let n = readings.len() as int;
        let part = measured(workload, readings);
        let k = choose|k: nat|
            k < BATCH_HANDSHAKES && after == before + warmed_up_and_measured(workload, readings)
                + #[trigger] failure_after(workload, k, e);
        lemma_places_of_events(workload, readings);
        let rest = failure_after(workload, k, e);
        assert(after =~= before + warm + part + rest);
        assert(after.take(b) =~= before);
        assert forall|i: int| 0 <= i < 200 && i < after.len() - b - 1 implies after[
        #[trigger] (b + i)] == Event::Handshake(workload, Ok(())) by {
            assert(after[b + i] == warm[i]);
        }
        let first: int = 0;
        assert(after[b + 200] == part[51 * first]);
        assert(part[51 * first] == Event::Reading(readings[first]));
        let deadline = seconds_after(readings[0], secs)->0;
        assert forall|i: int| 0 <= i < after.len() - b - 201 implies if i % 51 == 0 {
            after[#[trigger] (b + 200 + i)] matches Event::Reading(t) && earlier(t, deadline)
        } else {
            after[b + 200 + i] == Event::Handshake(workload, Ok(()))
        } by {
            if i < part.len() {
                assert(after[b + 200 + i] == part[i]);
                if i % 51 == 0 {
                    let j = i / 51;
                    assert(i == 51 * j);
                    assert(part[51 * j] == Event::Reading(readings[j]));
                    assert(earlier(readings[j], deadline));
                }
            } else {
                assert(after[b + 200 + i] == rest[i - part.len()]);
            }
        }
    }
}

/// A hot loop that has no deadline has warmed up, and then has read a time from which
/// the clock does not reach so far.
pub proof fn lemma_hot_loop_without_deadline(
    workload: Workload,
    secs: u64,
    before: Seq<Event>,
    after: Seq<Event>,
)
    requires
        hot_loop_gives(workload, secs, before, after, Err(HotLoopError::Deadline)),
    ensures
        secs > 0,
        after.len() == before.len() + 201,
        after.take(before.len() as int) == before,
        forall|i: int|
            0 <= i < 200 ==> after[#[trigger] (before.len() + i)] == Event::Handshake(
                workload,
                Ok(()),
            ),
        after.last() matches Event::Reading(start) && seconds_after(start, secs) is None,
{
    let b = before.len() as int;
    let warm = successes(workload, 200);
    let start = choose|start: std::time::Instant|
        {
            &&& seconds_after(start, secs) is None
            &&& after == before + #[trigger] warmed_up_and_measured(workload, seq![start])
        };
    assert(measured(workload, seq![start]) =~= seq![Event::Reading(start)]);
    assert(after.take(b) =~= before);
    assert forall|i: int| 0 <= i < 200 implies after[#[trigger] (b + i)] == Event::Handshake(
        workload,
        Ok(()),
    ) by {
        assert(after[b + i] == warm[i]);
    }
}

/// The handshakes of a hot loop are those of the named implementation, configured with
/// material for the certificate type. Returns the workload and the material.
pub proof fn lemma_hot_loop_uses_its_certificates(
    implementation: Seq<char>,
    cert_type: Seq<char>,
    secs: u64,
    before: Seq<Event>,
    after: Seq<Event>,
    r: Result<HotLoop, HotLoopError>,
) -> (w: (Workload, CertMaterial))
    requires
        some_hot_loop_gives(implementation, cert_type, secs, before, after, r),
    ensures
        some_certs_made(plan_for(cert_type), Ok(w.1)),
        hot_loop_gives(w.0, secs, before, after, r),
        match w.0 {
            Workload::S2nTls(client, server) => implementation == "s2n-tls"@ && s2n_configs_give(
                w.1,
                Ok((client, server)),
            ),
            Workload::Rustls(client, server) => implementation == "rustls"@
                && rustls_configs_give(w.1, Ok((client, server))),
        },
{
    lemma_names_differ();
    let workload = choose|workload: Workload| #[trigger]
        is_workload(implementation, cert_type, workload) && hot_loop_gives(
            workload,
            secs,
            before,
            after,
            r,
        );
    let certs = choose|certs: CertMaterial|
        some_certs_made(plan_for(cert_type), Ok(certs)) && #[trigger] workload_gives(
            implementation,
            certs,
            Ok(workload),
        );
    (workload, certs)
}

/// Where there is no workload, material for the certificate type was made and the named
/// implementation could not be configured with it, or there is no implementation of
/// that name. Returns the material.
pub proof fn lemma_workload_fails_for_its_implementation(
    implementation: Seq<char>,
    cert_type: Seq<char>,
    e: WorkloadError,
) -> (certs: CertMaterial)
    requires
        workload_can_fail(implementation, cert_type, e),
    ensures
        some_certs_made(plan_for(cert_type), Ok(certs)),
        match e {
            WorkloadError::S2nTls(e) => implementation == "s2n-tls"@ && s2n_configs_give(
                certs,
                Err(e),
            ),
            WorkloadError::Rustls(e) => implementation == "rustls"@ && rustls_configs_give(
                certs,
                Err(e),
            ),
            WorkloadError::Unknown(message) => {
                &&& implementation != "s2n-tls"@
                &&& implementation != "rustls"@
                &&& message@ == "Unknown implementation: "@ + implementation
                    + ". Use: s2n-tls|rustls"@
            },
        },
{
    lemma_names_differ();
    choose|certs: CertMaterial|
        some_certs_made(plan_for(cert_type), Ok(certs)) && #[trigger] workload_gives(
            implementation,
            certs,
            Err(e),
        )
}

} // verus!

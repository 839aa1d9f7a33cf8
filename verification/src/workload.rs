//! One handshake of one implementation at a time, and one look at the clock at a
//! time, each noted in a journal. The journal takes no room and no time: it is there
//! for contracts to speak of what was done, and in which order.

use crate::clock::now;
use crate::rustls_run::{handshake_gives, run_rustls_handshake_plain, HandshakeError};
use crate::s2n_run::{
    is_basic_config, run_s2n_handshake_plain, s2n_handshake_gives, S2nHandshakeError,
};
use std::sync::Arc;
use vstd::prelude::*;

verus! {

/// The configurations of a client and a server of one implementation.
pub enum Workload {
    S2nTls(s2n_tls::config::Config, s2n_tls::config::Config),
    Rustls(Arc<rustls::ClientConfig>, Arc<rustls::ServerConfig>),
}

/// A handshake that failed.
#[derive(Debug)]
pub enum FailedHandshake {
    S2nTls(S2nHandshakeError),
    Rustls(HandshakeError),
}

/// Something that was done.
pub enum Event {
    /// A handshake of the workload, with its result.
    Handshake(Workload, Result<(), FailedHandshake>),
    /// A look at the clock, with what it said.
    Reading(std::time::Instant),
}

/// What was done so far, first things first.
pub struct Journal {
    events: Ghost<Seq<Event>>,
}

impl View for Journal {
    type V = Seq<Event>;

    closed spec fn view(&self) -> Seq<Event> {
        self.events@
    }
}

impl Journal {
    /// A journal of nothing.
    pub fn new() -> (r: Journal)
        ensures
            r@ == Seq::<Event>::empty(),
    {
        Journal { events: Ghost(Seq::empty()) }
    }

    /// Adds what was done last.
    fn note(&mut self, Ghost(event): Ghost<Event>)
        ensures
            final(self)@ == old(self)@.push(event),
    {
        self.events = Ghost(self.events@.push(event));
    }
}

impl Workload {
    /// A handshake comes to an end: its sides wait for each other alone.
    pub open spec fn is_ready(&self) -> bool {
        match *self {
            Workload::S2nTls(client, server) => is_basic_config(client) && is_basic_config(server),
            Workload::Rustls(_, _) => true,
        }
    }

    /// `r` can be the result of one handshake.
    pub open spec fn gives(&self, r: Result<(), FailedHandshake>) -> bool {
        match *self {
            Workload::S2nTls(client, server) => match r {
                Ok(()) => s2n_handshake_gives(client, server, Ok(())),
                Err(FailedHandshake::S2nTls(e)) => s2n_handshake_gives(client, server, Err(e)),
                Err(FailedHandshake::Rustls(_)) => false,
            },
            Workload::Rustls(client, server) => match r {
                Ok(()) => handshake_gives(*client, *server, Ok(())),
                Err(FailedHandshake::S2nTls(_)) => false,
                Err(FailedHandshake::Rustls(e)) => handshake_gives(*client, *server, Err(e)),
            },
        }
    }

    /// Runs one handshake and notes it.
    pub fn handshake(&self, journal: &mut Journal) -> (r: Result<(), FailedHandshake>)
        requires
            self.is_ready(),
        ensures
            self.gives(r),
            match *self {
                Workload::S2nTls(client, server) => match r {
                    Ok(_) => s2n_handshake_gives(client, server, Ok(())),
                    Err(e) => e matches FailedHandshake::S2nTls(e) && s2n_handshake_gives(
                        client,
                        server,
                        Err(e),
                    ),
                },
                Workload::Rustls(client, server) => match r {
                    Ok(_) => handshake_gives(*client, *server, Ok(())),
                    Err(e) => e matches FailedHandshake::Rustls(e) && handshake_gives(
                        *client,
                        *server,
                        Err(e),
                    ),
                },
            },
            final(journal)@ == old(journal)@.push(Event::Handshake(*self, r)),
    {
        let r = match self {
            Workload::S2nTls(client, server) => match run_s2n_handshake_plain(client, server) {
                Ok(done) => {
                    assert(done == ());
                    Ok(done)
                },
                Err(e) => Err(FailedHandshake::S2nTls(e)),
            },
            Workload::Rustls(client, server) => match run_rustls_handshake_plain(client, server) {
                Ok(done) => {
                    assert(done == ());
                    Ok(done)
                },
                Err(e) => Err(FailedHandshake::Rustls(e)),
            },
        };
        journal.note(Ghost(Event::Handshake(*self, r)));
        r
    }
}

/// Looks at the clock and notes what it says.
pub fn read_clock(journal: &mut Journal) -> (r: std::time::Instant)
    ensures
        final(journal)@ == old(journal)@.push(Event::Reading(r)),
{
    let r = now();
    journal.note(Ghost(Event::Reading(r)));
    r
}

} // verus!

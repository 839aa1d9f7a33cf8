//! Key pairs, generated one at a time, each noted in a log. The log takes no room and no
//! time: it is there for contracts to speak of which keys were generated.

use crate::certs::KeyPlan;
use crate::rcgen_backend::{
    generate_for, generate_for_gives, generate_rsa_for, generate_rsa_for_gives, was_generated,
};
use vstd::prelude::*;

verus! {

/// `r` can be the result of generating the key of a plan.
pub open spec fn key_made(plan: KeyPlan, r: Result<rcgen::KeyPair, rcgen::Error>) -> bool {
    match plan.rsa_bits {
        Some(bits) => generate_rsa_for_gives(plan.algorithm, bits, r),
        None => generate_for_gives(plan.algorithm, r),
    }
}

/// A key was to be generated: the plan and the result.
pub struct Generation {
    pub plan: KeyPlan,
    pub result: Result<rcgen::KeyPair, rcgen::Error>,
}

/// The keys that were generated so far, the first one first.
pub struct KeyLog {
    generations: Ghost<Seq<Generation>>,
}

impl View for KeyLog {
    type V = Seq<Generation>;

    closed spec fn view(&self) -> Seq<Generation> {
        self.generations@
    }
}

impl KeyLog {
    /// A log of nothing.
    pub fn new() -> (r: KeyLog)
        ensures
            r@ == Seq::<Generation>::empty(),
    {
        KeyLog { generations: Ghost(Seq::empty()) }
    }

    /// Adds what was generated last.
    fn note(&mut self, Ghost(generation): Ghost<Generation>)
        ensures
            final(self)@ == old(self)@.push(generation),
    {
        self.generations = Ghost(self.generations@.push(generation));
    }
}

/// Generates one key and notes it.
pub(crate) fn generate_key(plan: KeyPlan, log: &mut KeyLog) -> (r: Result<
    rcgen::KeyPair,
    rcgen::Error,
>)
    ensures
        key_made(plan, r),
        plan.rsa_bits matches Some(bits) ==> generate_rsa_for_gives(plan.algorithm, bits, r),
        plan.rsa_bits is None ==> generate_for_gives(plan.algorithm, r),
        r matches Ok(key) ==> was_generated(key),
        final(log)@ == old(log)@.push((Generation { plan, result: r })),
{
    let r = match plan.rsa_bits {
        Some(bits) => generate_rsa_for(plan.algorithm, bits),
        None => generate_for(plan.algorithm),
    };
    log.note(Ghost(Generation { plan, result: r }));
    r
}

} // verus!

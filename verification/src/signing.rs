//! One signature, one check of a signature or one look at the clock at a time, each
//! noted in a log. The log takes no room and no time: it is there for contracts to speak
//! of what was done, and in which order.

use crate::aws_lc_backend::{
    modulus_len, rsa_accepts, rsa_public_key, rsa_signature, sign, verify,
};
use crate::clock::now;
use vstd::prelude::*;

verus! {

/// Something that was done.
pub enum Operation {
    /// The message was to be signed with the key; says whether a signature was made.
    Sign { key: aws_lc_rs::signature::RsaKeyPair, message: Seq<u8>, made: bool },
    /// The signature of the message was checked under the public key; says whether it
    /// was accepted.
    Check { public_key: Seq<u8>, message: Seq<u8>, signature: Seq<u8>, accepted: bool },
    /// A look at the clock, with what it said.
    Reading(std::time::Instant),
}

/// What was done so far, first things first.
pub struct OperationLog {
    operations: Ghost<Seq<Operation>>,
}

impl View for OperationLog {
    type V = Seq<Operation>;

    closed spec fn view(&self) -> Seq<Operation> {
        self.operations@
    }
}

impl OperationLog {
    /// A log of nothing.
    pub fn new() -> (r: OperationLog)
        ensures
            r@ == Seq::<Operation>::empty(),
    {
        OperationLog { operations: Ghost(Seq::empty()) }
    }

    /// Adds what was done last.
    fn note(&mut self, Ghost(operation): Ghost<Operation>)
        ensures
            final(self)@ == old(self)@.push(operation),
    {
        self.operations = Ghost(self.operations@.push(operation));
    }
}

/// Signs the message once and notes it. On success the signature is that of the
/// message, and it is accepted under the public half of the key; on failure what
/// stood in its place still stands there.
pub(crate) fn sign_once(
    key: &aws_lc_rs::signature::RsaKeyPair,
    message: &[u8],
    signature: &mut Vec<u8>,
    log: &mut OperationLog,
) -> (r: Result<(), aws_lc_rs::error::Unspecified>)
    requires
        old(signature)@.len() == modulus_len(*key),
    ensures
        final(signature)@.len() == old(signature)@.len(),
        r is Ok ==> final(signature)@ == rsa_signature(*key, message@),
        r is Ok ==> rsa_accepts(rsa_public_key(*key), message@, final(signature)@),
        r is Err ==> final(signature)@ == old(signature)@,
        final(log)@ == old(log)@.push(
            (Operation::Sign { key: *key, message: message@, made: r is Ok }),
        ),
{
    let r = sign(key, message, signature);
    log.note(Ghost(Operation::Sign { key: *key, message: message@, made: r is Ok }));
    r
}

/// Checks the signature of the message once and notes it.
pub(crate) fn verify_once(
    public_key: &[u8],
    message: &[u8],
    signature: &[u8],
    log: &mut OperationLog,
) -> (r: Result<(), aws_lc_rs::error::Unspecified>)
    ensures
        r is Ok == rsa_accepts(public_key@, message@, signature@),
        final(log)@ == old(log)@.push(
            (Operation::Check {
                public_key: public_key@,
                message: message@,
                signature: signature@,
                accepted: r is Ok,
            }),
        ),
{
    let r = verify(public_key, message, signature);
    log.note(
        Ghost(
            Operation::Check {
                public_key: public_key@,
                message: message@,
                signature: signature@,
                accepted: r is Ok,
            },
        ),
    );
    r
}

/// Looks at the clock and notes what it says.
pub(crate) fn read_time(log: &mut OperationLog) -> (r: std::time::Instant)
    ensures
        final(log)@ == old(log)@.push(Operation::Reading(r)),
{
    let r = now();
    log.note(Ghost(Operation::Reading(r)));
    r
}

} // verus!

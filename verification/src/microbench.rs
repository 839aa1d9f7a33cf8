//! RSA signing and verifying on their own, with the library that both
//! implementations use, to hold the estimates from profiles against.

use crate::aws_lc_backend::{
    modulus_len, public_key_bytes, public_modulus_len, read_rsa_key, rsa_accepts, rsa_key_gives,
    rsa_public_key, rsa_signature,
};
use crate::certs::{generate_certs, plan_for, some_certs_made, CertError, CertMaterial};
use crate::keys::KeyLog;
use crate::signing::{read_time, sign_once, verify_once, Operation, OperationLog};
use crate::text::chars_of;
use vstd::prelude::*;
use vstd::utf8::encode_utf8;

verus! {

/// The signatures that are made and checked before anything is timed.
pub const WARMUP_SIGNATURES: u32 = 200;

/// The signatures that are timed.
pub const TIMED_SIGNATURES: u32 = 5000;

/// What is signed, in place of the hash of a handshake's transcript.
pub const MESSAGE: &'static str = "handshake transcript hash stand-in (32 bytes!!)";

/// What the certificate types with an RSA key begin with.
pub const RSA_PREFIX: &'static str = "rsa";

/// The certificate type is one with an RSA key, by its name.
pub open spec fn is_rsa(cert_type: Seq<char>) -> bool {
    RSA_PREFIX@.is_prefix_of(cert_type)
}

/// Accepts the certificate types with an RSA key; for any other one says so.
pub fn check_rsa(cert_type: &str) -> (r: Result<(), String>)
    ensures
        r is Ok <==> is_rsa(cert_type@),
        r is Ok <==> {
            &&& cert_type@.len() >= 3
            &&& cert_type@[0] == 'r'
            &&& cert_type@[1] == 's'
            &&& cert_type@[2] == 'a'
        },
        r matches Err(e) ==> e@
            == "microbench currently anchors RSA sign/verify only; got '"@ + cert_type@
            + "'. Use rsa2048|rsa3072|rsa4096."@,
{
    proof {
        reveal_strlit("rsa");
        if is_rsa(cert_type@) {
            let start = cert_type@.subrange(0, 3);
            assert(start[0] == 'r' && start[1] == 's' && start[2] == 'a');
        }
    }
    let chars: Vec<char> = chars_of(cert_type);
    if chars.len() >= 3 && chars[0] == 'r' && chars[1] == 's' && chars[2] == 'a' {
        assert(cert_type@.subrange(0, 3) =~= RSA_PREFIX@);
        Ok(())
    } else {
        let mut message: String =
            "microbench currently anchors RSA sign/verify only; got '".to_owned();
        message.append(cert_type);
        message.append("'. Use rsa2048|rsa3072|rsa4096.");
        Err(message)
    }
}

/// A certificate type is one with an RSA key exactly where its name begins with the
/// letters `rsa`.
pub proof fn lemma_rsa_by_its_letters(cert_type: Seq<char>)
    ensures
        is_rsa(cert_type) <==> {
            &&& cert_type.len() >= 3
            &&& cert_type[0] == 'r'
            &&& cert_type[1] == 's'
            &&& cert_type[2] == 'a'
        },
{
    reveal_strlit("rsa");
    if cert_type.len() >= 3 {
        let start = cert_type.subrange(0, 3);
        if is_rsa(cert_type) {
            assert(start[0] == 'r' && start[1] == 's' && start[2] == 'a');
        } else if cert_type[0] == 'r' && cert_type[1] == 's' && cert_type[2] == 'a' {
            assert(start =~= RSA_PREFIX@);
        }
    }
}

/// The key to sign with is the server's, read out of material for the certificate type.
/// Returns the material.
pub proof fn lemma_signing_key_is_the_servers(
    cert_type: Seq<char>,
    key: aws_lc_rs::signature::RsaKeyPair,
) -> (certs: CertMaterial)
    requires
        signing_key_gives(cert_type, Ok(key)),
    ensures
        cert_type.len() >= 3,
        cert_type[0] == 'r',
        cert_type[1] == 's',
        cert_type[2] == 'a',
        some_certs_made(plan_for(cert_type), Ok(certs)),
        rsa_key_gives(certs.server_key_der@, Ok(key)),
{
    lemma_rsa_by_its_letters(cert_type);
    choose|certs: CertMaterial|
        #[trigger] some_certs_made(plan_for(cert_type), Ok(certs)) && rsa_key_gives(
            certs.server_key_der@,
            Ok(key),
        )
}

/// Why there is no key to sign with.
#[derive(Debug)]
pub enum SigningKeyError {
    /// The certificate type has no RSA key; holds what to tell the user.
    NotRsa(String),
    /// The certificates could not be made.
    Certs(CertError),
    /// aws-lc-rs did not take the server's key.
    Rejected(aws_lc_rs::error::KeyRejected),
}

/// Reading the server's key out of material for the type can have the result `r`.
pub open spec fn server_key_read(
    cert_type: Seq<char>,
    r: Result<aws_lc_rs::signature::RsaKeyPair, aws_lc_rs::error::KeyRejected>,
) -> bool {
    exists|certs: CertMaterial|
        #[trigger] some_certs_made(plan_for(cert_type), Ok(certs)) && rsa_key_gives(
            certs.server_key_der@,
            r,
        )
}

/// `r` can be the result of making certificates of the type and reading the server's
/// key. A certificate type without an RSA key is refused first.
pub open spec fn signing_key_gives(
    cert_type: Seq<char>,
    r: Result<aws_lc_rs::signature::RsaKeyPair, SigningKeyError>,
) -> bool {
    &&& (r matches Err(SigningKeyError::NotRsa(_))) <==> !is_rsa(cert_type)
    &&& match r {
        Ok(key) => server_key_read(cert_type, Ok(key)),
        Err(SigningKeyError::NotRsa(message)) => message@
            == "microbench currently anchors RSA sign/verify only; got '"@ + cert_type
            + "'. Use rsa2048|rsa3072|rsa4096."@,
        Err(SigningKeyError::Certs(e)) => some_certs_made(plan_for(cert_type), Err(e)),
        Err(SigningKeyError::Rejected(e)) => server_key_read(cert_type, Err(e)),
    }
}

/// Makes certificates of the type and reads the server's key, the very one that a
/// handshake would sign with.
pub fn signing_key(cert_type: &str) -> (r: Result<
    aws_lc_rs::signature::RsaKeyPair,
    SigningKeyError,
>)
    ensures
        signing_key_gives(cert_type@, r),
        r matches Err(SigningKeyError::NotRsa(message)) ==> message@
            == "microbench currently anchors RSA sign/verify only; got '"@ + cert_type@
            + "'. Use rsa2048|rsa3072|rsa4096."@,
        r matches Err(SigningKeyError::Certs(e)) ==> some_certs_made(plan_for(cert_type@), Err(e)),
        r matches Err(SigningKeyError::Rejected(e)) ==> exists|certs: CertMaterial|
            #[trigger] some_certs_made(plan_for(cert_type@), Ok(certs)) && rsa_key_gives(
                certs.server_key_der@,
                Err(e),
            ),
{
    match check_rsa(cert_type) {
        Ok(_) => {},
        Err(message) => {
            return Err(SigningKeyError::NotRsa(message));
        },
    }
    let certs = match generate_certs(cert_type, &mut KeyLog::new()) {
        Ok(certs) => certs,
        Err(e) => {
            return Err(SigningKeyError::Certs(e));
        },
    };
    assert(some_certs_made(plan_for(cert_type@), Ok(certs)));
    match read_rsa_key(certs.server_key_der.as_slice()) {
        Ok(key) => Ok(key),
        Err(e) => Err(SigningKeyError::Rejected(e)),
    }
}

/// The bytes that are signed.
pub open spec fn message_bytes() -> Seq<u8> {
    encode_utf8(MESSAGE@)
}

/// The public half of the key pair, encoded.
pub fn public_key(key: &aws_lc_rs::signature::RsaKeyPair) -> (r: Vec<u8>)
    ensures
        r@ == rsa_public_key(*key),
{
    public_key_bytes(key)
}

/// The message was signed with the key, or was to be.
pub open spec fn signing(key: aws_lc_rs::signature::RsaKeyPair, made: bool) -> Operation {
    Operation::Sign { key, message: message_bytes(), made }
}

/// `n` signatures of the message that were made with the key.
pub open spec fn signings(key: aws_lc_rs::signature::RsaKeyPair, n: nat) -> Seq<Operation> {
    Seq::new(n, |i: int| signing(key, true))
}

/// Of `n` signatures that were to be made behind `before`, one was not, and it was the
/// last one tried.
pub open spec fn signing_failed_within(
    key: aws_lc_rs::signature::RsaKeyPair,
    n: nat,
    before: Seq<Operation>,
    after: Seq<Operation>,
) -> bool {
    exists|k: nat| k < n && after == before + #[trigger] signings(key, k).push(signing(key, false))
}

/// Signs the message `n` times, or as often as it takes to fail, and returns the
/// last signature. With `n` above 0 that is the signature of the message, which is
/// accepted under the public half of the key.
pub fn sign_times(
    key: &aws_lc_rs::signature::RsaKeyPair,
    n: u32,
    log: &mut OperationLog,
) -> (r: Result<Vec<u8>, aws_lc_rs::error::Unspecified>)
    ensures
        n == 0 ==> r is Ok,
        match r {
            Ok(signature) => {
                &&& signature@.len() == modulus_len(*key)
                &&& n == 0 ==> signature@ == Seq::new(modulus_len(*key) as nat, |i: int| 0u8)
                &&& n > 0 ==> signature@ == rsa_signature(*key, message_bytes())
                &&& n > 0 ==> rsa_accepts(rsa_public_key(*key), message_bytes(), signature@)
                &&& final(log)@ == old(log)@ + signings(*key, n as nat)
            },
            Err(_) => signing_failed_within(*key, n as nat, old(log)@, final(log)@),
        },
        final(log)@.len() >= old(log)@.len(),
        final(log)@.take(old(log)@.len() as int) == old(log)@,
        r is Ok ==> final(log)@.len() == old(log)@.len() + n,
        r is Ok ==> forall|i: int|
            old(log)@.len() <= i < final(log)@.len() ==> #[trigger] final(log)@[i]
                == (Operation::Sign { key: *key, message: encode_utf8(MESSAGE@), made: true }),
        r is Err ==> {
            &&& old(log)@.len() < final(log)@.len() <= old(log)@.len() + n
            &&& final(log)@.last()
                == (Operation::Sign { key: *key, message: encode_utf8(MESSAGE@), made: false })
            &&& forall|i: int|
                old(log)@.len() <= i < final(log)@.len() - 1 ==> #[trigger] final(log)@[i]
                    == (Operation::Sign { key: *key, message: encode_utf8(MESSAGE@), made: true })
        },
{
    let message: Vec<u8> = MESSAGE.as_bytes_vec();
    let mut signature: Vec<u8> = vec![0u8; public_modulus_len(key)];
    assert(signature@ =~= Seq::new(modulus_len(*key) as nat, |i: int| 0u8));
    let mut done: u32 = 0;
    assert(log@ =~= old(log)@ + signings(*key, 0));
    assert(log@.take(old(log)@.len() as int) =~= old(log)@);
    while done < n
        invariant
            done <= n,
            message@ == message_bytes(),
            signature@.len() == modulus_len(*key),
            done == 0 ==> signature@ == Seq::new(modulus_len(*key) as nat, |i: int| 0u8),
            done > 0 ==> signature@ == rsa_signature(*key, message_bytes()),
            done > 0 ==> rsa_accepts(rsa_public_key(*key), message_bytes(), signature@),
            log@ == old(log)@ + signings(*key, done as nat),
            log@.len() == old(log)@.len() + done,
            log@.take(old(log)@.len() as int) == old(log)@,
            forall|i: int|
                old(log)@.len() <= i < log@.len() ==> #[trigger] log@[i] == (Operation::Sign {
                    key: *key,
                    message: encode_utf8(MESSAGE@),
                    made: true,
                }),
        decreases n - done,
    {
        let ghost now = log@;
        match sign_once(key, message.as_slice(), &mut signature, log) {
            Ok(_) => {
                assert(log@ =~= old(log)@ + signings(*key, done as nat + 1));
                assert(log@.take(old(log)@.len() as int) =~= now.take(old(log)@.len() as int));
            },
            Err(e) => {
                assert(log@ =~= old(log)@ + signings(*key, done as nat).push(
                    signing(*key, false),
                ));
                assert(log@.take(old(log)@.len() as int) =~= now.take(old(log)@.len() as int));
                return Err(e);
            },
        }
        done = done + 1;
    }
    Ok(signature)
}

/// `n` checks of the signature of the message, with the same result.
pub open spec fn checks(
    public_key: Seq<u8>,
    signature: Seq<u8>,
    accepted: bool,
    n: nat,
) -> Seq<Operation> {
    Seq::new(
        n,
        |i: int|
            Operation::Check { public_key, message: message_bytes(), signature, accepted },
    )
}

/// Checks the signature of the message `n` times, or once if it is not accepted.
pub fn verify_times(
    public_key: &[u8],
    signature: &[u8],
    n: u32,
    log: &mut OperationLog,
) -> (r: Result<(), aws_lc_rs::error::Unspecified>)
    ensures
        r is Ok <==> n == 0 || rsa_accepts(public_key@, message_bytes(), signature@),
        r is Ok ==> final(log)@ == old(log)@ + checks(public_key@, signature@, true, n as nat),
        r is Err ==> final(log)@ == old(log)@ + checks(public_key@, signature@, false, 1),
        r is Ok <==> n == 0 || rsa_accepts(public_key@, encode_utf8(MESSAGE@), signature@),
        final(log)@.len() == old(log)@.len() + if r is Ok {
            n as int
        } else {
            1
        },
        final(log)@.take(old(log)@.len() as int) == old(log)@,
        forall|i: int|
            old(log)@.len() <= i < final(log)@.len() ==> #[trigger] final(log)@[i]
                == (Operation::Check {
                public_key: public_key@,
                message: encode_utf8(MESSAGE@),
                signature: signature@,
                accepted: r is Ok,
            }),
{
    let message: Vec<u8> = MESSAGE.as_bytes_vec();
    let mut done: u32 = 0;
    assert(log@ =~= old(log)@ + checks(public_key@, signature@, true, 0));
    assert(log@.take(old(log)@.len() as int) =~= old(log)@);
    while done < n
        invariant
            done <= n,
            message@ == message_bytes(),
            done > 0 ==> rsa_accepts(public_key@, message_bytes(), signature@),
            log@ == old(log)@ + checks(public_key@, signature@, true, done as nat),
            log@.len() == old(log)@.len() + done,
            log@.take(old(log)@.len() as int) == old(log)@,
            forall|i: int|
                old(log)@.len() <= i < log@.len() ==> #[trigger] log@[i] == (Operation::Check {
                    public_key: public_key@,
                    message: encode_utf8(MESSAGE@),
                    signature: signature@,
                    accepted: true,
                }),
        decreases n - done,
    {
        let ghost now = log@;
        match verify_once(public_key, message.as_slice(), signature, log) {
            Ok(_) => {
                assert(log@ =~= old(log)@ + checks(public_key@, signature@, true, done as nat + 1));
                assert(log@.take(old(log)@.len() as int) =~= now.take(old(log)@.len() as int));
            },
            Err(e) => {
                assert(log@ =~= old(log)@ + checks(public_key@, signature@, false, 1));
                assert(log@.take(old(log)@.len() as int) =~= now.take(old(log)@.len() as int));
                return Err(e);
            },
        }
        done = done + 1;
    }
    Ok(())
}

/// When the timed signing and the timed checking began and ended.
pub struct Microbench {
    pub sign_start: std::time::Instant,
    pub sign_end: std::time::Instant,
    pub check_start: std::time::Instant,
    pub check_end: std::time::Instant,
}

/// Why there are no times.
#[derive(Debug)]
pub enum MicrobenchError {
    /// There is no key to sign with.
    Key(SigningKeyError),
    /// A signature was not made.
    Sign(aws_lc_rs::error::Unspecified),
    /// A signature was not accepted.
    Check(aws_lc_rs::error::Unspecified),
}

/// What a run does with the key: signatures that are not timed, the timed ones between
/// two readings of the clock, and then the same with checks of the signature.
pub open spec fn timed_run(
    key: aws_lc_rs::signature::RsaKeyPair,
    run: Microbench,
) -> Seq<Operation> {
    let public_key = rsa_public_key(key);
    let signature = rsa_signature(key, message_bytes());
    signings(key, WARMUP_SIGNATURES as nat).push(Operation::Reading(run.sign_start)) + signings(
        key,
        TIMED_SIGNATURES as nat,
    ).push(Operation::Reading(run.sign_end)) + checks(
        public_key,
        signature,
        true,
        WARMUP_SIGNATURES as nat,
    ).push(Operation::Reading(run.check_start)) + checks(
        public_key,
        signature,
        true,
        TIMED_SIGNATURES as nat,
    ).push(Operation::Reading(run.check_end))
}

/// The run was made with a key of the certificate type.
pub open spec fn run_made(
    cert_type: Seq<char>,
    before: Seq<Operation>,
    after: Seq<Operation>,
    run: Microbench,
) -> bool {
    exists|key: aws_lc_rs::signature::RsaKeyPair|
        signing_key_gives(cert_type, Ok(key)) && after == before + #[trigger] timed_run(key, run)
}

/// Behind the signatures that are not timed and a reading of the clock, one of those
/// that are to be timed was not made.
pub open spec fn timed_signing_failed(
    key: aws_lc_rs::signature::RsaKeyPair,
    before: Seq<Operation>,
    after: Seq<Operation>,
) -> bool {
    exists|start: std::time::Instant|
        signing_failed_within(
            key,
            TIMED_SIGNATURES as nat,
            before + #[trigger] signings(key, WARMUP_SIGNATURES as nat).push(
                Operation::Reading(start),
            ),
            after,
        )
}

/// A signature with a key of the certificate type was not made, timed or not.
pub open spec fn signing_failed(
    cert_type: Seq<char>,
    before: Seq<Operation>,
    after: Seq<Operation>,
) -> bool {
    exists|key: aws_lc_rs::signature::RsaKeyPair|
        {
            &&& #[trigger] signing_key_gives(cert_type, Ok(key))
            &&& {
                ||| signing_failed_within(key, WARMUP_SIGNATURES as nat, before, after)
                ||| timed_signing_failed(key, before, after)
            }
        }
}

/// Signs and checks with a key of the certificate type, and reads the clock around the
/// signatures and the checks that are timed. Every signature is accepted.
pub fn run_microbench(cert_type: &str, log: &mut OperationLog) -> (r: Result<
    Microbench,
    MicrobenchError,
>)
    ensures
        match r {
            Ok(run) => run_made(cert_type@, old(log)@, final(log)@, run),
            Err(MicrobenchError::Key(e)) => {
                &&& signing_key_gives(cert_type@, Err(e))
                &&& final(log)@ == old(log)@
            },
            Err(MicrobenchError::Sign(_)) => signing_failed(cert_type@, old(log)@, final(log)@),
            Err(MicrobenchError::Check(_)) => false,
        },
        (r matches Err(MicrobenchError::Key(SigningKeyError::NotRsa(_)))) <==> !is_rsa(cert_type@),
        (r matches Err(MicrobenchError::Key(SigningKeyError::NotRsa(_)))) <==> !{
            &&& cert_type@.len() >= 3
            &&& cert_type@[0] == 'r'
            &&& cert_type@[1] == 's'
            &&& cert_type@[2] == 'a'
        },
        r matches Err(MicrobenchError::Key(_)) ==> final(log)@ == old(log)@,
        r is Ok ==> final(log)@.len() == old(log)@.len() + 10404,
{
    proof {
        lemma_rsa_by_its_letters(cert_type@);
    }
    let ghost before = log@;
    let key = match signing_key(cert_type) {
        Ok(key) => key,
        Err(e) => {
            return Err(MicrobenchError::Key(e));
        },
    };
    match sign_times(&key, WARMUP_SIGNATURES, log) {
        Ok(_) => {},
        Err(e) => {
            return Err(MicrobenchError::Sign(e));
        },
    }
    let sign_start = read_time(log);
    assert(log@ =~= before + signings(key, WARMUP_SIGNATURES as nat).push(
        Operation::Reading(sign_start),
    ));
    let signature: Vec<u8> = match sign_times(&key, TIMED_SIGNATURES, log) {
        Ok(signature) => signature,
        Err(e) => {
            assert(timed_signing_failed(key, before, log@));
            return Err(MicrobenchError::Sign(e));
        },
    };
    let sign_end = read_time(log);
    let public: Vec<u8> = public_key(&key);
    match verify_times(public.as_slice(), signature.as_slice(), WARMUP_SIGNATURES, log) {
        Ok(_) => {},
        Err(e) => {
            return Err(MicrobenchError::Check(e));
        },
    }
    let check_start = read_time(log);
    match verify_times(public.as_slice(), signature.as_slice(), TIMED_SIGNATURES, log) {
        Ok(_) => {},
        Err(e) => {
            return Err(MicrobenchError::Check(e));
        },
    }
    let check_end = read_time(log);
    let run = Microbench { sign_start, sign_end, check_start, check_end };
    assert(log@ =~= before + timed_run(key, run));
    Ok(run)
}

/// What a finished run has done, operation by operation, with one and the same key of
/// the certificate type. Between the readings around the timed signing stand exactly
/// 5000 signatures of the message, and between those around the timed checking exactly
/// 5000 checks of its signature; 200 of each stand before. Returns the key.
pub proof fn lemma_microbench_operation_by_operation(
    cert_type: Seq<char>,
    before: Seq<Operation>,
    after: Seq<Operation>,
    run: Microbench,
) -> (key: aws_lc_rs::signature::RsaKeyPair)
    requires
        run_made(cert_type, before, after, run),
    ensures
        signing_key_gives(cert_type, Ok(key)),
        after.len() == before.len() + 10404,
        after.take(before.len() as int) == before,
        after[before.len() as int + 200] == Operation::Reading(run.sign_start),
        after[before.len() as int + 5201] == Operation::Reading(run.sign_end),
        after[before.len() as int + 5402] == Operation::Reading(run.check_start),
        after[before.len() as int + 10403] == Operation::Reading(run.check_end),
        forall|i: int|
            0 <= i < 200 || 200 < i < 5201 ==> after[#[trigger] (before.len() + i)]
                == (Operation::Sign {
                key,
                message: encode_utf8("handshake transcript hash stand-in (32 bytes!!)"@),
                made: true,
            }),
        forall|i: int|
            5201 < i < 5402 || 5402 < i < 10403 ==> after[#[trigger] (before.len() + i)]
                == (Operation::Check {
                public_key: rsa_public_key(key),
                message: encode_utf8("handshake transcript hash stand-in (32 bytes!!)"@),
                signature: rsa_signature(
                    key,
                    encode_utf8("handshake transcript hash stand-in (32 bytes!!)"@),
                ),
                accepted: true,
            }),
{
    let key = choose|key: aws_lc_rs::signature::RsaKeyPair|
        signing_key_gives(cert_type, Ok(key)) && after == before + #[trigger] timed_run(key, run);
    let done = timed_run(key, run);
    let b = before.len() as int;
    assert(after.take(b) =~= before);
    assert(done.len() == 10404);
    assert(forall|i: int| 0 <= i < 10404 ==> after[#[trigger] (b + i)] == done[i]);
    assert(after[b + 200] == done[200]);
    assert(after[b + 5201] == done[5201]);
    assert(after[b + 5402] == done[5402]);
    assert(after[b + 10403] == done[10403]);
    key
}

/// A run that ends for a signature that was not made ends with it. The log holds up to
/// then signatures of the message with one key of the certificate type, and behind the
/// first 200 of them a reading. Returns the key.
pub proof fn lemma_microbench_stops_at_a_failure(
    cert_type: Seq<char>,
    before: Seq<Operation>,
    after: Seq<Operation>,
) -> (key: aws_lc_rs::signature::RsaKeyPair)
    requires
        signing_failed(cert_type, before, after),
    ensures
        signing_key_gives(cert_type, Ok(key)),
        before.len() < after.len() <= before.len() + 5201,
        after.len() != before.len() + 201,
        after.take(before.len() as int) == before,
        after.last() == (Operation::Sign {
            key,
            message: encode_utf8("handshake transcript hash stand-in (32 bytes!!)"@),
            made: false,
        }),
        forall|i: int|
            0 <= i < after.len() - before.len() - 1 ==> if i == 200 {
                after[#[trigger] (before.len() + i)] is Reading
            } else {
                after[before.len() + i] == (Operation::Sign {
                    key,
                    message: encode_utf8("handshake transcript hash stand-in (32 bytes!!)"@),
                    made: true,
                })
            },
{
    let key = choose|key: aws_lc_rs::signature::RsaKeyPair|
        {
            &&& #[trigger] signing_key_gives(cert_type, Ok(key))
            &&& {
                ||| signing_failed_within(key, WARMUP_SIGNATURES as nat, before, after)
                ||| timed_signing_failed(key, before, after)
            }
        };
    let b = before.len() as int;
    if signing_failed_within(key, WARMUP_SIGNATURES as nat, before, after) {
        let k = choose|k: nat|
            k < WARMUP_SIGNATURES && after == before + #[trigger] signings(key, k).push(
                signing(key, false),
            );
        let done = signings(key, k).push(signing(key, false));
        assert(after.take(b) =~= before);
        assert(forall|i: int| 0 <= i < done.len() ==> after[#[trigger] (b + i)] == done[i]);
    } else {
        let start = choose|start: std::time::Instant|
            signing_failed_within(
                key,
                TIMED_SIGNATURES as nat,
                before + #[trigger] signings(key, WARMUP_SIGNATURES as nat).push(
                    Operation::Reading(start),
                ),
                after,
            );
        let first = signings(key, WARMUP_SIGNATURES as nat).push(Operation::Reading(start));
        let k = choose|k: nat|
            k < TIMED_SIGNATURES && after == before + first + #[trigger] signings(key, k).push(
                signing(key, false),
            );
        let done = first + signings(key, k).push(signing(key, false));
        assert(after =~= before + done);
        assert(after.take(b) =~= before);
        assert(forall|i: int| 0 <= i < done.len() ==> after[#[trigger] (b + i)] == done[i]);
    }
    key
}

} // verus!

//! RSA signatures, which aws-lc-rs makes and checks. Nothing here is proved: each
//! function hands a call to aws-lc-rs and states what the call is known to do.

use vstd::prelude::*;

verus! {

/// An RSA key pair of aws-lc-rs. Its modulus has 2048 to 8192 bits.
#[verifier::external_type_specification]
#[verifier::external_body]
pub struct ExRsaKeyPair(aws_lc_rs::signature::RsaKeyPair);

/// Why aws-lc-rs did not take a key.
#[verifier::external_type_specification]
#[verifier::external_body]
pub struct ExKeyRejected(aws_lc_rs::error::KeyRejected);

/// The error of aws-lc-rs that gives no reason.
#[verifier::external_type_specification]
#[verifier::external_body]
pub struct ExUnspecified(aws_lc_rs::error::Unspecified);

/// `r` can be the result of reading `pkcs8` as an RSA key pair.
pub uninterp spec fn rsa_key_gives(
    pkcs8: Seq<u8>,
    r: Result<aws_lc_rs::signature::RsaKeyPair, aws_lc_rs::error::KeyRejected>,
) -> bool;

/// The length of the key pair's public modulus in bytes.
pub uninterp spec fn modulus_len(key: aws_lc_rs::signature::RsaKeyPair) -> usize;

/// The public half of the key pair, encoded.
pub uninterp spec fn rsa_public_key(key: aws_lc_rs::signature::RsaKeyPair) -> Seq<u8>;

/// The PKCS#1 v1.5 signature of `message` with SHA-256.
pub uninterp spec fn rsa_signature(
    key: aws_lc_rs::signature::RsaKeyPair,
    message: Seq<u8>,
) -> Seq<u8>;

/// `signature` is accepted under the encoded public key as the PKCS#1 v1.5
/// signature of `message` with SHA-256.
pub uninterp spec fn rsa_accepts(
    public_key: Seq<u8>,
    message: Seq<u8>,
    signature: Seq<u8>,
) -> bool;

/// `RsaKeyPair::from_pkcs8` of aws-lc-rs. Claimed is only that the result is one
/// that the call can have.
#[verifier::external_body]
pub(crate) fn read_rsa_key(pkcs8: &[u8]) -> (r: Result<
    aws_lc_rs::signature::RsaKeyPair,
    aws_lc_rs::error::KeyRejected,
>)
    ensures
        rsa_key_gives(pkcs8@, r),
{
    aws_lc_rs::signature::RsaKeyPair::from_pkcs8(pkcs8)
}

/// `RsaKeyPair::public_modulus_len` of aws-lc-rs: depends on the key pair alone.
#[verifier::external_body]
pub(crate) fn public_modulus_len(key: &aws_lc_rs::signature::RsaKeyPair) -> (r: usize)
    ensures
        r == modulus_len(*key),
{
    key.public_modulus_len()
}

/// `KeyPair::public_key` of aws-lc-rs: the bytes depend on the key pair alone.
#[verifier::external_body]
pub(crate) fn public_key_bytes(key: &aws_lc_rs::signature::RsaKeyPair) -> (r: Vec<u8>)
    ensures
        r@ == rsa_public_key(*key),
{
    aws_lc_rs::signature::KeyPair::public_key(key).as_ref().to_vec()
}

/// `RsaKeyPair::sign` of aws-lc-rs with `RSA_PKCS1_SHA256`. PKCS#1 v1.5 signatures
/// hold nothing random, and the source of random numbers that the call takes is
/// not used, so a signature depends on the key pair and the message alone. It is
/// as long as the modulus, and it is accepted under the public half of the same
/// key pair. The call panics where the given space has another length. It can
/// fail, for no stated reason, and then writes nothing.
#[verifier::external_body]
pub(crate) fn sign(
    key: &aws_lc_rs::signature::RsaKeyPair,
    message: &[u8],
    signature: &mut Vec<u8>,
) -> (r: Result<(), aws_lc_rs::error::Unspecified>)
    requires
        old(signature)@.len() == modulus_len(*key),
    ensures
        final(signature)@.len() == old(signature)@.len(),
        r is Ok ==> final(signature)@ == rsa_signature(*key, message@),
        r is Ok ==> rsa_accepts(rsa_public_key(*key), message@, final(signature)@),
        r is Err ==> final(signature)@ == old(signature)@,
{
    key.sign(
        &aws_lc_rs::signature::RSA_PKCS1_SHA256,
        &aws_lc_rs::rand::SystemRandom::new(),
        message,
        signature,
    )
}

/// `UnparsedPublicKey::verify` of aws-lc-rs with `RSA_PKCS1_2048_8192_SHA256`:
/// whether the signature is accepted depends on the arguments alone.
#[verifier::external_body]
pub(crate) fn verify(public_key: &[u8], message: &[u8], signature: &[u8]) -> (r: Result<
    (),
    aws_lc_rs::error::Unspecified,
>)
    ensures
        r is Ok == rsa_accepts(public_key@, message@, signature@),
{
    aws_lc_rs::signature::UnparsedPublicKey::new(
        &aws_lc_rs::signature::RSA_PKCS1_2048_8192_SHA256,
        public_key,
    ).verify(message, signature)
}

} // verus!

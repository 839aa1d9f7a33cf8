//! Certificates and keys, which rcgen makes. Nothing here is proved: each function
//! hands a call to rcgen and states what the call is known to do.
//!
//! Keys and signatures are random, so a call has no one result. A predicate whose
//! name ends in `gives` holds of exactly the results that the call can have on
//! the arguments before them.

use crate::certs::{is_ca_params, is_server_params, KeyAlgorithm, RsaBits};
use vstd::prelude::*;

verus! {

/// A key pair of rcgen.
#[verifier::external_type_specification]
#[verifier::external_body]
pub struct ExKeyPair(rcgen::KeyPair);

/// The parameters of a certificate.
#[verifier::external_type_specification]
#[verifier::external_body]
pub struct ExCertificateParams(rcgen::CertificateParams);

/// An issued certificate.
#[verifier::external_type_specification]
#[verifier::external_body]
pub struct ExCertificate(rcgen::Certificate);

/// An error of rcgen.
#[verifier::external_type_specification]
#[verifier::external_body]
pub struct ExRcgenError(rcgen::Error);

/// `r` can be the result of generating a key for `algorithm` with the key size
/// that rcgen has for it.
pub uninterp spec fn generate_for_gives(
    algorithm: KeyAlgorithm,
    r: Result<rcgen::KeyPair, rcgen::Error>,
) -> bool;

/// `r` can be the result of generating an RSA key of `bits` bits for `algorithm`.
pub uninterp spec fn generate_rsa_for_gives(
    algorithm: KeyAlgorithm,
    bits: RsaBits,
    r: Result<rcgen::KeyPair, rcgen::Error>,
) -> bool;

/// `r` can be the result of making parameters for a certificate with the subject
/// alternative names `names`.
pub uninterp spec fn new_params_gives(
    names: Seq<Seq<char>>,
    r: Result<rcgen::CertificateParams, rcgen::Error>,
) -> bool;

/// `after` is `before` for a certificate authority without constraints.
pub uninterp spec fn unconstrained_ca_gives(
    before: rcgen::CertificateParams,
    after: rcgen::CertificateParams,
) -> bool;

/// `after` is `before` with the common name `name`.
pub uninterp spec fn common_name_gives(
    before: rcgen::CertificateParams,
    name: Seq<char>,
    after: rcgen::CertificateParams,
) -> bool;

/// `r` can be the result of issuing a certificate with these parameters for the
/// public half of `key`, signed with `key` itself.
pub uninterp spec fn self_signed_gives(
    params: rcgen::CertificateParams,
    key: rcgen::KeyPair,
    r: Result<rcgen::Certificate, rcgen::Error>,
) -> bool;

/// `r` can be the result of issuing a certificate with these parameters for the
/// public half of `key`, in the name of `issuer` and signed with `issuer_key`.
pub uninterp spec fn signed_by_gives(
    params: rcgen::CertificateParams,
    key: rcgen::KeyPair,
    issuer: rcgen::Certificate,
    issuer_key: rcgen::KeyPair,
    r: Result<rcgen::Certificate, rcgen::Error>,
) -> bool;

/// The PEM text of a certificate.
pub uninterp spec fn certificate_pem(certificate: rcgen::Certificate) -> Seq<char>;

/// The DER bytes of a certificate.
pub uninterp spec fn certificate_der(certificate: rcgen::Certificate) -> Seq<u8>;

/// The PEM text of a key pair.
pub uninterp spec fn key_pem(key: rcgen::KeyPair) -> Seq<char>;

/// The PKCS#8 DER bytes of a key pair.
pub uninterp spec fn key_der(key: rcgen::KeyPair) -> Seq<u8>;

/// The key pair came out of a generation, so that this process holds its private half.
pub open spec fn was_generated(key: rcgen::KeyPair) -> bool {
    ||| exists|algorithm: KeyAlgorithm| #[trigger] generate_for_gives(algorithm, Ok(key))
    ||| exists|algorithm: KeyAlgorithm, bits: RsaBits| #[trigger]
        generate_rsa_for_gives(algorithm, bits, Ok(key))
}

/// `KeyPair::generate_for` of rcgen: a new random key pair for the algorithm.
/// Claimed is only that the result is one that the call can have.
#[verifier::external_body]
pub(crate) fn generate_for(algorithm: KeyAlgorithm) -> (r: Result<rcgen::KeyPair, rcgen::Error>)
    ensures
        generate_for_gives(algorithm, r),
{
    rcgen::KeyPair::generate_for(
        match algorithm {
            KeyAlgorithm::RsaSha256 => &rcgen::PKCS_RSA_SHA256,
            KeyAlgorithm::EcdsaP256Sha256 => &rcgen::PKCS_ECDSA_P256_SHA256,
            KeyAlgorithm::EcdsaP384Sha384 => &rcgen::PKCS_ECDSA_P384_SHA384,
        },
    )
}

/// `KeyPair::generate_rsa_for` of rcgen: a new random RSA key pair of the size.
/// Claimed is only that the result is one that the call can have.
#[verifier::external_body]
pub(crate) fn generate_rsa_for(
    algorithm: KeyAlgorithm,
    bits: RsaBits,
) -> (r: Result<rcgen::KeyPair, rcgen::Error>)
    ensures
        generate_rsa_for_gives(algorithm, bits, r),
{
    rcgen::KeyPair::generate_rsa_for(
        match algorithm {
            KeyAlgorithm::RsaSha256 => &rcgen::PKCS_RSA_SHA256,
            KeyAlgorithm::EcdsaP256Sha256 => &rcgen::PKCS_ECDSA_P256_SHA256,
            KeyAlgorithm::EcdsaP384Sha384 => &rcgen::PKCS_ECDSA_P384_SHA384,
        },
        match bits {
            RsaBits::Bits2048 => rcgen::RsaKeySize::_2048,
            RsaBits::Bits3072 => rcgen::RsaKeySize::_3072,
            RsaBits::Bits4096 => rcgen::RsaKeySize::_4096,
        },
    )
}

/// `CertificateParams::new` of rcgen: rcgen's default parameters with the given
/// subject alternative names. Claimed is only that the result is one that the call
/// can have.
#[verifier::external_body]
pub(crate) fn new_params(names: Vec<String>) -> (r: Result<rcgen::CertificateParams, rcgen::Error>)
    ensures
        new_params_gives(crate::cli::text_views(names@), r),
{
    rcgen::CertificateParams::new(names)
}

/// The `is_ca` field of rcgen's `CertificateParams`, set to an authority without
/// constraints. Claimed is that the parameters become what this assignment makes
/// of them.
#[verifier::external_body]
pub(crate) fn make_unconstrained_ca(params: &mut rcgen::CertificateParams)
    ensures
        unconstrained_ca_gives(*old(params), *final(params)),
{
    params.is_ca = rcgen::IsCa::Ca(rcgen::BasicConstraints::Unconstrained);
}

/// `DistinguishedName::push` of rcgen, for the common name. Claimed is that the
/// parameters become what the call makes of them.
#[verifier::external_body]
pub(crate) fn set_common_name(params: &mut rcgen::CertificateParams, name: &str)
    ensures
        common_name_gives(*old(params), name@, *final(params)),
{
    params.distinguished_name.push(rcgen::DnType::CommonName, name);
}

/// `CertificateParams::self_signed` of rcgen. Claimed is only that the result is
/// one that the call can have. It panics on a date outside the years 0 to 9999; the
/// authority's parameters have the dates that rcgen gives them.
#[verifier::external_body]
pub(crate) fn self_signed(params: rcgen::CertificateParams, key: &rcgen::KeyPair) -> (r: Result<
    rcgen::Certificate,
    rcgen::Error,
>)
    requires
        is_ca_params(params),
        was_generated(*key),
    ensures
        self_signed_gives(params, *key, r),
{
    params.self_signed(key)
}

/// `CertificateParams::signed_by` of rcgen. Claimed is only that the result is one
/// that the call can have. It panics on a date outside the years 0 to 9999; the
/// server's parameters have the dates that rcgen gives them.
#[verifier::external_body]
pub(crate) fn signed_by(
    params: rcgen::CertificateParams,
    key: &rcgen::KeyPair,
    issuer: &rcgen::Certificate,
    issuer_key: &rcgen::KeyPair,
) -> (r: Result<rcgen::Certificate, rcgen::Error>)
    requires
        is_server_params(params),
        was_generated(*key),
        was_generated(*issuer_key),
    ensures
        signed_by_gives(params, *key, *issuer, *issuer_key, r),
{
    params.signed_by(key, issuer, issuer_key)
}

/// `Certificate::pem` of rcgen: the text depends on the certificate alone.
#[verifier::external_body]
pub(crate) fn pem_of(certificate: &rcgen::Certificate) -> (r: String)
    ensures
        r@ == certificate_pem(*certificate),
{
    certificate.pem()
}

/// `Certificate::der` of rcgen: the bytes depend on the certificate alone.
#[verifier::external_body]
pub(crate) fn der_of(certificate: &rcgen::Certificate) -> (r: Vec<u8>)
    ensures
        r@ == certificate_der(*certificate),
{
    certificate.der().to_vec()
}

/// `KeyPair::serialize_pem` of rcgen: the text depends on the key pair alone. It
/// panics on a key pair whose private half is held elsewhere, which a generated
/// one never is.
#[verifier::external_body]
pub(crate) fn key_pem_of(key: &rcgen::KeyPair) -> (r: String)
    requires
        was_generated(*key),
    ensures
        r@ == key_pem(*key),
{
    key.serialize_pem()
}

/// `KeyPair::serialize_der` of rcgen: the bytes depend on the key pair alone. It
/// panics on a key pair whose private half is held elsewhere, which a generated
/// one never is.
#[verifier::external_body]
pub(crate) fn key_der_of(key: &rcgen::KeyPair) -> (r: Vec<u8>)
    requires
        was_generated(*key),
    ensures
        r@ == key_der(*key),
{
    key.serialize_der()
}

} // verus!

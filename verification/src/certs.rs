//! The certificates of a run: an authority and a server certificate that it signed.

use crate::cli::text_views;
use crate::keys::{generate_key, key_made, Generation, KeyLog};
use crate::rcgen_backend::{
    certificate_der, certificate_pem, common_name_gives, der_of, generate_for_gives,
    generate_rsa_for_gives, key_der, key_der_of, key_pem, key_pem_of, make_unconstrained_ca,
    new_params, new_params_gives, pem_of, self_signed, self_signed_gives, set_common_name,
    signed_by, signed_by_gives, unconstrained_ca_gives,
};
use crate::text::same_text;
use vstd::prelude::*;
use vstd::utf8::encode_utf8;

verus! {

/// A signature algorithm.
#[derive(Clone, Copy, Debug, PartialEq, Eq, Structural)]
pub enum KeyAlgorithm {
    RsaSha256,
    EcdsaP256Sha256,
    EcdsaP384Sha384,
}

/// The size of an RSA key.
#[derive(Clone, Copy, Debug, PartialEq, Eq, Structural)]
pub enum RsaBits {
    Bits2048,
    Bits3072,
    Bits4096,
}

/// Which key to generate: the algorithm and, where it is chosen, the RSA key size.
#[derive(Clone, Copy, Debug, PartialEq, Eq, Structural)]
pub struct KeyPlan {
    pub algorithm: KeyAlgorithm,
    pub rsa_bits: Option<RsaBits>,
}

/// The key that a certificate type asks for. A type that is not known gets an RSA
/// key of no chosen size.
pub open spec fn plan_for(cert_type: Seq<char>) -> KeyPlan {
    if cert_type == "rsa2048"@ {
        KeyPlan { algorithm: KeyAlgorithm::RsaSha256, rsa_bits: Some(RsaBits::Bits2048) }
    } else if cert_type == "rsa3072"@ {
        KeyPlan { algorithm: KeyAlgorithm::RsaSha256, rsa_bits: Some(RsaBits::Bits3072) }
    } else if cert_type == "rsa4096"@ {
        KeyPlan { algorithm: KeyAlgorithm::RsaSha256, rsa_bits: Some(RsaBits::Bits4096) }
    } else if cert_type == "ecdsa256"@ {
        KeyPlan { algorithm: KeyAlgorithm::EcdsaP256Sha256, rsa_bits: None }
    } else if cert_type == "ecdsa384"@ {
        KeyPlan { algorithm: KeyAlgorithm::EcdsaP384Sha384, rsa_bits: None }
    } else {
        KeyPlan { algorithm: KeyAlgorithm::RsaSha256, rsa_bits: None }
    }
}

/// Each of the five certificate types asks for a key of its own kind; any other type
/// asks for an RSA key of no chosen size.
pub proof fn lemma_types_ask_for_their_keys(cert_type: Seq<char>)
    ensures
        plan_for(cert_type).rsa_bits == Some(RsaBits::Bits2048) <==> cert_type == "rsa2048"@,
        plan_for(cert_type).rsa_bits == Some(RsaBits::Bits3072) <==> cert_type == "rsa3072"@,
        plan_for(cert_type).rsa_bits == Some(RsaBits::Bits4096) <==> cert_type == "rsa4096"@,
        plan_for(cert_type).algorithm == KeyAlgorithm::EcdsaP256Sha256 <==> cert_type
            == "ecdsa256"@,
        plan_for(cert_type).algorithm == KeyAlgorithm::EcdsaP384Sha384 <==> cert_type
            == "ecdsa384"@,
        plan_for(cert_type).rsa_bits is Some ==> plan_for(cert_type).algorithm
            == KeyAlgorithm::RsaSha256,
{
    reveal_strlit("rsa2048");
    reveal_strlit("rsa3072");
    reveal_strlit("rsa4096");
    reveal_strlit("ecdsa256");
    reveal_strlit("ecdsa384");
    assert("rsa2048"@[3] == '2' && "rsa3072"@[3] == '3' && "rsa4096"@[3] == '4');
    assert("ecdsa256"@[5] == '2' && "ecdsa384"@[5] == '3' && "ecdsa256"@[0] == 'e');
}

/// Says which key a certificate type asks for.
pub fn key_plan(cert_type: &str) -> (r: KeyPlan)
    ensures
        r == plan_for(cert_type@),
        r.rsa_bits == Some(RsaBits::Bits2048) <==> cert_type@ == "rsa2048"@,
        r.rsa_bits == Some(RsaBits::Bits3072) <==> cert_type@ == "rsa3072"@,
        r.rsa_bits == Some(RsaBits::Bits4096) <==> cert_type@ == "rsa4096"@,
        r.algorithm == KeyAlgorithm::EcdsaP256Sha256 <==> cert_type@ == "ecdsa256"@,
        r.algorithm == KeyAlgorithm::EcdsaP384Sha384 <==> cert_type@ == "ecdsa384"@,
{
    proof {
        lemma_types_ask_for_their_keys(cert_type@);
    }
    if same_text(cert_type, "rsa2048") {
        KeyPlan { algorithm: KeyAlgorithm::RsaSha256, rsa_bits: Some(RsaBits::Bits2048) }
    } else if same_text(cert_type, "rsa3072") {
        KeyPlan { algorithm: KeyAlgorithm::RsaSha256, rsa_bits: Some(RsaBits::Bits3072) }
    } else if same_text(cert_type, "rsa4096") {
        KeyPlan { algorithm: KeyAlgorithm::RsaSha256, rsa_bits: Some(RsaBits::Bits4096) }
    } else if same_text(cert_type, "ecdsa256") {
        KeyPlan { algorithm: KeyAlgorithm::EcdsaP256Sha256, rsa_bits: None }
    } else if same_text(cert_type, "ecdsa384") {
        KeyPlan { algorithm: KeyAlgorithm::EcdsaP384Sha384, rsa_bits: None }
    } else {
        KeyPlan { algorithm: KeyAlgorithm::RsaSha256, rsa_bits: None }
    }
}

/// Certificate material in the two forms that the implementations read: PEM for
/// s2n-tls, DER for rustls.
#[derive(Debug)]
pub struct CertMaterial {
    pub ca_pem: Vec<u8>,
    pub cert_chain_pem: Vec<u8>,
    pub key_pem: Vec<u8>,
    pub server_cert_der: Vec<u8>,
    pub ca_cert_der: Vec<u8>,
    pub server_key_der: Vec<u8>,
}

impl CertMaterial {
    /// Puts the encodings of an authority, a server certificate and the server's
    /// key together. The chain is the server certificate followed by the authority.
    pub fn from_encodings(
        ca_pem: &str,
        server_pem: &str,
        key_pem: &str,
        ca_der: Vec<u8>,
        server_der: Vec<u8>,
        key_der: Vec<u8>,
    ) -> (r: CertMaterial)
        ensures
            r.ca_pem@ == encode_utf8(ca_pem@),
            r.cert_chain_pem@ == encode_utf8(server_pem@ + ca_pem@),
            r.key_pem@ == encode_utf8(key_pem@),
            r.server_cert_der == server_der,
            r.ca_cert_der == ca_der,
            r.server_key_der == key_der,
    {
        let mut chain: String = server_pem.to_owned();
        chain.append(ca_pem);
        CertMaterial {
            ca_pem: ca_pem.as_bytes_vec(),
            cert_chain_pem: chain.as_str().as_bytes_vec(),
            key_pem: key_pem.as_bytes_vec(),
            server_cert_der: server_der,
            ca_cert_der: ca_der,
            server_key_der: key_der,
        }
    }

    /// The material is that of these certificates and this server key.
    pub open spec fn is_of(
        &self,
        ca: rcgen::Certificate,
        server: rcgen::Certificate,
        server_key: rcgen::KeyPair,
    ) -> bool {
        &&& self.ca_pem@ == encode_utf8(certificate_pem(ca))
        &&& self.cert_chain_pem@ == encode_utf8(certificate_pem(server) + certificate_pem(ca))
        &&& self.key_pem@ == encode_utf8(key_pem(server_key))
        &&& self.server_cert_der@ == certificate_der(server)
        &&& self.ca_cert_der@ == certificate_der(ca)
        &&& self.server_key_der@ == key_der(server_key)
    }
}

/// Where making the certificates failed, with rcgen's error.
#[derive(Debug)]
pub enum CertError {
    CaKey(rcgen::Error),
    CaParams(rcgen::Error),
    CaCertificate(rcgen::Error),
    ServerKey(rcgen::Error),
    ServerParams(rcgen::Error),
    ServerCertificate(rcgen::Error),
}

/// The parameters of the authority: named `Benchmark CA`, for no host, and without
/// constraints.
pub open spec fn is_ca_params(params: rcgen::CertificateParams) -> bool {
    exists|p: rcgen::CertificateParams, q: rcgen::CertificateParams|
        {
            &&& new_params_gives(Seq::empty(), Ok(p))
            &&& #[trigger] unconstrained_ca_gives(p, q)
            &&& common_name_gives(q, "Benchmark CA"@, params)
        }
}

/// The parameters of the server: for the host `localhost` and named so.
pub open spec fn is_server_params(params: rcgen::CertificateParams) -> bool {
    exists|p: rcgen::CertificateParams|
        {
            &&& new_params_gives(seq!["localhost"@], Ok(p))
            &&& #[trigger] common_name_gives(p, "localhost"@, params)
        }
}

/// `r` can be the result of issuing the authority for `ca_key`, which signs itself.
pub open spec fn ca_issued(
    ca_key: rcgen::KeyPair,
    r: Result<rcgen::Certificate, rcgen::Error>,
) -> bool {
    exists|params: rcgen::CertificateParams|
        is_ca_params(params) && #[trigger] self_signed_gives(params, ca_key, r)
}

/// `r` can be the result of issuing the server's certificate for `server_key`,
/// which the authority `ca` signs with `ca_key`.
pub open spec fn server_issued(
    server_key: rcgen::KeyPair,
    ca: rcgen::Certificate,
    ca_key: rcgen::KeyPair,
    r: Result<rcgen::Certificate, rcgen::Error>,
) -> bool {
    exists|params: rcgen::CertificateParams|
        is_server_params(params) && #[trigger] signed_by_gives(
            params,
            server_key,
            ca,
            ca_key,
            r,
        )
}

/// An authority and a server certificate that it signed, each with a key of the plan.
pub open spec fn chain_made(
    plan: KeyPlan,
    ca_key: rcgen::KeyPair,
    ca: rcgen::Certificate,
    server_key: rcgen::KeyPair,
    server: rcgen::Certificate,
) -> bool {
    &&& key_made(plan, Ok(ca_key))
    &&& ca_issued(ca_key, Ok(ca))
    &&& key_made(plan, Ok(server_key))
    &&& server_issued(server_key, ca, ca_key, Ok(server))
}

/// An authority with a key of the plan.
pub open spec fn ca_made(plan: KeyPlan, ca_key: rcgen::KeyPair, ca: rcgen::Certificate) -> bool {
    key_made(plan, Ok(ca_key)) && ca_issued(ca_key, Ok(ca))
}

/// The log, behind `before`, after a key of the plan was generated.
pub open spec fn with_key(
    before: Seq<Generation>,
    plan: KeyPlan,
    result: Result<rcgen::KeyPair, rcgen::Error>,
) -> Seq<Generation> {
    before.push(Generation { plan, result })
}

/// The material of an authority and a server certificate that it signed, each with
/// a key of the plan. The two keys, the authority's first, are the ones that were
/// generated.
pub open spec fn material_made(
    plan: KeyPlan,
    before: Seq<Generation>,
    after: Seq<Generation>,
    material: CertMaterial,
) -> bool {
    exists|
        ca_key: rcgen::KeyPair,
        ca: rcgen::Certificate,
        server_key: rcgen::KeyPair,
        server: rcgen::Certificate,
    |
        {
            &&& #[trigger] chain_made(plan, ca_key, ca, server_key, server)
            &&& material.is_of(ca, server, server_key)
            &&& after == with_key(with_key(before, plan, Ok(ca_key)), plan, Ok(server_key))
        }
}

/// The one key of the plan that was generated is good.
pub open spec fn ca_key_made(
    plan: KeyPlan,
    before: Seq<Generation>,
    after: Seq<Generation>,
) -> bool {
    exists|ca_key: rcgen::KeyPair|
        key_made(plan, Ok(ca_key)) && after == #[trigger] with_key(before, plan, Ok(ca_key))
}

/// Issuing an authority with the one key that was generated failed with `e`.
pub open spec fn ca_failed(
    plan: KeyPlan,
    before: Seq<Generation>,
    after: Seq<Generation>,
    e: rcgen::Error,
) -> bool {
    exists|ca_key: rcgen::KeyPair|
        {
            &&& key_made(plan, Ok(ca_key))
            &&& #[trigger] ca_issued(ca_key, Err(e))
            &&& after == with_key(before, plan, Ok(ca_key))
        }
}

/// The authority was issued with the first key that was generated, and `second` is the
/// result of generating another one.
pub open spec fn second_key_made(
    plan: KeyPlan,
    before: Seq<Generation>,
    after: Seq<Generation>,
    second: Result<rcgen::KeyPair, rcgen::Error>,
) -> bool {
    exists|ca_key: rcgen::KeyPair, ca: rcgen::Certificate|
        {
            &&& #[trigger] ca_made(plan, ca_key, ca)
            &&& key_made(plan, second)
            &&& after == with_key(with_key(before, plan, Ok(ca_key)), plan, second)
        }
}

/// Both keys are good, and the authority was issued with the first one.
pub open spec fn both_keys_made(
    plan: KeyPlan,
    before: Seq<Generation>,
    after: Seq<Generation>,
) -> bool {
    exists|server_key: rcgen::KeyPair| #[trigger]
        second_key_made(plan, before, after, Ok(server_key))
}

/// Issuing a server certificate with the second key that was generated, under an
/// authority with the first one, failed with `e`.
pub open spec fn server_failed(
    plan: KeyPlan,
    before: Seq<Generation>,
    after: Seq<Generation>,
    e: rcgen::Error,
) -> bool {
    exists|ca_key: rcgen::KeyPair, ca: rcgen::Certificate, server_key: rcgen::KeyPair|
        {
            &&& ca_made(plan, ca_key, ca)
            &&& key_made(plan, Ok(server_key))
            &&& #[trigger] server_issued(server_key, ca, ca_key, Err(e))
            &&& after == with_key(with_key(before, plan, Ok(ca_key)), plan, Ok(server_key))
        }
}

/// `r` can be the result of making the certificates for a plan, with the keys that were
/// generated between `before` and `after`. The steps are the authority's key,
/// parameters and certificate, then those of the server; an error of one step means
/// that those before it went well.
pub open spec fn certs_made(
    plan: KeyPlan,
    before: Seq<Generation>,
    after: Seq<Generation>,
    r: Result<CertMaterial, CertError>,
) -> bool {
    match r {
        Ok(material) => material_made(plan, before, after, material),
        Err(CertError::CaKey(e)) => key_made(plan, Err(e)) && after == with_key(
            before,
            plan,
            Err(e),
        ),
        Err(CertError::CaParams(e)) => ca_key_made(plan, before, after) && new_params_gives(
            Seq::empty(),
            Err(e),
        ),
        Err(CertError::CaCertificate(e)) => ca_failed(plan, before, after, e),
        Err(CertError::ServerKey(e)) => second_key_made(plan, before, after, Err(e)),
        Err(CertError::ServerParams(e)) => both_keys_made(plan, before, after)
            && new_params_gives(seq!["localhost"@], Err(e)),
        Err(CertError::ServerCertificate(e)) => server_failed(plan, before, after, e),
    }
}

/// `r` can be the result of making the certificates for a plan.
pub open spec fn some_certs_made(plan: KeyPlan, r: Result<CertMaterial, CertError>) -> bool {
    exists|before: Seq<Generation>, after: Seq<Generation>| #[trigger]
        certs_made(plan, before, after, r)
}

fn ca_params() -> (r: Result<rcgen::CertificateParams, rcgen::Error>)
    ensures
        match r {
            Ok(params) => is_ca_params(params),
            Err(e) => new_params_gives(Seq::empty(), Err(e)),
        },
{
    let names: Vec<String> = Vec::new();
    assert(text_views(names@) =~= Seq::empty());
    match new_params(names) {
        Ok(params) => {
            let mut params = params;
            make_unconstrained_ca(&mut params);
            set_common_name(&mut params, "Benchmark CA");
            Ok(params)
        },
        Err(e) => Err(e),
    }
}

fn server_params() -> (r: Result<rcgen::CertificateParams, rcgen::Error>)
    ensures
        match r {
            Ok(params) => is_server_params(params),
            Err(e) => new_params_gives(seq!["localhost"@], Err(e)),
        },
{
    let mut names: Vec<String> = Vec::new();
    names.push("localhost".to_owned());
    assert(text_views(names@) =~= seq!["localhost"@]);
    match new_params(names) {
        Ok(params) => {
            let mut params = params;
            set_common_name(&mut params, "localhost");
            Ok(params)
        },
        Err(e) => Err(e),
    }
}

/// Generates an authority and a server certificate signed by it, each with a key of its
/// own of the kind that the certificate type asks for.
///
/// The keys and signatures are new and random in each call, so the contract says
/// which calls the result comes from, not which bytes it holds.
pub fn generate_certs(cert_type: &str, log: &mut KeyLog) -> (r: Result<CertMaterial, CertError>)
    ensures
        certs_made(plan_for(cert_type@), old(log)@, final(log)@, r),
        final(log)@.len() == old(log)@.len() + match r {
            Err(CertError::CaKey(_)) => 1,
            Err(CertError::CaParams(_)) => 1,
            Err(CertError::CaCertificate(_)) => 1,
            _ => 2int,
        },
        final(log)@.take(old(log)@.len() as int) == old(log)@,
        forall|i: int|
            old(log)@.len() <= i < final(log)@.len() ==> (#[trigger] final(log)@[i]).plan
                == plan_for(cert_type@),
        r matches Ok(material) ==> final(log)@.last().result matches Ok(server_key) && {
            &&& material.server_key_der@ == key_der(server_key)
            &&& material.key_pem@ == encode_utf8(key_pem(server_key))
        },
{
    let plan: KeyPlan = key_plan(cert_type);
    let ghost before = log@;
    let ca_key = match generate_key(plan, log) {
        Ok(key) => key,
        Err(e) => {
            assert(log@.take(before.len() as int) =~= before);
            return Err(CertError::CaKey(e));
        },
    };
    assert(log@ == with_key(before, plan, Ok(ca_key)));
    assert(log@.take(before.len() as int) =~= before);
    let ca_params = match ca_params() {
        Ok(params) => params,
        Err(e) => {
            assert(ca_key_made(plan, before, log@));
            return Err(CertError::CaParams(e));
        },
    };
    let ca = match self_signed(ca_params, &ca_key) {
        Ok(certificate) => certificate,
        Err(e) => {
            assert(ca_issued(ca_key, Err(e)));
            assert(ca_failed(plan, before, log@, e));
            return Err(CertError::CaCertificate(e));
        },
    };
    assert(ca_issued(ca_key, Ok(ca)));
    assert(ca_made(plan, ca_key, ca));
    let server_key = match generate_key(plan, log) {
        Ok(key) => key,
        Err(e) => {
            assert(log@.take(before.len() as int) =~= before);
            assert(second_key_made(plan, before, log@, Err(e)));
            return Err(CertError::ServerKey(e));
        },
    };
    assert(log@.take(before.len() as int) =~= before);
    assert(second_key_made(plan, before, log@, Ok(server_key)));
    let server_params = match server_params() {
        Ok(params) => params,
        Err(e) => {
            return Err(CertError::ServerParams(e));
        },
    };
    let server = match signed_by(server_params, &server_key, &ca, &ca_key) {
        Ok(certificate) => certificate,
        Err(e) => {
            assert(server_issued(server_key, ca, ca_key, Err(e)));
            assert(server_failed(plan, before, log@, e));
            return Err(CertError::ServerCertificate(e));
        },
    };
    assert(chain_made(plan, ca_key, ca, server_key, server));
    Ok(
        CertMaterial::from_encodings(
            pem_of(&ca).as_str(),
            pem_of(&server).as_str(),
            key_pem_of(&server_key).as_str(),
            der_of(&ca),
            der_of(&server),
            key_der_of(&server_key),
        ),
    )
}

/// What certificates can be made for a plan is what can be made of it with the keys that
/// some call generated. Returns the keys before and after that call.
pub proof fn lemma_certificates_are_made_of_their_plan(
    plan: KeyPlan,
    r: Result<CertMaterial, CertError>,
) -> (w: (Seq<Generation>, Seq<Generation>))
    requires
        some_certs_made(plan, r),
    ensures
        certs_made(plan, w.0, w.1, r),
{
    choose|before: Seq<Generation>, after: Seq<Generation>| #[trigger]
        certs_made(plan, before, after, r)
}

/// What stands behind the material of a run. Two keys of the plan were generated. The
/// first signs, for parameters without a host that are named `Benchmark CA` and are
/// those of an authority without constraints, its own certificate. The second gets a
/// certificate for the host `localhost`, named so, which the authority signs with the
/// first. The chain is the server's certificate followed by that of the authority.
/// Returns the authority's key and certificate and then the server's.
pub proof fn lemma_material_is_of_one_chain(
    plan: KeyPlan,
    before: Seq<Generation>,
    after: Seq<Generation>,
    material: CertMaterial,
) -> (w: (rcgen::KeyPair, rcgen::Certificate, rcgen::KeyPair, rcgen::Certificate))
    requires
        certs_made(plan, before, after, Ok(material)),
    ensures
        after.len() == before.len() + 2,
        after.take(before.len() as int) == before,
        after[before.len() as int] == (Generation { plan, result: Ok(w.0) }),
        after[before.len() as int + 1] == (Generation { plan, result: Ok(w.2) }),
        plan.rsa_bits matches Some(bits) ==> generate_rsa_for_gives(plan.algorithm, bits, Ok(w.0)),
        plan.rsa_bits matches Some(bits) ==> generate_rsa_for_gives(plan.algorithm, bits, Ok(w.2)),
        plan.rsa_bits is None ==> generate_for_gives(plan.algorithm, Ok(w.0)),
        plan.rsa_bits is None ==> generate_for_gives(plan.algorithm, Ok(w.2)),
        exists|
            p: rcgen::CertificateParams,
            q: rcgen::CertificateParams,
            params: rcgen::CertificateParams,
        |
            {
                &&& new_params_gives(Seq::empty(), Ok(p))
                &&& #[trigger] unconstrained_ca_gives(p, q)
                &&& common_name_gives(q, "Benchmark CA"@, params)
                &&& #[trigger] self_signed_gives(params, w.0, Ok(w.1))
            },
        exists|p: rcgen::CertificateParams, params: rcgen::CertificateParams|
            {
                &&& new_params_gives(seq!["localhost"@], Ok(p))
                &&& #[trigger] common_name_gives(p, "localhost"@, params)
                &&& signed_by_gives(params, w.2, w.1, w.0, Ok(w.3))
            },
        material.ca_pem@ == encode_utf8(certificate_pem(w.1)),
        material.ca_cert_der@ == certificate_der(w.1),
        material.cert_chain_pem@ == encode_utf8(certificate_pem(w.3) + certificate_pem(w.1)),
        material.server_cert_der@ == certificate_der(w.3),
        material.key_pem@ == encode_utf8(key_pem(w.2)),
        material.server_key_der@ == key_der(w.2),
{
    let (ca_key, ca, server_key, server) = choose|
        ca_key: rcgen::KeyPair,
        ca: rcgen::Certificate,
        server_key: rcgen::KeyPair,
        server: rcgen::Certificate,
    |
        {
            &&& #[trigger] chain_made(plan, ca_key, ca, server_key, server)
            &&& material.is_of(ca, server, server_key)
            &&& after == with_key(with_key(before, plan, Ok(ca_key)), plan, Ok(server_key))
        };
    assert(after.take(before.len() as int) =~= before);
    let params = choose|params: rcgen::CertificateParams|
        is_ca_params(params) && #[trigger] self_signed_gives(params, ca_key, Ok(ca));
    let (p, q) = choose|p: rcgen::CertificateParams, q: rcgen::CertificateParams|
        {
            &&& new_params_gives(Seq::empty(), Ok(p))
            &&& #[trigger] unconstrained_ca_gives(p, q)
            &&& common_name_gives(q, "Benchmark CA"@, params)
        };
    assert(unconstrained_ca_gives(p, q) && self_signed_gives(params, ca_key, Ok(ca)));
    let host = choose|params: rcgen::CertificateParams|
        is_server_params(params) && #[trigger] signed_by_gives(
            params,
            server_key,
            ca,
            ca_key,
            Ok(server),
        );
    let r = choose|p: rcgen::CertificateParams|
        {
            &&& new_params_gives(seq!["localhost"@], Ok(p))
            &&& #[trigger] common_name_gives(p, "localhost"@, host)
        };
    assert(common_name_gives(r, "localhost"@, host));
    (ca_key, ca, server_key, server)
}

/// Where there is no material, one step failed, and those behind it were not tried. All
/// keys that were generated are of the plan, and all but the one that failed are good.
pub proof fn lemma_certificates_fail_at_one_step(
    plan: KeyPlan,
    before: Seq<Generation>,
    after: Seq<Generation>,
    e: CertError,
)
    requires
        certs_made(plan, before, after, Err(e)),
    ensures
        after.take(before.len() as int) == before,
        forall|i: int|
            before.len() <= i < after.len() ==> (#[trigger] after[i]).plan == plan,
        after.len() == before.len() + 1 || after.len() == before.len() + 2,
        after.len() == before.len() + 2 ==> after[before.len() as int].result is Ok,
        match e {
            CertError::CaKey(e) => after.len() == before.len() + 1 && after.last().result == Err::<
                rcgen::KeyPair,
                rcgen::Error,
            >(e),
            CertError::CaParams(e) => after.len() == before.len() + 1 && after.last().result is Ok
                && new_params_gives(Seq::empty(), Err(e)),
            CertError::CaCertificate(e) => after.len() == before.len() + 1
                && after.last().result is Ok && exists|params: rcgen::CertificateParams|
                #[trigger] self_signed_gives(params, after.last().result->Ok_0, Err(e)),
            CertError::ServerKey(e) => after.len() == before.len() + 2 && after.last().result
                == Err::<rcgen::KeyPair, rcgen::Error>(e),
            CertError::ServerParams(e) => after.len() == before.len() + 2
                && after.last().result is Ok && new_params_gives(seq!["localhost"@], Err(e)),
            CertError::ServerCertificate(e) => after.len() == before.len() + 2
                && after.last().result is Ok && exists|
                params: rcgen::CertificateParams,
                ca: rcgen::Certificate,
            | #[trigger]
                signed_by_gives(
                    params,
                    after.last().result->Ok_0,
                    ca,
                    after[before.len() as int].result->Ok_0,
                    Err(e),
                ),
        },
{
    assert(after.take(before.len() as int) =~= before);
    match e {
        CertError::CaCertificate(e) => {
            let ca_key = choose|ca_key: rcgen::KeyPair|
                {
                    &&& key_made(plan, Ok(ca_key))
                    &&& #[trigger] ca_issued(ca_key, Err(e))
                    &&& after == with_key(before, plan, Ok(ca_key))
                };
            assert(after.last().result->Ok_0 == ca_key);
        },
        CertError::ServerParams(_) => {
            let server_key = choose|server_key: rcgen::KeyPair| #[trigger]
                second_key_made(plan, before, after, Ok(server_key));
            assert(after.last().result == Ok::<rcgen::KeyPair, rcgen::Error>(server_key));
        },
        CertError::ServerCertificate(e) => {
            let (ca_key, ca, server_key) = choose|
                ca_key: rcgen::KeyPair,
                ca: rcgen::Certificate,
                server_key: rcgen::KeyPair,
            |
                {
                    &&& ca_made(plan, ca_key, ca)
                    &&& key_made(plan, Ok(server_key))
                    &&& #[trigger] server_issued(server_key, ca, ca_key, Err(e))
                    &&& after == with_key(with_key(before, plan, Ok(ca_key)), plan, Ok(server_key))
                };
            assert(after.last().result->Ok_0 == server_key);
            assert(after[before.len() as int].result->Ok_0 == ca_key);
        },
        _ => {},
    }
}

} // verus!

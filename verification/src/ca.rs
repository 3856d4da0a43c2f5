//! The local root certificate authority of the HTTPS proxy: loading it back
//! from its PEM files, creating a new one, and issuing a certificate for each
//! intercepted domain. Keys are random and dates come from the clock, so what
//! rcgen signs is not stated; which names it is asked to sign for, for how
//! long, and when a request is refused, is.

use vstd::prelude::*;

use rcgen::{
    BasicConstraints, Certificate, CertificateParams, DistinguishedName, DnType, Ia5String, IsCa, KeyPair,
    KeyUsagePurpose, SanType,
};
use time::OffsetDateTime;

verus! {

#[verifier::external_type_specification]
#[verifier::external_body]
pub struct ExCertificate(rcgen::Certificate);

#[verifier::external_type_specification]
#[verifier::external_body]
pub struct ExKeyPair(rcgen::KeyPair);

#[verifier::external_type_specification]
#[verifier::external_body]
pub struct ExRcgenError(rcgen::Error);

/// Seconds in a day.
pub const SECONDS_PER_DAY: i64 = 86400;

/// How long a new root lasts, in days.
pub const ROOT_VALIDITY_DAYS: i64 = 3650;

/// How long an issued certificate lasts, in days.
pub const LEAF_VALIDITY_DAYS: i64 = 365;

/// Why a certificate could not be had.
#[derive(Debug)]
pub enum CaError {
    /// rcgen refused the key, the certificate or the signature.
    Rcgen(rcgen::Error),
    /// The domain cannot stand in a certificate's DNS name (it is not ASCII).
    InvalidDomain(String),
    /// A validity date lies outside the calendar the certificate can carry.
    InvalidTime,
}

/// Whether rcgen reads a key pair from `key_pem`, a CA certificate from
/// `cert_pem`, and signs that certificate again with that key.
pub uninterp spec fn ca_pem_loads(cert_pem: Seq<char>, key_pem: Seq<char>) -> bool;

/// A root CA: its certificate (PEM and DER) and key (PEM), with the rcgen
/// values that sign with them.
pub struct CaMaterial {
    pub cert_pem: String,
    pub key_pem: String,
    pub cert_der: Vec<u8>,
    pub cert: Certificate,
    pub key: KeyPair,
}

/// Calls `KeyPair::from_pem`, `CertificateParams::from_ca_cert_pem` and
/// `self_signed`, and takes the DER of the certificate. Claims that it
/// succeeds exactly when the named check holds of the two texts (reading
/// the texts decides it; the signature draws on the system's random source,
/// which is taken to work); the DER is freshly signed, so nothing is stated
/// of it.
#[verifier::external_body]
fn reload_ca(cert_pem: &str, key_pem: &str) -> (r: Result<(Certificate, KeyPair, Vec<u8>), rcgen::Error>)
    ensures
        r is Ok <==> ca_pem_loads(cert_pem@, key_pem@),
{
    let key = KeyPair::from_pem(key_pem)?;
    let cert = CertificateParams::from_ca_cert_pem(cert_pem)?.self_signed(&key)?;
    let der = cert.der().to_vec();
    Ok((cert, key, der))
}

#[verifier::external_type_specification]
#[verifier::external_body]
pub struct ExCertificateParams(rcgen::CertificateParams);

/// What a certificate may do: act as an authority (with no limit on the
/// length of the chain below it) or be an end entity.
#[derive(Debug, Clone, Copy, PartialEq, Eq, Structural)]
pub enum CertUse {
    Authority,
    EndEntity,
}

/// A use of the certificate's key.
#[derive(Debug, Clone, Copy, PartialEq, Eq, Structural)]
pub enum KeyUse {
    CertSign,
    CrlSign,
}

/// What a certificate is to say: subject names, DNS name, uses, and
/// validity as Unix times.
pub struct CertRequest {
    pub common_name: String,
    pub organization: Option<String>,
    pub dns_name: Option<String>,
    pub usage: CertUse,
    pub key_uses: Vec<KeyUse>,
    pub not_before: i64,
    pub not_after: i64,
}

/// Calls `CertificateParams::default` and sets a distinguished name of just
/// the common name and, where given, the organization. The parameters are
/// an opaque value, so nothing is stated of them.
#[verifier::external_body]
fn params_named(common_name: &str, organization: &Option<String>) -> (r: CertificateParams) {
    let mut p = CertificateParams::default();
    p.distinguished_name = DistinguishedName::new();
    p.distinguished_name.push(DnType::CommonName, common_name);
    for o in organization {
        p.distinguished_name.push(DnType::OrganizationName, o.as_str());
    }
    p
}

/// Calls `Ia5String::try_from` and sets the one DNS name of the parameters.
/// Claims that it succeeds exactly on ASCII names, as rcgen's `Ia5String`
/// does.
#[verifier::external_body]
fn with_dns_name(p: CertificateParams, name: &str) -> (r: Result<CertificateParams, rcgen::Error>)
    ensures
        r is Ok <==> vstd::utf8::is_ascii_chars(name@),
{
    let mut p = p;
    p.subject_alt_names = vec![SanType::DnsName(Ia5String::try_from(name)?)];
    Ok(p)
}

/// Sets the basic constraints and key usages of the parameters, one rcgen
/// value for each of ours. Nothing is stated of the opaque result.
#[verifier::external_body]
fn with_uses(p: CertificateParams, usage: CertUse, key_uses: &Vec<KeyUse>) -> (r: CertificateParams) {
    let mut p = p;
    p.is_ca = match usage {
        CertUse::Authority => IsCa::Ca(BasicConstraints::Unconstrained),
        CertUse::EndEntity => IsCa::NoCa,
    };
    p.key_usages = key_uses.iter().map(|u| match u {
        KeyUse::CertSign => KeyUsagePurpose::KeyCertSign,
        KeyUse::CrlSign => KeyUsagePurpose::CrlSign,
    }).collect();
    p
}

/// Unix times that the time crate turns into dates whatever its features:
/// from the start of year -9999 to the end of year 9999 (its narrowest
/// range; the `large-dates` feature widens it).
pub open spec fn in_calendar(t: i64) -> bool {
    -377705203200 <= t <= 253402300799
}

/// Calls `OffsetDateTime::from_unix_timestamp` for both ends of the
/// validity. A time out of its range is reported as `InvalidTime`, and
/// nothing else is reported; two times within the calendar are taken.
#[verifier::external_body]
fn with_validity(p: CertificateParams, not_before: i64, not_after: i64) -> (r: Result<CertificateParams, CaError>)
    ensures
        r matches Err(e) ==> e is InvalidTime,
        in_calendar(not_before) && in_calendar(not_after) ==> r is Ok,
{
    let mut p = p;
    p.not_before = OffsetDateTime::from_unix_timestamp(not_before).map_err(|_| CaError::InvalidTime)?;
    p.not_after = OffsetDateTime::from_unix_timestamp(not_after).map_err(|_| CaError::InvalidTime)?;
    Ok(p)
}

/// Calls `KeyPair::generate`. The key is random, so nothing is stated of it.
#[verifier::external_body]
fn new_key() -> (r: Result<KeyPair, rcgen::Error>) {
    KeyPair::generate()
}

/// Calls `CertificateParams::self_signed`. The signature is random, so
/// nothing is stated of the result.
#[verifier::external_body]
fn self_sign(p: CertificateParams, key: &KeyPair) -> (r: Result<Certificate, rcgen::Error>) {
    p.self_signed(key)
}

/// Calls `CertificateParams::signed_by` with the CA's certificate and key.
/// The signature is random, so nothing is stated of the result.
#[verifier::external_body]
fn sign_with(p: CertificateParams, key: &KeyPair, ca: &CaMaterial) -> (r: Result<Certificate, rcgen::Error>) {
    p.signed_by(key, &ca.cert, &ca.key)
}

/// Calls `Certificate::pem`, `KeyPair::serialize_pem` and `Certificate::der`.
/// Nothing is stated of the texts: they encode random values.
#[verifier::external_body]
fn ca_encodings(cert: &Certificate, key: &KeyPair) -> (r: (String, String, Vec<u8>)) {
    (cert.pem(), key.serialize_pem(), cert.der().to_vec())
}

/// Calls `Certificate::der` and `KeyPair::serialize_der`. Nothing is stated
/// of the bytes: they encode random values.
#[verifier::external_body]
fn leaf_encodings(cert: &Certificate, key: &KeyPair) -> (r: (Vec<u8>, Vec<u8>)) {
    (cert.der().to_vec(), key.serialize_der())
}

/// Calls `OffsetDateTime::now_utc` and takes its Unix time. What it returns
/// is the time, so nothing is stated of it.
#[verifier::external_body]
fn unix_now() -> (r: i64) {
    OffsetDateTime::now_utc().unix_timestamp()
}

/// The validity of a certificate issued at Unix time `now` for `days` days:
/// from `now` to `days` days later, when that time can be counted.
pub open spec fn spec_validity(now: i64, days: i64) -> Option<(i64, i64)> {
    let end = now + days * SECONDS_PER_DAY;
    if i64::MIN <= end <= i64::MAX {
        Some((now, end as i64))
    } else {
        None
    }
}

pub fn validity(now: i64, days: i64) -> (r: Option<(i64, i64)>)
    requires
        0 <= days <= ROOT_VALIDITY_DAYS,
    ensures
        r == spec_validity(now, days),
{
    let span: i64 = days * SECONDS_PER_DAY;
    match now.checked_add(span) {
        Some(end) => Some((now, end)),
        None => None,
    }
}

/// A domain can be a certificate's DNS name when it is ASCII (rcgen's
/// `Ia5String` takes exactly the ASCII strings).
pub fn is_ascii_domain(domain: &str) -> (r: bool)
    ensures
        r == vstd::utf8::is_ascii_chars(domain@),
{
    let cs = crate::text::chars_of(domain);
    let mut i: usize = 0;
    while i < cs.len()
        invariant
            i <= cs.len(),
            cs@ == domain@,
            forall|k: int| 0 <= k < i ==> '\0' <= #[trigger] domain@[k] <= '\u{7f}',
        decreases cs.len() - i,
    {
        let c = cs[i];
        assert(c == domain@[i as int]);
        if !('\0' <= c && c <= '\u{7f}') {
            return false;
        }
        i += 1;
    }
    true
}

/// Reads a root CA back from its two PEM texts. It succeeds exactly when
/// rcgen reads both and signs the certificate again with the key, and then
/// keeps the two texts as they were read.
pub fn load_ca(cert_pem: String, key_pem: String) -> (r: Result<CaMaterial, CaError>)
    ensures
        r is Ok <==> ca_pem_loads(cert_pem@, key_pem@),
        r matches Ok(c) ==> c.cert_pem@ == cert_pem@ && c.key_pem@ == key_pem@,
        r matches Err(e) ==> e is Rcgen,
{
    match reload_ca(cert_pem.as_str(), key_pem.as_str()) {
        Ok((cert, key, cert_der)) => Ok(CaMaterial { cert_pem, key_pem, cert_der, cert, key }),
        Err(e) => Err(CaError::Rcgen(e)),
    }
}

/// What a new root says: "FreeIX Root CA" of "FreeIX", an authority whose
/// key signs certificates and revocation lists, valid from `now` for ten
/// years (none when that end cannot be counted).
pub open spec fn spec_root_request(r: CertRequest, now: i64) -> bool {
    &&& r.common_name@ == "FreeIX Root CA"@
    &&& r.organization matches Some(o) && o@ == "FreeIX"@
    &&& r.dns_name is None
    &&& r.usage == CertUse::Authority
    &&& r.key_uses@ == seq![KeyUse::CertSign, KeyUse::CrlSign]
    &&& spec_validity(now, ROOT_VALIDITY_DAYS) == Some((r.not_before, r.not_after))
}

pub fn root_request(now: i64) -> (r: Option<CertRequest>)
    ensures
        r is None <==> spec_validity(now, ROOT_VALIDITY_DAYS) is None,
        r matches Some(req) ==> spec_root_request(req, now),
{
    match validity(now, ROOT_VALIDITY_DAYS) {
        None => None,
        Some((not_before, not_after)) => {
            let mut key_uses = Vec::new();
            key_uses.push(KeyUse::CertSign);
            key_uses.push(KeyUse::CrlSign);
            assert(key_uses@ =~= seq![KeyUse::CertSign, KeyUse::CrlSign]);
            let common_name = String::from_str("FreeIX Root CA");
            let o = String::from_str("FreeIX");
            proof {
                reveal_strlit("FreeIX Root CA");
                reveal_strlit("FreeIX");
            }
            Some(CertRequest {
                common_name,
                organization: Some(o),
                dns_name: None,
                usage: CertUse::Authority,
                key_uses,
                not_before,
                not_after,
            })
        },
    }
}

/// What a certificate for `domain` says: the domain as its common name and
/// its one DNS name, an end entity, valid from `now` for a year.
pub open spec fn spec_leaf_request(r: CertRequest, domain: Seq<char>, now: i64) -> bool {
    &&& r.common_name@ == domain
    &&& r.organization is None
    &&& r.dns_name matches Some(d) && d@ == domain
    &&& r.usage == CertUse::EndEntity
    &&& r.key_uses@.len() == 0
    &&& spec_validity(now, LEAF_VALIDITY_DAYS) == Some((r.not_before, r.not_after))
}

pub fn leaf_request(domain: &str, now: i64) -> (r: Option<CertRequest>)
    ensures
        r is None <==> spec_validity(now, LEAF_VALIDITY_DAYS) is None,
        r matches Some(req) ==> spec_leaf_request(req, domain@, now),
{
    match validity(now, LEAF_VALIDITY_DAYS) {
        None => None,
        Some((not_before, not_after)) => Some(CertRequest {
            common_name: String::from_str(domain),
            organization: None,
            dns_name: Some(String::from_str(domain)),
            usage: CertUse::EndEntity,
            key_uses: Vec::new(),
            not_before,
            not_after,
        }),
    }
}

/// The rcgen parameters of a request. A DNS name that is not ASCII is
/// refused by rcgen; a validity end out of range is `InvalidTime`.
pub fn build_params(req: &CertRequest) -> (r: Result<CertificateParams, CaError>)
    ensures
        req.dns_name matches Some(d) && !vstd::utf8::is_ascii_chars(d@) ==> r matches Err(CaError::Rcgen(_)),
        !(r matches Err(CaError::InvalidDomain(_))),
        in_calendar(req.not_before) && in_calendar(req.not_after) ==> !(r matches Err(CaError::InvalidTime)),
{
    let p = params_named(req.common_name.as_str(), &req.organization);
    let p = match &req.dns_name {
        Some(d) => match with_dns_name(p, d.as_str()) {
            Ok(p) => p,
            Err(e) => return Err(CaError::Rcgen(e)),
        },
        None => p,
    };
    let p = with_uses(p, req.usage, &req.key_uses);
    with_validity(p, req.not_before, req.not_after)
}

/// Creates a new root CA as `spec_root_request` describes it, valid from
/// Unix time `now`. A validity that cannot be counted from `now` is refused
/// with `InvalidTime`, and one within the calendar never is; otherwise the
/// outcome rests on rcgen and the random key, a refusal of which is
/// reported as `Rcgen` (never as `InvalidDomain`: the root's names need no
/// DNS name). Key and
/// signature are random, so the certificate and key texts are not stated.
pub fn create_ca_at(now: i64) -> (r: Result<CaMaterial, CaError>)
    ensures
        spec_validity(now, ROOT_VALIDITY_DAYS) is None ==> r matches Err(CaError::InvalidTime),
        spec_validity(now, ROOT_VALIDITY_DAYS) matches Some((a, b)) && in_calendar(a) && in_calendar(b)
            ==> !(r matches Err(CaError::InvalidTime)),
        r matches Err(e) ==> (e is InvalidTime || e is Rcgen),
{
    let req = match root_request(now) {
        None => return Err(CaError::InvalidTime),
        Some(req) => req,
    };
    let p = match build_params(&req) {
        Ok(p) => p,
        Err(e) => return Err(e),
    };
    let key = match new_key() {
        Ok(k) => k,
        Err(e) => return Err(CaError::Rcgen(e)),
    };
    match self_sign(p, &key) {
        Ok(cert) => {
            let (cert_pem, key_pem, cert_der) = ca_encodings(&cert, &key);
            Ok(CaMaterial { cert_pem, key_pem, cert_der, cert, key })
        },
        Err(e) => Err(CaError::Rcgen(e)),
    }
}

/// Creates a new root CA valid from the current time.
pub fn create_ca() -> (r: Result<CaMaterial, CaError>)
    ensures
        r matches Err(e) ==> (e is InvalidTime || e is Rcgen),
{
    let now = unix_now();
    create_ca_at(now)
}

/// Issues a certificate for `domain` as `spec_leaf_request` describes it,
/// signed by `ca`, and returns its DER with the DER of its new key. A domain
/// that is not ASCII is refused with `InvalidDomain` (never a panic), and
/// only such a domain is; for any other, the outcome rests on rcgen and the
/// random key, and a refusal is reported as `Rcgen` or `InvalidTime`.
pub fn issue_leaf(ca: &CaMaterial, domain: &str, now: i64) -> (r: Result<(Vec<u8>, Vec<u8>), CaError>)
    ensures
        (r matches Err(CaError::InvalidDomain(d))) <==> !vstd::utf8::is_ascii_chars(domain@),
        r matches Err(CaError::InvalidDomain(d)) ==> d@ == domain@,
        spec_validity(now, LEAF_VALIDITY_DAYS) is None && vstd::utf8::is_ascii_chars(domain@) ==> r matches Err(CaError::InvalidTime),
        spec_validity(now, LEAF_VALIDITY_DAYS) matches Some((a, b)) && in_calendar(a) && in_calendar(b)
            ==> !(r matches Err(CaError::InvalidTime)),
{
    if !is_ascii_domain(domain) {
        return Err(CaError::InvalidDomain(String::from_str(domain)));
    }
    let req = match leaf_request(domain, now) {
        None => return Err(CaError::InvalidTime),
        Some(req) => req,
    };
    let p = match build_params(&req) {
        Ok(p) => p,
        Err(e) => return Err(e),
    };
    let key = match new_key() {
        Ok(k) => k,
        Err(e) => return Err(CaError::Rcgen(e)),
    };
    match sign_with(p, &key, ca) {
        Ok(cert) => Ok(leaf_encodings(&cert, &key)),
        Err(e) => Err(CaError::Rcgen(e)),
    }
}

/// Issues a certificate for `domain` valid from the current time.
pub fn issue_leaf_now(ca: &CaMaterial, domain: &str) -> (r: Result<(Vec<u8>, Vec<u8>), CaError>)
    ensures
        (r matches Err(CaError::InvalidDomain(d))) <==> !vstd::utf8::is_ascii_chars(domain@),
        r matches Err(CaError::InvalidDomain(d)) ==> d@ == domain@,
{
    let now = unix_now();
    issue_leaf(ca, domain, now)
}

} // verus!

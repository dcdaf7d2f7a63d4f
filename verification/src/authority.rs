//! The local certificate authority that lets the proxy inspect HTTPS: what
//! its own certificate and the certificates it issues for hosts say, and
//! how a saved key brings back the same authority. The certificates are
//! built and signed by `rcgen`.

use vstd::prelude::*;

use rcgen::{BasicConstraints, CertificateParams, DnType, ExtendedKeyUsagePurpose, IsCa, KeyPair, KeyUsagePurpose};

verus! {

broadcast use vstd::string::group_string_axioms;

#[verifier::external_type_specification]
#[verifier::external_body]
pub struct ExCertificateParams(rcgen::CertificateParams);

#[verifier::external_type_specification]
#[verifier::external_body]
pub struct ExRcgenError(rcgen::Error);

/// What a certificate's key may be used for.
#[derive(Debug, Clone, Copy, PartialEq, Eq, Structural)]
pub enum KeyUsage {
    DigitalSignature,
    KeyCertSign,
    CrlSign,
}

/// The purposes a certificate is issued for beyond its key usages.
#[derive(Debug, Clone, Copy, PartialEq, Eq, Structural)]
pub enum ExtendedUsage {
    ServerAuth,
}

/// Whether a certificate may sign others.
#[derive(Debug, Clone, Copy, PartialEq, Eq, Structural)]
pub enum Authority {
    /// An end-entity certificate.
    NotCa,
    /// A certificate authority with no limit on the chain below it.
    UnconstrainedCa,
}

/// What a certificate says: its subject's common name, the names it is
/// valid for, whether it is an authority, and its key usages.
pub struct CertificateSpec {
    pub common_name: String,
    pub subject_alt_names: Vec<String>,
    pub authority: Authority,
    pub key_usages: Vec<KeyUsage>,
    pub extended_key_usages: Vec<ExtendedUsage>,
}

/// The DER of a certificate and of its PKCS#8 private key.
pub struct CaMaterial {
    pub certificate_der: Vec<u8>,
    pub private_key_der: Vec<u8>,
}

/// Why a certificate could not be made.
#[derive(Debug, PartialEq, Eq)]
pub struct CertificateError {
    /// What `rcgen` reported.
    pub message: String,
}

/// The authority's own certificate: `AppWatch Local CA`, valid for no
/// name, an unconstrained authority that signs certificates and revocation
/// lists.
pub fn ca_spec() -> (r: CertificateSpec)
    ensures
        r.common_name@ == "AppWatch Local CA"@,
        r.subject_alt_names@.len() == 0,
        r.authority == Authority::UnconstrainedCa,
        r.key_usages@ == seq![KeyUsage::DigitalSignature, KeyUsage::KeyCertSign, KeyUsage::CrlSign],
        r.extended_key_usages@.len() == 0,
{
    let mut key_usages: Vec<KeyUsage> = Vec::new();
    key_usages.push(KeyUsage::DigitalSignature);
    key_usages.push(KeyUsage::KeyCertSign);
    key_usages.push(KeyUsage::CrlSign);
    assert(key_usages@ =~= seq![KeyUsage::DigitalSignature, KeyUsage::KeyCertSign, KeyUsage::CrlSign]);
    CertificateSpec {
        common_name: String::from_str("AppWatch Local CA"),
        subject_alt_names: Vec::new(),
        authority: Authority::UnconstrainedCa,
        key_usages,
        extended_key_usages: Vec::new(),
    }
}

/// The certificate issued for a host the proxy inspects: named after the
/// host and valid for it alone, for TLS servers.
pub fn leaf_spec(host: &str) -> (r: CertificateSpec)
    ensures
        r.common_name@ == host@,
        r.subject_alt_names@.len() == 1,
        r.subject_alt_names@[0]@ == host@,
        r.authority == Authority::NotCa,
        r.key_usages@ == seq![KeyUsage::DigitalSignature],
        r.extended_key_usages@ == seq![ExtendedUsage::ServerAuth],
{
    let mut names: Vec<String> = Vec::new();
    names.push(host.to_string());
    let mut key_usages: Vec<KeyUsage> = Vec::new();
    key_usages.push(KeyUsage::DigitalSignature);
    let mut extended: Vec<ExtendedUsage> = Vec::new();
    extended.push(ExtendedUsage::ServerAuth);
    assert(key_usages@ =~= seq![KeyUsage::DigitalSignature]);
    assert(extended@ =~= seq![ExtendedUsage::ServerAuth]);
    CertificateSpec {
        common_name: host.to_string(),
        subject_alt_names: names,
        authority: Authority::NotCa,
        key_usages,
        extended_key_usages: extended,
    }
}

/// The text of an `rcgen` error.
///
/// Trusted: `rcgen::Error`'s `Display`; nothing is stated of the text.
#[verifier::external_body]
fn rcgen_error_text(error: &rcgen::Error) -> String {
    error.to_string()
}

/// The library's error for an `rcgen` error, carrying its text.
fn certificate_error(error: &rcgen::Error) -> (r: CertificateError) {
    CertificateError { message: rcgen_error_text(error) }
}

/// The `rcgen` parameters a specification describes.
///
/// Trusted: `rcgen::CertificateParams::new` on the specification's names
/// (an error when one is neither an IP address nor a valid DNS name), with
/// the common name, authority and usages copied into its fields one for one.
/// Nothing is stated of the parameters, which the library does not read.
#[verifier::external_body]
fn certificate_params(spec: &CertificateSpec) -> Result<CertificateParams, rcgen::Error> {
    let mut params = CertificateParams::new(spec.subject_alt_names.clone())?;
    params.distinguished_name.push(DnType::CommonName, spec.common_name.as_str());
    params.is_ca = match spec.authority {
        Authority::NotCa => IsCa::NoCa,
        Authority::UnconstrainedCa => IsCa::Ca(BasicConstraints::Unconstrained),
    };
    params.key_usages = spec.key_usages.iter().map(|usage| match usage {
        KeyUsage::DigitalSignature => KeyUsagePurpose::DigitalSignature,
        KeyUsage::KeyCertSign => KeyUsagePurpose::KeyCertSign,
        KeyUsage::CrlSign => KeyUsagePurpose::CrlSign,
    }).collect();
    params.extended_key_usages = spec.extended_key_usages.iter().map(|usage| match usage {
        ExtendedUsage::ServerAuth => ExtendedKeyUsagePurpose::ServerAuth,
    }).collect();
    Ok(params)
}

/// A new key, as PKCS#8 DER.
///
/// Trusted: `rcgen::KeyPair::generate` (a random ECDSA P-256 key), read back
/// with `serialize_der`; nothing is stated of the key, which is random.
#[verifier::external_body]
fn generate_key_der() -> Result<Vec<u8>, rcgen::Error> {
    Ok(KeyPair::generate()?.serialize_der())
}

/// A self-signed certificate for the parameters, signed with the given
/// PKCS#8 key.
///
/// Trusted: `rcgen::CertificateParams::self_signed`, with the key parsed by
/// `KeyPair::try_from(&[u8])`, which keeps the bytes it was given and hands
/// them back from `serialize_der`; so the material's key is the given key.
/// Nothing is stated of the certificate, whose signature is randomised.
#[verifier::external_body]
fn self_signed(params: &CertificateParams, key_der: &[u8]) -> (r: Result<CaMaterial, rcgen::Error>)
    ensures
        r matches Ok(m) ==> m.private_key_der@ == key_der@,
{
    let key = KeyPair::try_from(key_der)?;
    let certificate = params.self_signed(&key)?;
    Ok(CaMaterial { certificate_der: certificate.der().to_vec(), private_key_der: key.serialize_der() })
}

/// A certificate for the leaf parameters and key, issued by the authority
/// with the given parameters and key.
///
/// Trusted: `rcgen::CertificateParams::signed_by`, with both PKCS#8 keys
/// parsed by `KeyPair::try_from(&[u8])` and the issuer made by
/// `rcgen::Issuer::new` from the authority's parameters; nothing is stated
/// of the certificate, whose signature is randomised.
#[verifier::external_body]
fn signed_by(
    leaf: &CertificateParams,
    leaf_key_der: &[u8],
    ca: &CertificateParams,
    ca_key_der: &[u8],
) -> Result<Vec<u8>, rcgen::Error> {
    let issuer = rcgen::Issuer::new(ca.clone(), KeyPair::try_from(ca_key_der)?);
    let certificate = leaf.signed_by(&KeyPair::try_from(leaf_key_der)?, &issuer)?;
    Ok(certificate.der().to_vec())
}

/// The certificate authority the proxy signs host certificates with.
pub struct LocalCertificateAuthority {
    pub material: CaMaterial,
}

impl LocalCertificateAuthority {
    /// The authority for the given saved PKCS#8 key, or for a new key when
    /// none is given; its certificate is made from [`ca_spec`]. A saved key
    /// comes back unchanged as the authority's key.
    pub fn new(private_key: Option<&[u8]>) -> (r: Result<Self, CertificateError>)
        ensures
            private_key matches Some(k) ==> (r matches Ok(ca) ==> ca.material.private_key_der@
                == k@),
    {
        let params = match certificate_params(&ca_spec()) {
            Ok(p) => p,
            Err(e) => return Err(certificate_error(&e)),
        };
        let material = match private_key {
            Some(key) => self_signed(&params, key),
            None => {
                let key = match generate_key_der() {
                    Ok(k) => k,
                    Err(e) => return Err(certificate_error(&e)),
                };
                self_signed(&params, key.as_slice())
            },
        };
        match material {
            Ok(material) => Ok(LocalCertificateAuthority { material }),
            Err(e) => Err(certificate_error(&e)),
        }
    }

    /// A certificate for `host` made from [`leaf_spec`], with a new key,
    /// signed by this authority: the certificate's DER and the key's PKCS#8
    /// DER.
    pub fn leaf_for(&self, host: &str) -> (r: Result<CaMaterial, CertificateError>) {
        let leaf = match certificate_params(&leaf_spec(host)) {
            Ok(p) => p,
            Err(e) => return Err(certificate_error(&e)),
        };
        let ca = match certificate_params(&ca_spec()) {
            Ok(p) => p,
            Err(e) => return Err(certificate_error(&e)),
        };
        let key = match generate_key_der() {
            Ok(k) => k,
            Err(e) => return Err(certificate_error(&e)),
        };
        match signed_by(&leaf, key.as_slice(), &ca, self.material.private_key_der.as_slice()) {
            Ok(certificate_der) => Ok(CaMaterial { certificate_der, private_key_der: key }),
            Err(e) => Err(certificate_error(&e)),
        }
    }
}

} // verus!

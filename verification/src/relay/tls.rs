//! The relay's certificate and key.
use vstd::prelude::*;
use vstd::utf8::encode_utf8;
use crate::crypto::sha256;
use crate::protocol::cert_fingerprint_sha256_hex;
use crate::text::hex_text;

verus! {

/// A private key in the encoding that its PEM section names.
#[derive(Debug, PartialEq, Eq)]
pub enum PrivateKey {
    Pkcs1(Vec<u8>),
    Sec1(Vec<u8>),
    Pkcs8(Vec<u8>),
}

/// What a [`PrivateKey`] holds.
#[verifier::ext_equal]
pub enum PrivateKeyView {
    Pkcs1(Seq<u8>),
    Sec1(Seq<u8>),
    Pkcs8(Seq<u8>),
}

impl DeepView for PrivateKey {
    type V = PrivateKeyView;

    open spec fn deep_view(&self) -> PrivateKeyView {
        match self {
            PrivateKey::Pkcs1(key) => PrivateKeyView::Pkcs1(key@),
            PrivateKey::Sec1(key) => PrivateKeyView::Sec1(key@),
            PrivateKey::Pkcs8(key) => PrivateKeyView::Pkcs8(key@),
        }
    }
}

/// The certificates in a PEM text, or none where the text is malformed.
pub uninterp spec fn certificates_in(pem: Seq<u8>) -> Option<Seq<Seq<u8>>>;

/// The first private key in a PEM text, if there is one, or none where the text
/// is malformed.
pub uninterp spec fn private_key_in(pem: Seq<u8>) -> Option<Option<PrivateKeyView>>;

/// `rustls_pemfile::certs`, collected. What is trusted: the certificates depend
/// on the text alone.
#[verifier::external_body]
fn pem_certificates(pem: &[u8]) -> (certificates: Option<Vec<Vec<u8>>>)
    ensures
        certificates.deep_view() == certificates_in(pem@),
{
    let mut reader = pem;
    let certificates: Result<Vec<_>, _> = rustls_pemfile::certs(&mut reader).collect();
    match certificates {
        Ok(certificates) => Some(
            certificates.iter().map(|certificate| certificate.to_vec()).collect(),
        ),
        Err(_) => None,
    }
}

/// `rustls_pemfile::private_key`. What is trusted: the key depends on the text
/// alone.
#[verifier::external_body]
fn pem_private_key(pem: &[u8]) -> (key: Option<Option<PrivateKey>>)
    ensures
        key.deep_view() == private_key_in(pem@),
{
    let mut reader = pem;
    match rustls_pemfile::private_key(&mut reader) {
        Ok(Some(rustls::pki_types::PrivateKeyDer::Pkcs1(key))) => Some(
            Some(PrivateKey::Pkcs1(key.secret_pkcs1_der().to_vec())),
        ),
        Ok(Some(rustls::pki_types::PrivateKeyDer::Sec1(key))) => Some(
            Some(PrivateKey::Sec1(key.secret_sec1_der().to_vec())),
        ),
        Ok(Some(key)) => Some(Some(PrivateKey::Pkcs8(key.secret_der().to_vec()))),
        Ok(None) => Some(None),
        Err(_) => None,
    }
}

/// A new certificate and its key.
#[derive(Debug)]
pub struct SelfSigned {
    pub cert_pem: String,
    pub key_pem: String,
    pub cert_der: Vec<u8>,
}

/// The names of the own machine.
pub open spec fn loopback_names() -> Seq<Seq<char>> {
    seq!["localhost"@, "127.0.0.1"@, "::1"@]
}

/// Whether the texts of a certificate and its key are read as that certificate and a
/// key.
pub open spec fn is_readable(made: SelfSigned) -> bool {
    &&& certificates_in(encode_utf8(made.cert_pem@)) == Some(seq![made.cert_der@])
    &&& private_key_in(encode_utf8(made.key_pem@)) matches Some(Some(PrivateKeyView::Pkcs8(_)))
}

/// `rcgen::generate_simple_self_signed`, with `Certificate::pem`,
/// `Certificate::der` and `KeyPair::serialize_pem` of what it makes. The key is
/// random. What is trusted: `rustls_pemfile` reads the one text as the certificate
/// that was made, and the other as a key in PKCS#8. That the certificate is for the
/// names, and when there is none, is left unsaid.
#[verifier::external_body]
fn self_signed(names: Vec<String>) -> (result: Option<SelfSigned>)
    requires
        names.deep_view() == loopback_names(),
    ensures
        result matches Some(made) ==> is_readable(made),
{
    match rcgen::generate_simple_self_signed(names) {
        Ok(made) => Some(
            SelfSigned {
                cert_pem: made.cert.pem(),
                key_pem: made.key_pair.serialize_pem(),
                cert_der: made.cert.der().to_vec(),
            },
        ),
        Err(_) => None,
    }
}

/// Why there is no usable identity.
#[derive(Clone, Copy, Debug, PartialEq, Eq, Structural)]
pub enum TlsError {
    /// Only one of certificate and key is there; neither is replaced.
    Incomplete,
    Generation,
    CertificatePem,
    NoCertificates,
    KeyPem,
    NoPrivateKey,
}

impl TlsError {
    /// What to tell a person.
    pub fn message(&self) -> (text: &'static str)
        ensures
            text@ == match self {
                TlsError::Incomplete => {
                    "incomplete TLS identity: refusing to replace an existing certificate or key"@
                },
                TlsError::Generation => "generating self-signed cert failed"@,
                TlsError::CertificatePem => "parsing TLS certificate PEM failed"@,
                TlsError::NoCertificates => "TLS certificate PEM contains no certificates"@,
                TlsError::KeyPem => "parsing TLS key PEM failed"@,
                TlsError::NoPrivateKey => "TLS key PEM contains no private key"@,
            },
    {
        match self {
            TlsError::Incomplete => {
                "incomplete TLS identity: refusing to replace an existing certificate or key"
            },
            TlsError::Generation => "generating self-signed cert failed",
            TlsError::CertificatePem => "parsing TLS certificate PEM failed",
            TlsError::NoCertificates => "TLS certificate PEM contains no certificates",
            TlsError::KeyPem => "parsing TLS key PEM failed",
            TlsError::NoPrivateKey => "TLS key PEM contains no private key",
        }
    }
}

/// What to do about the two files of an identity: make both where neither is
/// there, and never replace one.
pub fn identity_step(cert_exists: bool, key_exists: bool) -> (generate: Result<bool, TlsError>)
    ensures
        generate == (if cert_exists != key_exists {
            Err::<bool, TlsError>(TlsError::Incomplete)
        } else {
            Ok(!cert_exists)
        }),
{
    if cert_exists != key_exists {
        return Err(TlsError::Incomplete);
    }
    Ok(!cert_exists)
}

/// Whether an identity is one of a single certificate, with its fingerprint.
pub open spec fn loads_as(
    loaded: Result<TlsIdentityView, TlsError>,
    certificate: Seq<u8>,
) -> bool {
    loaded matches Ok(identity) && identity.certificates == seq![certificate]
        && identity.fingerprint == hex_text(sha256(certificate))
}

/// What came of making a certificate.
pub fn generated(made: Option<SelfSigned>) -> (result: Result<SelfSigned, TlsError>)
    ensures
        result == (match made {
            Some(made) => Ok::<SelfSigned, TlsError>(made),
            None => Err(TlsError::Generation),
        }),
{
    match made {
        Some(made) => Ok(made),
        None => Err(TlsError::Generation),
    }
}

/// A new self-signed certificate for the own machine. What is made can be loaded
/// again, and its fingerprint is that of the certificate.
pub fn generate_self_signed() -> (result: Result<SelfSigned, TlsError>)
    ensures
        match result {
            Ok(made) => is_readable(made) && loads_as(
                identity_of(
                    certificates_in(encode_utf8(made.cert_pem@)),
                    private_key_in(encode_utf8(made.key_pem@)),
                ),
                made.cert_der@,
            ),
            Err(error) => error == TlsError::Generation,
        },
{
    let mut names: Vec<String> = Vec::new();
    names.push("localhost".to_owned());
    names.push("127.0.0.1".to_owned());
    names.push("::1".to_owned());
    assert(names.deep_view() =~= loopback_names());
    generated(self_signed(names))
}

/// The certificates, the key and the fingerprint that clients pin.
#[derive(Debug, PartialEq, Eq)]
pub struct TlsIdentity {
    pub certificates: Vec<Vec<u8>>,
    pub key: PrivateKey,
    pub fingerprint: String,
}

/// What a [`TlsIdentity`] holds.
#[verifier::ext_equal]
pub struct TlsIdentityView {
    pub certificates: Seq<Seq<u8>>,
    pub key: PrivateKeyView,
    pub fingerprint: Seq<char>,
}

impl DeepView for TlsIdentity {
    type V = TlsIdentityView;

    open spec fn deep_view(&self) -> TlsIdentityView {
        TlsIdentityView {
            certificates: self.certificates.deep_view(),
            key: self.key.deep_view(),
            fingerprint: self.fingerprint@,
        }
    }
}

/// The identity that certificates and a key make: the fingerprint is that of the
/// first certificate.
pub open spec fn identity_of(
    certificates: Option<Seq<Seq<u8>>>,
    key: Option<Option<PrivateKeyView>>,
) -> Result<TlsIdentityView, TlsError> {
    match certificates {
        None => Err(TlsError::CertificatePem),
        Some(certificates) => if certificates.len() == 0 {
            Err(TlsError::NoCertificates)
        } else {
            match key {
                None => Err(TlsError::KeyPem),
                Some(None) => Err(TlsError::NoPrivateKey),
                Some(Some(key)) => Ok(
                    TlsIdentityView {
                        certificates,
                        key,
                        fingerprint: hex_text(sha256(certificates[0])),
                    },
                ),
            }
        },
    }
}

/// Puts an identity together.
pub fn assemble_identity(
    certificates: Option<Vec<Vec<u8>>>,
    key: Option<Option<PrivateKey>>,
) -> (result: Result<TlsIdentity, TlsError>)
    ensures
        match identity_of(certificates.deep_view(), key.deep_view()) {
            Ok(identity) => result matches Ok(got) && got.deep_view() == identity,
            Err(error) => result matches Err(got) && got == error,
        },
{
    let certificates = match certificates {
        Some(certificates) => certificates,
        None => return Err(TlsError::CertificatePem),
    };
    if certificates.len() == 0 {
        return Err(TlsError::NoCertificates);
    }
    proof {
        crate::delivery::bytes_deep_view(certificates@[0]);
    }
    let fingerprint = cert_fingerprint_sha256_hex(certificates[0].as_slice());
    match key {
        None => Err(TlsError::KeyPem),
        Some(None) => Err(TlsError::NoPrivateKey),
        Some(Some(key)) => Ok(TlsIdentity { certificates, key, fingerprint }),
    }
}

/// Reads an identity from its two PEM texts.
pub fn load_from_pem(cert_pem: &[u8], key_pem: &[u8]) -> (result: Result<TlsIdentity, TlsError>)
    ensures
        match identity_of(certificates_in(cert_pem@), private_key_in(key_pem@)) {
            Ok(identity) => result matches Ok(got) && got.deep_view() == identity,
            Err(error) => result matches Err(got) && got == error,
        },
{
    assemble_identity(pem_certificates(cert_pem), pem_private_key(key_pem))
}

} // verus!

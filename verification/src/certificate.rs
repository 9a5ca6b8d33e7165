//! The server's certificate chain and private key, taken from PEM text.
use vstd::prelude::*;

verus! {

/// The DER certificates that `rustls_pemfile::certs` finds in PEM text, in
/// order; `None` where it reports an error.
pub uninterp spec fn spec_pem_certs(pem: Seq<u8>) -> Option<Seq<Seq<u8>>>;

/// The DER PKCS#8 private keys that `rustls_pemfile::pkcs8_private_keys`
/// finds in PEM text, in order; `None` where it reports an error.
pub uninterp spec fn spec_pem_pkcs8_keys(pem: Seq<u8>) -> Option<Seq<Seq<u8>>>;

/// `rustls_pemfile::certs` over the bytes of `pem`: the certificates found,
/// or `None` on a read error. The contract claims only that the result is the
/// one `spec_pem_certs` names for these bytes.
#[verifier::external_body]
fn pem_certs(pem: &[u8]) -> (r: Option<Vec<Vec<u8>>>)
    ensures
        r is Some <==> spec_pem_certs(pem@) is Some,
        r matches Some(v) ==> v.deep_view() == spec_pem_certs(pem@)->Some_0,
{
    let mut rd: &[u8] = pem;
    rustls_pemfile::certs(&mut rd).ok()
}

/// `rustls_pemfile::pkcs8_private_keys` over the bytes of `pem`: the keys
/// found, or `None` on a read error. The contract claims only that the
/// result is the one `spec_pem_pkcs8_keys` names for these bytes.
#[verifier::external_body]
fn pem_pkcs8_keys(pem: &[u8]) -> (r: Option<Vec<Vec<u8>>>)
    ensures
        r is Some <==> spec_pem_pkcs8_keys(pem@) is Some,
        r matches Some(v) ==> v.deep_view() == spec_pem_pkcs8_keys(pem@)->Some_0,
{
    let mut rd: &[u8] = pem;
    rustls_pemfile::pkcs8_private_keys(&mut rd).ok()
}

/// Why a certificate chain and key cannot be used.
#[derive(Clone, Copy, PartialEq, Eq, Debug, Structural)]
pub enum CertificateError {
    /// The certificate text cannot be read.
    UnreadableCertificates,
    /// The key text cannot be read.
    UnreadableKeys,
    /// The key text holds this many PKCS#8 keys instead of exactly one.
    KeyCount(usize),
}

/// The certificate chain in `cert_pem` and the one PKCS#8 private key in
/// `key_pem`, both as DER bytes.
pub fn read_certs(cert_pem: &[u8], key_pem: &[u8]) -> (r: Result<(Vec<Vec<u8>>, Vec<u8>), CertificateError>)
    ensures
        match (spec_pem_certs(cert_pem@), spec_pem_pkcs8_keys(key_pem@)) {
            (None, _) => r == Err::<(Vec<Vec<u8>>, Vec<u8>), CertificateError>(CertificateError::UnreadableCertificates),
            (Some(_), None) => r == Err::<(Vec<Vec<u8>>, Vec<u8>), CertificateError>(CertificateError::UnreadableKeys),
            (Some(certs), Some(keys)) => if keys.len() == 1 {
                r matches Ok(p) && p.0.deep_view() == certs && p.1@ == keys[0]
            } else {
                r matches Err(CertificateError::KeyCount(n)) && n == keys.len()
            },
        },
{
    let certs = match pem_certs(cert_pem) {
        Some(c) => c,
        None => return Err(CertificateError::UnreadableCertificates),
    };
    let mut keys = match pem_pkcs8_keys(key_pem) {
        Some(k) => k,
        None => return Err(CertificateError::UnreadableKeys),
    };
    if keys.len() != 1 {
        return Err(CertificateError::KeyCount(keys.len()));
    }
    let ghost kv = keys.deep_view();
    let key = keys.remove(0);
    proof {
        assert(kv[0] == key.deep_view());
        assert(key@ =~= key.deep_view());
    }
    Ok((certs, key))
}

} // verus!

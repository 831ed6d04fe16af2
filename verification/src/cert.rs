//! The certificate authority of the capture proxy: a self-signed CA made
//! with rcgen, generated when none is stored yet.
use vstd::prelude::*;

verus! {

/// The name the CA is made for. rcgen takes it as a DNS name, which must be
/// ASCII.
pub const CA_NAME: &'static str = "Web Video Catcher CA";

/// All characters are ASCII.
pub open spec fn is_ascii_text(s: Seq<char>) -> bool {
    forall|i: int| 0 <= i < s.len() ==> (s[i] as u32) < 128
}

/// Makes a self-signed CA certificate with rcgen: `CertificateParams::new`
/// with `name` as its subject alternative name, marked as an unconstrained
/// CA, signed by a key from `KeyPair::generate`; returns its PEM and DER.
/// rcgen's errors are returned as their text. Claimed: a name that is not
/// ASCII is refused (rcgen's `Ia5String` check, before any key is made).
/// The key is random, so nothing is claimed of the certificate itself;
/// claimed of every success: the PEM text (which always has its `BEGIN
/// CERTIFICATE` line) and the DER bytes are not empty.
#[verifier::external_body]
fn self_signed_ca(name: &str) -> (r: Result<(String, Vec<u8>), String>)
    ensures
        !is_ascii_text(name@) ==> r is Err,
        r matches Ok((pem, der)) ==> pem@.len() > 0 && der@.len() > 0,
{
    let mut params = rcgen::CertificateParams::new(vec![name.to_string()]).map_err(|e| e.to_string())?;
    params.is_ca = rcgen::IsCa::Ca(rcgen::BasicConstraints::Unconstrained);
    let key_pair = rcgen::KeyPair::generate().map_err(|e| e.to_string())?;
    let cert = params.self_signed(&key_pair).map_err(|e| e.to_string())?;
    Ok((cert.pem(), cert.der().to_vec()))
}

/// A new CA certificate for the capture proxy, made for `CA_NAME` (an
/// ASCII name, which rcgen accepts), as (PEM, DER); rcgen's error text when
/// it could not be made.
pub fn generate_ca() -> (r: Result<(String, Vec<u8>), String>)
    ensures
        r matches Ok((pem, der)) ==> pem@.len() > 0 && der@.len() > 0,
{
    self_signed_ca(CA_NAME)
}

/// A CA is generated only when none is stored yet.
pub fn ca_needs_generation(pem_exists: bool) -> (r: bool)
    ensures
        r == !pem_exists,
{
    !pem_exists
}

} // verus!

//! Digests and signatures, as the `aws_lc_rs` crate computes them.
//!
//! Private keys are carried as PKCS#8 documents and public keys as bytes, so that every
//! operation is a function of byte strings.

use aws_lc_rs::digest;
use aws_lc_rs::encoding::AsDer;
use aws_lc_rs::error::Unspecified;
use aws_lc_rs::signature::{
    Ed25519KeyPair, KeyPair, PqdsaKeyPair, UnparsedPublicKey, ED25519, ML_DSA_44, ML_DSA_44_SIGNING,
};
use vstd::prelude::*;

verus! {

/// How many bytes a SHA-256 digest has.
pub const SHA256_DIGEST_LEN: usize = 32;

/// How many bytes an Ed25519 public key has.
pub const ED25519_PUBLIC_KEY_LEN: usize = 32;

/// How many bytes an Ed25519 signature has.
pub const ED25519_SIGNATURE_LEN: usize = 64;

/// How many bytes an ML-DSA-44 signature has.
pub const ML_DSA_SIGNATURE_LEN: usize = 2420;

/// How many bytes an ML-DSA-44 public key has in its X.509 form.
pub const ML_DSA_PUBLIC_KEY_DER_LEN: usize = 1334;

/// The error of `aws_lc_rs` that carries no details.
#[verifier::external_type_specification]
#[verifier::external_body]
pub struct ExUnspecified(Unspecified);

/// The SHA-256 digest of `data`.
pub uninterp spec fn sha256(data: Seq<u8>) -> Seq<u8>;

/// The Ed25519 public key of the private key in a PKCS#8 document, or why it is rejected.
pub uninterp spec fn ed25519_public_key(pkcs8: Seq<u8>) -> Result<Seq<u8>, Seq<char>>;

/// The Ed25519 signature of `message` with the private key in a PKCS#8 document.
pub uninterp spec fn ed25519_signature(pkcs8: Seq<u8>, message: Seq<u8>) -> Seq<u8>;

/// Whether `signature` is an Ed25519 signature of `message` under `public_key`.
pub uninterp spec fn ed25519_verifies(
    public_key: Seq<u8>,
    message: Seq<u8>,
    signature: Seq<u8>,
) -> bool;

/// The X.509 form of the ML-DSA-44 public key of the private key in a PKCS#8 document, or why it
/// is rejected.
pub uninterp spec fn ml_dsa_public_key(pkcs8: Seq<u8>) -> Result<Seq<u8>, Seq<char>>;

/// Whether `signature` is an ML-DSA-44 signature of `message` under `public_key`.
pub uninterp spec fn ml_dsa_verifies(
    public_key: Seq<u8>,
    message: Seq<u8>,
    signature: Seq<u8>,
) -> bool;

/// Compute a SHA-256 digest.
///
/// Calls `aws_lc_rs::digest::digest`; its result is a function of the bytes alone and has 32
/// bytes.
#[verifier::external_body]
pub(crate) fn digest_sha256(data: &[u8]) -> (out: [u8; SHA256_DIGEST_LEN])
    ensures
        out@ == sha256(data@),
{
    let mut out = [0u8; SHA256_DIGEST_LEN];
    out.copy_from_slice(digest::digest(&digest::SHA256, data).as_ref());
    out
}

/// Generate an Ed25519 private key, as a PKCS#8 document.
///
/// Calls `aws_lc_rs::signature::Ed25519KeyPair::generate` and writes the key out with
/// `to_pkcs8v1`. The key is random. Of every outcome it holds that the document is accepted when
/// it is read back. Whether generation succeeds is up to the machine's source of randomness.
#[verifier::external_body]
pub(crate) fn ed25519_generate() -> (r: Result<Vec<u8>, Unspecified>)
    ensures
        r matches Ok(pkcs8) ==> ed25519_public_key(pkcs8@) is Ok,
{
    let pkcs8 = Ed25519KeyPair::generate()?.to_pkcs8v1()?;
    Ok(pkcs8.as_ref().to_vec())
}

/// Read the public key of an Ed25519 private key.
///
/// Calls `aws_lc_rs::signature::Ed25519KeyPair::from_pkcs8` and takes the public key of the pair,
/// or the text of the error. Both depend on the document alone.
#[verifier::external_body]
pub(crate) fn ed25519_public_key_of(pkcs8: &[u8]) -> (r: Result<
    [u8; ED25519_PUBLIC_KEY_LEN],
    String,
>)
    ensures
        match r {
            Ok(key) => ed25519_public_key(pkcs8@) == Ok::<Seq<u8>, Seq<char>>(key@),
            Err(text) => ed25519_public_key(pkcs8@) == Err::<Seq<u8>, Seq<char>>(text@),
        },
{
    let pair = Ed25519KeyPair::from_pkcs8(pkcs8).map_err(|e| e.to_string())?;
    let mut key = [0u8; ED25519_PUBLIC_KEY_LEN];
    key.copy_from_slice(pair.public_key().as_ref());
    Ok(key)
}

/// Sign `message` with Ed25519.
///
/// Reads the document and calls `aws_lc_rs::signature::Ed25519KeyPair::try_sign`. A signature is
/// a function of key and message, has 64 bytes, and verifies under the public key of the pair.
/// With a document that is accepted, signing succeeds: it draws no randomness, and fails only for
/// a key pair without a private key, or where memory runs out, which is left out of account.
#[verifier::external_body]
pub(crate) fn ed25519_sign(pkcs8: &[u8], message: &[u8]) -> (r: Result<Vec<u8>, Unspecified>)
    requires
        ed25519_public_key(pkcs8@) is Ok,
    ensures
        r is Ok,
        r matches Ok(signature) ==> {
            &&& signature@ == ed25519_signature(pkcs8@, message@)
            &&& signature@.len() == ED25519_SIGNATURE_LEN
            &&& ed25519_verifies(ed25519_public_key(pkcs8@)->Ok_0, message@, signature@)
        },
{
    let pair = Ed25519KeyPair::from_pkcs8(pkcs8)?;
    Ok(pair.try_sign(message)?.as_ref().to_vec())
}

/// Verify an Ed25519 signature.
///
/// Calls `verify` of `aws_lc_rs::signature::UnparsedPublicKey` with `ED25519`; the verdict is a
/// function of the three byte strings.
#[verifier::external_body]
pub(crate) fn ed25519_verify(public_key: &[u8], message: &[u8], signature: &[u8]) -> (accepted:
    bool)
    ensures
        accepted == ed25519_verifies(public_key@, message@, signature@),
{
    UnparsedPublicKey::new(&ED25519, public_key).verify(message, signature).is_ok()
}

/// Generate an ML-DSA-44 private key, as a PKCS#8 document.
///
/// Calls `aws_lc_rs::signature::PqdsaKeyPair::generate` and writes the key out with `to_pkcs8v1`.
/// The key is random. Of every outcome it holds that the document is accepted when it is read
/// back. Whether generation succeeds is up to the machine's source of randomness.
#[verifier::external_body]
pub(crate) fn ml_dsa_generate() -> (r: Result<Vec<u8>, Unspecified>)
    ensures
        r matches Ok(pkcs8) ==> ml_dsa_public_key(pkcs8@) is Ok,
{
    let pkcs8 = PqdsaKeyPair::generate(&ML_DSA_44_SIGNING)?.to_pkcs8v1()?;
    Ok(pkcs8.as_ref().to_vec())
}

/// Read the public key of an ML-DSA-44 private key, in its X.509 form.
///
/// Calls `aws_lc_rs::signature::PqdsaKeyPair::from_pkcs8` and takes `as_der` of the public key of
/// the pair, or the text of the error. Both depend on the document alone. The X.509 form is a
/// header of 22 bytes and the 1312 bytes of the key.
#[verifier::external_body]
pub(crate) fn ml_dsa_public_key_of(pkcs8: &[u8]) -> (r: Result<Vec<u8>, String>)
    ensures
        match r {
            Ok(key) => {
                &&& ml_dsa_public_key(pkcs8@) == Ok::<Seq<u8>, Seq<char>>(key@)
                &&& key@.len() == ML_DSA_PUBLIC_KEY_DER_LEN
            },
            Err(text) => ml_dsa_public_key(pkcs8@) == Err::<Seq<u8>, Seq<char>>(text@),
        },
{
    let pair = PqdsaKeyPair::from_pkcs8(&ML_DSA_44_SIGNING, pkcs8).map_err(|e| e.to_string())?;
    let der = pair.public_key().as_der().map_err(|e| e.to_string())?;
    Ok(der.as_ref().to_vec())
}

/// Sign `message` with ML-DSA-44.
///
/// Reads the document and calls `aws_lc_rs::signature::PqdsaKeyPair::sign`. The signature is
/// randomised, so it is no function of key and message. Of every outcome it holds that it has
/// 2420 bytes and verifies under the public key of the pair. Nothing is said of when signing
/// fails: it makes a bounded number of random attempts, so that is a matter of chance.
#[verifier::external_body]
pub(crate) fn ml_dsa_sign(pkcs8: &[u8], message: &[u8]) -> (r: Result<Vec<u8>, Unspecified>)
    requires
        ml_dsa_public_key(pkcs8@) is Ok,
    ensures
        r matches Ok(signature) ==> {
            &&& signature@.len() == ML_DSA_SIGNATURE_LEN
            &&& ml_dsa_verifies(ml_dsa_public_key(pkcs8@)->Ok_0, message@, signature@)
        },
{
    let pair = PqdsaKeyPair::from_pkcs8(&ML_DSA_44_SIGNING, pkcs8)?;
    let mut signature = vec![0u8; ML_DSA_44_SIGNING.signature_len()];
    pair.sign(message, &mut signature)?;
    Ok(signature)
}

/// Verify an ML-DSA-44 signature.
///
/// Calls `verify` of `aws_lc_rs::signature::UnparsedPublicKey` with `ML_DSA_44`; the verdict is a
/// function of the three byte strings.
#[verifier::external_body]
pub(crate) fn ml_dsa_verify(public_key: &[u8], message: &[u8], signature: &[u8]) -> (accepted: bool)
    ensures
        accepted == ml_dsa_verifies(public_key@, message@, signature@),
{
    UnparsedPublicKey::new(&ML_DSA_44, public_key).verify(message, signature).is_ok()
}

/// How many bytes an ML-DSA-44 signature has.
///
/// Calls `signature_len` of `aws_lc_rs::signature::ML_DSA_44_SIGNING`, which is the constant 2420.
#[verifier::external_body]
pub(crate) fn ml_dsa_signature_len() -> (len: usize)
    ensures
        len == ML_DSA_SIGNATURE_LEN,
{
    ML_DSA_44_SIGNING.signature_len()
}

/// Compute the SHA-256 digest of bytes.
pub fn sha256_bytes(data: &[u8]) -> (out: [u8; SHA256_DIGEST_LEN])
    ensures
        out@ == sha256(data@),
{
    digest_sha256(data)
}

} // verus!

//! ML-DSA-65 signatures over plain bytes.

use vstd::prelude::*;

verus! {

/// Whether `signature` is a valid ML-DSA-65 signature of `message` under `public_key`.
pub uninterp spec fn signature_valid(
    public_key: Seq<u8>,
    message: Seq<u8>,
    signature: Seq<u8>,
) -> bool;

/// Whether `public_key` and `secret_key` belong together: key generation can give them as a pair.
pub uninterp spec fn is_key_pair(public_key: Seq<u8>, secret_key: Seq<u8>) -> bool;

/// `saorsa_pqc::api::sig::MlDsa::generate_keypair` for ML-DSA-65: a fresh public and secret key.
/// Which ones is left to chance; of every outcome it holds that they belong together.
#[verifier::external_body]
pub(crate) fn generate_keypair() -> (keys: Result<(Vec<u8>, Vec<u8>), String>)
    ensures
        keys is Ok ==> is_key_pair(keys->Ok_0.0@, keys->Ok_0.1@),
{
    saorsa_pqc::api::sig::ml_dsa_65()
        .generate_keypair()
        .map(|(public, secret)| (public.to_bytes(), secret.to_bytes()))
        .map_err(|e| e.to_string())
}

/// `saorsa_pqc::api::sig::MlDsa::sign` for ML-DSA-65. A signature holds randomness, so nothing
/// says which one comes out. A secret key of the wrong size gives none. A signature is valid
/// under the public key that was generated with the secret key.
#[verifier::external_body]
pub(crate) fn sign(secret_key: &[u8], message: &[u8]) -> (signature: Result<Vec<u8>, String>)
    ensures
        signature is Ok ==> secret_key.len() == 4032,
        signature is Ok ==> forall|public_key: Seq<u8>|
            is_key_pair(public_key, secret_key@) ==> #[trigger] signature_valid(
                public_key,
                message@,
                signature->Ok_0@,
            ),
{
    let variant = saorsa_pqc::api::sig::MlDsaVariant::MlDsa65;
    saorsa_pqc::api::sig::MlDsaSecretKey::from_bytes(variant, secret_key)
        .and_then(|key| saorsa_pqc::api::sig::ml_dsa_65().sign(&key, message))
        .map(|signature| signature.to_bytes())
        .map_err(|e| e.to_string())
}

/// `saorsa_pqc::api::sig::MlDsa::verify` for ML-DSA-65, after the key and the signature were read
/// from their bytes; bytes that cannot be read are not valid. The answer depends on the
/// arguments alone.
#[verifier::external_body]
pub(crate) fn verify(public_key: &[u8], message: &[u8], signature: &[u8]) -> (valid: bool)
    ensures
        valid == signature_valid(public_key@, message@, signature@),
        valid ==> public_key.len() == 1952 && signature.len() == 3309,
{
    let variant = saorsa_pqc::api::sig::MlDsaVariant::MlDsa65;
    saorsa_pqc::api::sig::MlDsaPublicKey::from_bytes(variant, public_key)
        .and_then(|key| {
            let signature = saorsa_pqc::api::sig::MlDsaSignature::from_bytes(variant, signature)?;
            saorsa_pqc::api::sig::ml_dsa_65().verify(&key, message, &signature)
        })
        .unwrap_or(false)
}

} // verus!

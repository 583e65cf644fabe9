//! The keys of a session workload and the decryption of its inputs.
//!
//! Two schemes meet here. The key management service releases a bundle of COSE
//! keys, which [`TransformKeys::from_protected_response`] parses. The data plane
//! uses a two-layer blob format: the payload is encrypted with a fresh
//! AES-128-GCM-SIV key, and that key, itself a COSE key, is HPKE-sealed to one of
//! the released public keys. [`TransformKeys::decrypt_blob`] reverses both layers.

use crate::message;
use crate::order;
use crate::proto::keys::{ProtectedResponse, ProtectedResponseView};
use crate::protocol;
use crate::protocol::{HpkePlusAeadMetadata, SymmetricKeyAssociatedDataComponents};
use crate::transform_crypto::CoseLabel::{Number, PrivateUse, Text};
use crate::wire;
use aes_gcm_siv::aead::{Aead, Payload};
use aes_gcm_siv::{Aes128GcmSiv, KeyInit};
use coset::iana::EnumI64;
use coset::{Algorithm, CborSerializable, CoseKey, KeyType, Label};
use hpke::aead::AesGcm128;
use hpke::kdf::HkdfSha256;
use hpke::kem::X25519HkdfSha256;
use hpke::{Deserializable, Kem, OpModeR};
use vstd::prelude::*;

verus! {

/// COSE algorithm id for HPKE-Base-X25519-SHA256-AES128GCM (used to wrap the
/// per-blob symmetric key).
pub const HPKE_BASE_X25519_SHA256_AES128GCM: i64 = -65537;

/// COSE algorithm id for AEAD_AES_128_GCM_SIV with a fixed nonce (the symmetric
/// layer that protects the payload itself).
pub const AEAD_AES_128_GCM_SIV_FIXED_NONCE: i64 = -65538;

/// The COSE key type of an octet key pair.
pub const KEY_TYPE_OKP: i64 = 1;

/// The COSE key type of a symmetric key.
pub const KEY_TYPE_SYMMETRIC: i64 = 4;

/// The label of an octet key pair's private key.
pub const OKP_PARAMETER_D: i64 = -4;

/// The label of a symmetric key's bytes.
pub const SYMMETRIC_PARAMETER_K: i64 = -1;

/// Fixed AES-GCM-SIV nonce. Safe to reuse because each symmetric key is used
/// exactly once. Must match the client-side value byte for byte.
pub const NONCE: [u8; 12] = [
    0x74, 0xDF, 0x8F, 0xD4, 0xBE, 0x34, 0xAF, 0x64, 0x7F, 0x5E, 0x54, 0xF6,
];

// ---------------------------------------------------------------------------
// COSE keys
// ---------------------------------------------------------------------------

/// A label or an identifier of a COSE key.
#[derive(Debug, Clone)]
pub enum CoseLabel {
    /// A number, assigned in a registry where there is one.
    Number(i64),
    /// A number from the range for private use.
    PrivateUse(i64),
    Text(String),
}

/// The mathematical counterpart of [`CoseLabel`].
pub enum CoseLabelView {
    Number(i64),
    PrivateUse(i64),
    Text(Seq<char>),
}

impl View for CoseLabel {
    type V = CoseLabelView;

    open spec fn view(&self) -> CoseLabelView {
        match self {
            CoseLabel::Number(n) => CoseLabelView::Number(*n),
            CoseLabel::PrivateUse(n) => CoseLabelView::PrivateUse(*n),
            CoseLabel::Text(s) => CoseLabelView::Text(s@),
        }
    }
}

/// A further parameter of a COSE key; its bytes are kept where it is a byte
/// string.
#[derive(Debug, Clone)]
pub struct CoseParam {
    pub label: CoseLabel,
    pub bytes: Option<Vec<u8>>,
}

/// The mathematical counterpart of [`CoseParam`].
pub struct CoseParamView {
    pub label: CoseLabelView,
    pub bytes: Option<Seq<u8>>,
}

impl View for CoseParam {
    type V = CoseParamView;

    open spec fn view(&self) -> CoseParamView {
        CoseParamView {
            label: self.label@,
            bytes: match self.bytes {
                Some(b) => Some(b@),
                None => None,
            },
        }
    }
}

/// A COSE key, as far as it is read here.
#[derive(Debug, Clone)]
pub struct CoseKeyFields {
    pub kty: CoseLabel,
    pub alg: Option<CoseLabel>,
    pub key_id: Vec<u8>,
    pub params: Vec<CoseParam>,
}

/// The mathematical counterpart of [`CoseKeyFields`].
pub struct CoseKeyView {
    pub kty: CoseLabelView,
    pub alg: Option<CoseLabelView>,
    pub key_id: Seq<u8>,
    pub params: Seq<CoseParamView>,
}

impl View for CoseKeyFields {
    type V = CoseKeyView;

    open spec fn view(&self) -> CoseKeyView {
        CoseKeyView {
            kty: self.kty@,
            alg: message::optional(self.alg),
            key_id: self.key_id@,
            params: order::views(self.params@),
        }
    }
}

/// Declares `coset::CoseError`.
#[verifier::external_type_specification]
#[verifier::external_body]
pub struct ExCoseError(coset::CoseError);

/// The COSE key that some bytes encode, where they encode one.
pub uninterp spec fn cose_key(bytes: Seq<u8>) -> Option<CoseKeyView>;

/// Decodes a COSE key.
///
/// Calls `coset::CoseKey::from_slice`. Claimed: whether the bytes are a COSE key,
/// and which, is a function of the bytes.
#[verifier::external_body]
fn decode_cose_key(bytes: &[u8]) -> (r: Result<CoseKeyFields, coset::CoseError>)
    ensures
        r is Ok <==> cose_key(bytes@) is Some,
        r matches Ok(k) ==> cose_key(bytes@) == Some(k@),
{
    let key = CoseKey::from_slice(bytes)?;
    let kty = match key.kty {
        KeyType::Assigned(k) => Number(k.to_i64()),
        KeyType::Text(t) => Text(t),
    };
    let alg = key.alg.map(|alg| match alg {
        Algorithm::Assigned(a) => Number(a.to_i64()),
        Algorithm::PrivateUse(n) => PrivateUse(n),
        Algorithm::Text(t) => Text(t),
    });
    let params = key.params.into_iter().map(|(label, value)| CoseParam {
        label: match label { Label::Int(n) => Number(n), Label::Text(t) => Text(t) },
        bytes: value.into_bytes().ok(),
    });
    Ok(CoseKeyFields { kty, alg, key_id: key.key_id, params: params.collect() })
}

/// What is wrong with a COSE key.
#[derive(Debug, Clone, Copy, PartialEq, Eq, Structural)]
pub enum KeyError {
    /// The bytes are not a COSE key.
    NotCose,
    /// The key is of another type.
    WrongType,
    /// The key is for another algorithm.
    WrongAlgorithm,
    /// The key's bytes are missing.
    MissingBytes,
}

/// The bytes of the first parameter with a numeric label, where it is a byte
/// string.
pub open spec fn param_bytes(params: Seq<CoseParamView>, label: i64) -> Option<Seq<u8>>
    decreases params.len(),
{
    if params.len() == 0 {
        None
    } else if params[0].label == CoseLabelView::Number(label) {
        params[0].bytes
    } else {
        param_bytes(params.drop_first(), label)
    }
}

/// The bytes of the first parameter with a numeric label.
fn find_param(params: &Vec<CoseParam>, label: i64) -> (r: Option<Vec<u8>>)
    ensures
        r is Some <==> param_bytes(order::views(params@), label) is Some,
        r matches Some(b) ==> param_bytes(order::views(params@), label) == Some(b@),
{
    let ghost all = order::views(params@);
    let mut i: usize = 0;
    assert(all.skip(0) =~= all);
    while i < params.len()
        invariant
            i <= params@.len(),
            all == order::views(params@),
            param_bytes(all, label) == param_bytes(all.skip(i as int), label),
        decreases params@.len() - i,
    {
        let p = &params[i];
        proof {
            assert(all.skip(i as int)[0] == p@);
            assert(all.skip(i as int).drop_first() =~= all.skip(i + 1));
        }
        if let CoseLabel::Number(n) = &p.label {
            if *n == label {
                return match &p.bytes {
                    Some(b) => Some(vstd::slice::slice_to_vec(b.as_slice())),
                    None => None,
                };
            }
        }
        i = i + 1;
    }
    None
}

fn is_number(label: &CoseLabel, n: i64) -> (r: bool)
    ensures
        r == (label@ == CoseLabelView::Number(n)),
{
    match label {
        CoseLabel::Number(m) => *m == n,
        _ => false,
    }
}

fn is_private_use(label: &Option<CoseLabel>, n: i64) -> (r: bool)
    ensures
        r == (message::optional(*label) == Some(CoseLabelView::PrivateUse(n))),
{
    match label {
        Some(CoseLabel::PrivateUse(m)) => *m == n,
        _ => false,
    }
}

/// An HPKE private key that was released for decrypting inputs.
#[derive(Debug, Clone)]
pub struct DecryptionKey {
    /// The COSE `kid`; also the `key_id` in each blob's header.
    pub key_id: Vec<u8>,
    /// Raw X25519 private key bytes (the COSE `d` parameter).
    pub private_key: Vec<u8>,
}

/// The mathematical counterpart of [`DecryptionKey`].
#[verifier::ext_equal]
pub struct DecryptionKeyView {
    pub key_id: Seq<u8>,
    pub private_key: Seq<u8>,
}

impl View for DecryptionKey {
    type V = DecryptionKeyView;

    open spec fn view(&self) -> DecryptionKeyView {
        DecryptionKeyView { key_id: self.key_id@, private_key: self.private_key@ }
    }
}

/// The decryption key that a COSE key is: an octet key pair for
/// HPKE-Base-X25519-SHA256-AES128GCM with its private key.
pub open spec fn decryption_key(k: CoseKeyView) -> Result<DecryptionKeyView, KeyError> {
    if k.kty != CoseLabelView::Number(KEY_TYPE_OKP) {
        Err(KeyError::WrongType)
    } else if k.alg != Some(CoseLabelView::PrivateUse(HPKE_BASE_X25519_SHA256_AES128GCM)) {
        Err(KeyError::WrongAlgorithm)
    } else {
        match param_bytes(k.params, OKP_PARAMETER_D) {
            None => Err(KeyError::MissingBytes),
            Some(d) => Ok(DecryptionKeyView { key_id: k.key_id, private_key: d }),
        }
    }
}

/// The decryption key that a COSE key is.
pub fn decryption_key_from(k: &CoseKeyFields) -> (r: Result<DecryptionKey, KeyError>)
    ensures
        match r {
            Ok(d) => decryption_key(k@) == Ok::<DecryptionKeyView, KeyError>(d@),
            Err(e) => decryption_key(k@) == Err::<DecryptionKeyView, KeyError>(e),
        },
{
    if !is_number(&k.kty, KEY_TYPE_OKP) {
        return Err(KeyError::WrongType);
    }
    if !is_private_use(&k.alg, HPKE_BASE_X25519_SHA256_AES128GCM) {
        return Err(KeyError::WrongAlgorithm);
    }
    match find_param(&k.params, OKP_PARAMETER_D) {
        None => Err(KeyError::MissingBytes),
        Some(private_key) => Ok(
            DecryptionKey {
                key_id: vstd::slice::slice_to_vec(k.key_id.as_slice()),
                private_key,
            },
        ),
    }
}

/// The decryption key that some bytes encode.
pub open spec fn parsed_decryption_key(bytes: Seq<u8>) -> Result<DecryptionKeyView, KeyError> {
    match cose_key(bytes) {
        None => Err(KeyError::NotCose),
        Some(k) => decryption_key(k),
    }
}

/// Parses a COSE_Key HPKE private key.
pub fn parse_decryption_key(cose_bytes: &[u8]) -> (r: Result<DecryptionKey, KeyError>)
    ensures
        match r {
            Ok(d) => parsed_decryption_key(cose_bytes@) == Ok::<DecryptionKeyView, KeyError>(d@),
            Err(e) => parsed_decryption_key(cose_bytes@) == Err::<DecryptionKeyView, KeyError>(e),
        },
{
    match decode_cose_key(cose_bytes) {
        Ok(k) => decryption_key_from(&k),
        Err(_) => Err(KeyError::NotCose),
    }
}

/// The bytes of the symmetric key that a COSE key is: a symmetric key for
/// AEAD_AES_128_GCM_SIV with a fixed nonce.
pub open spec fn symmetric_key(k: CoseKeyView) -> Result<Seq<u8>, KeyError> {
    if k.kty != CoseLabelView::Number(KEY_TYPE_SYMMETRIC) {
        Err(KeyError::WrongType)
    } else if k.alg != Some(CoseLabelView::PrivateUse(AEAD_AES_128_GCM_SIV_FIXED_NONCE)) {
        Err(KeyError::WrongAlgorithm)
    } else {
        match param_bytes(k.params, SYMMETRIC_PARAMETER_K) {
            None => Err(KeyError::MissingBytes),
            Some(key) => Ok(key),
        }
    }
}

/// The bytes of the symmetric key that a COSE key is.
pub fn symmetric_key_from(k: &CoseKeyFields) -> (r: Result<Vec<u8>, KeyError>)
    ensures
        match r {
            Ok(key) => symmetric_key(k@) == Ok::<Seq<u8>, KeyError>(key@),
            Err(e) => symmetric_key(k@) == Err::<Seq<u8>, KeyError>(e),
        },
{
    if !is_number(&k.kty, KEY_TYPE_SYMMETRIC) {
        return Err(KeyError::WrongType);
    }
    if !is_private_use(&k.alg, AEAD_AES_128_GCM_SIV_FIXED_NONCE) {
        return Err(KeyError::WrongAlgorithm);
    }
    match find_param(&k.params, SYMMETRIC_PARAMETER_K) {
        None => Err(KeyError::MissingBytes),
        Some(key) => Ok(key),
    }
}

/// The symmetric key that some bytes encode.
pub open spec fn parsed_symmetric_key(bytes: Seq<u8>) -> Result<Seq<u8>, KeyError> {
    match cose_key(bytes) {
        None => Err(KeyError::NotCose),
        Some(k) => symmetric_key(k),
    }
}

/// Extracts the raw symmetric key bytes from an unwrapped COSE_Key.
pub fn parse_symmetric_key(cose_bytes: &[u8]) -> (r: Result<Vec<u8>, KeyError>)
    ensures
        match r {
            Ok(key) => parsed_symmetric_key(cose_bytes@) == Ok::<Seq<u8>, KeyError>(key@),
            Err(e) => parsed_symmetric_key(cose_bytes@) == Err::<Seq<u8>, KeyError>(e),
        },
{
    match decode_cose_key(cose_bytes) {
        Ok(k) => symmetric_key_from(&k),
        Err(_) => Err(KeyError::NotCose),
    }
}

// ---------------------------------------------------------------------------
// The ciphers
// ---------------------------------------------------------------------------

/// Declares `hpke::HpkeError`.
#[verifier::external_type_specification]
#[verifier::external_body]
pub struct ExHpkeError(hpke::HpkeError);

/// Declares `aes_gcm_siv::Error`.
#[verifier::external_type_specification]
#[verifier::external_body]
pub struct ExAeadError(aes_gcm_siv::Error);

/// Length of an X25519 key.
pub const X25519_KEY_LEN: usize = 32;

/// Length of an AES-128 key.
pub const AES_KEY_LEN: usize = 16;

/// The plaintext that was sealed with HPKE-Base-X25519-SHA256-AES128GCM under
/// the public half of a private key, where the ciphertext is authentic.
pub uninterp spec fn hpke_opened(
    private_key: Seq<u8>,
    encapsulated_key: Seq<u8>,
    info: Seq<u8>,
    ciphertext: Seq<u8>,
    associated_data: Seq<u8>,
) -> Option<Seq<u8>>;

/// The plaintext behind an AES-128-GCM-SIV ciphertext, where it is authentic.
pub uninterp spec fn aes_gcm_siv_opened(
    key: Seq<u8>,
    nonce: Seq<u8>,
    ciphertext: Seq<u8>,
    associated_data: Seq<u8>,
) -> Option<Seq<u8>>;

/// Calls `hpke::Deserializable::from_bytes` for an encapsulated X25519 key.
/// Claimed: it takes exactly 32 bytes, whatever they are.
#[verifier::external_body]
fn load_encapsulated_key(bytes: &[u8]) -> (r: Result<(), hpke::HpkeError>)
    ensures
        r is Ok <==> bytes@.len() == X25519_KEY_LEN,
{
    <X25519HkdfSha256 as Kem>::EncappedKey::from_bytes(bytes).map(|_| ())
}

/// Calls `hpke::Deserializable::from_bytes` for an X25519 private key. Claimed:
/// it takes exactly 32 bytes, whatever they are.
#[verifier::external_body]
fn load_private_key(bytes: &[u8]) -> (r: Result<(), hpke::HpkeError>)
    ensures
        r is Ok <==> bytes@.len() == X25519_KEY_LEN,
{
    <X25519HkdfSha256 as Kem>::PrivateKey::from_bytes(bytes).map(|_| ())
}

/// Calls `hpke::single_shot_open` in base mode. Claimed: whether the ciphertext
/// opens, and to what, is a function of the arguments.
#[verifier::external_body]
fn hpke_open(
    private_key: &[u8],
    encapsulated_key: &[u8],
    info: &[u8],
    ciphertext: &[u8],
    associated_data: &[u8],
) -> (r: Result<Vec<u8>, hpke::HpkeError>)
    requires
        private_key@.len() == X25519_KEY_LEN,
        encapsulated_key@.len() == X25519_KEY_LEN,
    ensures
        r is Ok <==> hpke_opened(
            private_key@,
            encapsulated_key@,
            info@,
            ciphertext@,
            associated_data@,
        ) is Some,
        r matches Ok(p) ==> hpke_opened(
            private_key@,
            encapsulated_key@,
            info@,
            ciphertext@,
            associated_data@,
        ) == Some(p@),
{
    let sk = <X25519HkdfSha256 as Kem>::PrivateKey::from_bytes(private_key)?;
    let encapped = <X25519HkdfSha256 as Kem>::EncappedKey::from_bytes(encapsulated_key)?;
    hpke::single_shot_open::<AesGcm128, HkdfSha256, X25519HkdfSha256>(
        &OpModeR::Base,
        &sk,
        &encapped,
        info,
        ciphertext,
        associated_data,
    )
}

/// Calls `aes_gcm_siv::KeyInit::new_from_slice`. Claimed: it takes exactly 16
/// bytes.
#[verifier::external_body]
fn is_aes_key(key: &[u8]) -> (r: bool)
    ensures
        r == (key@.len() == AES_KEY_LEN),
{
    Aes128GcmSiv::new_from_slice(key).is_ok()
}

/// Calls `aes_gcm_siv::aead::Aead::decrypt`. Claimed: whether the ciphertext
/// opens, and to what, is a function of the arguments.
#[verifier::external_body]
fn aes_gcm_siv_open(key: &[u8], nonce: &[u8; 12], ciphertext: &[u8], associated_data: &[u8]) -> (r:
    Result<Vec<u8>, aes_gcm_siv::Error>)
    requires
        key@.len() == AES_KEY_LEN,
    ensures
        r is Ok <==> aes_gcm_siv_opened(key@, nonce@, ciphertext@, associated_data@) is Some,
        r matches Ok(p) ==> aes_gcm_siv_opened(key@, nonce@, ciphertext@, associated_data@)
            == Some(p@),
{
    let cipher = Aes128GcmSiv::new_from_slice(key).unwrap();
    cipher.decrypt(nonce.into(), Payload { msg: ciphertext, aad: associated_data })
}

// ---------------------------------------------------------------------------
// Released keys
// ---------------------------------------------------------------------------

/// Why a released key bundle is of no use.
#[derive(Debug, Clone, Copy, PartialEq, Eq, Structural)]
pub enum KeyReleaseError {
    /// The bundle is malformed.
    Malformed,
    /// One of its decryption keys is of no use.
    Key(KeyError),
    /// It holds no decryption keys.
    NoKeys,
}

/// The keys of a list, up to the first that is of no use.
pub open spec fn parsed_keys(keys: Seq<Seq<u8>>) -> Result<Seq<DecryptionKeyView>, KeyError>
    decreases keys.len(),
{
    if keys.len() == 0 {
        Ok(Seq::empty())
    } else {
        match parsed_keys(keys.drop_last()) {
            Err(e) => Err(e),
            Ok(before) => match parsed_decryption_key(keys.last()) {
                Err(e) => Err(e),
                Ok(k) => Ok(before.push(k)),
            },
        }
    }
}

/// The decryption keys of a released bundle.
pub open spec fn released_keys(bundle: Seq<u8>) -> Result<
    Seq<DecryptionKeyView>,
    KeyReleaseError,
> {
    match message::decoded::<ProtectedResponse>(bundle, wire::RECURSION_LIMIT as nat) {
        None => Err(KeyReleaseError::Malformed),
        Some(r) => match parsed_keys(r.decryption_keys) {
            Err(e) => Err(KeyReleaseError::Key(e)),
            Ok(keys) => if keys.len() == 0 {
                Err(KeyReleaseError::NoKeys)
            } else {
                Ok(keys)
            },
        },
    }
}

/// The keys that were released to this transform.
#[derive(Debug, Clone)]
pub struct TransformKeys {
    decryption_keys: Vec<DecryptionKey>,
}

impl View for TransformKeys {
    type V = Seq<DecryptionKeyView>;

    closed spec fn view(&self) -> Seq<DecryptionKeyView> {
        order::views(self.decryption_keys@)
    }
}

/// Why a blob could not be decrypted.
#[derive(Debug, Clone, Copy, PartialEq, Eq, Structural)]
pub enum DecryptError {
    /// The blob uses an associated-data component that is no longer in use.
    DeprecatedComponent,
    /// The blob is missing symmetric-key associated data.
    MissingAssociatedData,
    /// The encapsulated key has the wrong length.
    EncapsulatedKey,
    /// No released key opens the blob's symmetric key.
    NoKeyOpens,
    /// The unwrapped symmetric key is of no use.
    SymmetricKey(KeyError),
    /// The unwrapped symmetric key has the wrong length.
    SymmetricKeyLength,
    /// The payload is not authentic.
    Payload,
}

/// The wrapped key, opened with the first released key that opens it.
pub open spec fn opened_by_first(
    keys: Seq<DecryptionKeyView>,
    encapsulated_key: Seq<u8>,
    ciphertext: Seq<u8>,
    associated_data: Seq<u8>,
) -> Option<Seq<u8>>
    decreases keys.len(),
{
    if keys.len() == 0 {
        None
    } else {
        let sealed = hpke_opened(
            keys[0].private_key,
            encapsulated_key,
            Seq::empty(),
            ciphertext,
            associated_data,
        );
        if keys[0].private_key.len() == X25519_KEY_LEN && sealed is Some {
            sealed
        } else {
            opened_by_first(keys.drop_first(), encapsulated_key, ciphertext, associated_data)
        }
    }
}

/// The payload under a COSE-encoded symmetric key.
pub open spec fn payload_opened(
    symmetric_cose: Seq<u8>,
    ciphertext: Seq<u8>,
    associated_data: Seq<u8>,
) -> Result<Seq<u8>, DecryptError> {
    match parsed_symmetric_key(symmetric_cose) {
        Err(e) => Err(DecryptError::SymmetricKey(e)),
        Ok(key) => if key.len() != AES_KEY_LEN {
            Err(DecryptError::SymmetricKeyLength)
        } else {
            match aes_gcm_siv_opened(key, NONCE@, ciphertext, associated_data) {
                None => Err(DecryptError::Payload),
                Some(p) => Ok(p),
            }
        },
    }
}

/// The plaintext of a blob.
pub open spec fn blob_opened(
    keys: Seq<DecryptionKeyView>,
    metadata: protocol::HpkePlusAeadView,
    ciphertext: Seq<u8>,
) -> Result<Seq<u8>, DecryptError> {
    match metadata.header {
        None => Err(DecryptError::MissingAssociatedData),
        Some(None) => Err(DecryptError::DeprecatedComponent),
        Some(Some(header)) => if metadata.encapsulated_public_key.len() != X25519_KEY_LEN {
            Err(DecryptError::EncapsulatedKey)
        } else {
            match opened_by_first(
                keys,
                metadata.encapsulated_public_key,
                metadata.encrypted_symmetric_key,
                header,
            ) {
                None => Err(DecryptError::NoKeyOpens),
                Some(symmetric_cose) => payload_opened(
                    symmetric_cose,
                    ciphertext,
                    metadata.ciphertext_associated_data,
                ),
            }
        },
    }
}

impl TransformKeys {
    /// Parses the released key bundle.
    ///
    /// `bundle` is the plaintext of the protected response, which the caller
    /// decrypted with the transform's own encryption key.
    pub fn from_protected_response(bundle: &[u8]) -> (r: Result<TransformKeys, KeyReleaseError>)
        ensures
            match r {
                Ok(keys) => released_keys(bundle@) == Ok::<
                    Seq<DecryptionKeyView>,
                    KeyReleaseError,
                >(keys@),
                Err(e) => released_keys(bundle@) == Err::<
                    Seq<DecryptionKeyView>,
                    KeyReleaseError,
                >(e),
            },
    {
        let response = match message::decode::<ProtectedResponse>(bundle, wire::RECURSION_LIMIT) {
            Ok(response) => response,
            Err(_) => return Err(KeyReleaseError::Malformed),
        };
        let ghost all = order::views(response.decryption_keys@);
        let mut decryption_keys: Vec<DecryptionKey> = Vec::new();
        let mut i: usize = 0;
        proof {
            assert(all.take(0) =~= Seq::empty());
            assert(order::views(decryption_keys@) =~= Seq::empty());
        }
        while i < response.decryption_keys.len()
            invariant
                i <= response.decryption_keys@.len(),
                all == order::views(response.decryption_keys@),
                message::decoded::<ProtectedResponse>(bundle@, wire::RECURSION_LIMIT as nat)
                    == Some(response@),
                parsed_keys(all.take(i as int)) == Ok::<Seq<DecryptionKeyView>, KeyError>(
                    order::views(decryption_keys@),
                ),
            decreases response.decryption_keys@.len() - i,
        {
            let cose = response.decryption_keys[i].as_slice();
            proof {
                assert(all.take(i + 1).drop_last() =~= all.take(i as int));
                assert(all.take(i + 1).last() == cose@);
            }
            match parse_decryption_key(cose) {
                Ok(key) => {
                    assert(order::views(decryption_keys@.push(key)) =~= order::views(
                        decryption_keys@,
                    ).push(key@));
                    decryption_keys.push(key);
                },
                Err(e) => {
                    proof {
                        lemma_parsed_keys_fail(all, i + 1, e);
                    }
                    return Err(KeyReleaseError::Key(e));
                },
            }
            i = i + 1;
        }
        assert(all.take(all.len() as int) =~= all);
        if decryption_keys.len() == 0 {
            return Err(KeyReleaseError::NoKeys);
        }
        Ok(TransformKeys { decryption_keys })
    }

    /// Decrypts one encrypted input blob to plaintext.
    ///
    /// `ciphertext` is the data of the write; `metadata` is the blob's.
    pub fn decrypt_blob(&self, metadata: &HpkePlusAeadMetadata, ciphertext: &[u8]) -> (r: Result<
        Vec<u8>,
        DecryptError,
    >)
        ensures
            match r {
                Ok(p) => blob_opened(self@, metadata@, ciphertext@) == Ok::<
                    Seq<u8>,
                    DecryptError,
                >(p@),
                Err(e) => blob_opened(self@, metadata@, ciphertext@) == Err::<
                    Seq<u8>,
                    DecryptError,
                >(e),
            },
    {
        let record_header = match &metadata.symmetric_key_associated_data_components {
            Some(SymmetricKeyAssociatedDataComponents::KmsSymmetricKeyAssociatedData(kms)) => {
                kms.record_header.as_slice()
            },
            Some(SymmetricKeyAssociatedDataComponents::LedgerSymmetricKeyAssociatedData) => {
                return Err(DecryptError::DeprecatedComponent);
            },
            None => return Err(DecryptError::MissingAssociatedData),
        };
        let symmetric_cose = match self.unwrap_symmetric_key(
            metadata.encrypted_symmetric_key.as_slice(),
            metadata.encapsulated_public_key.as_slice(),
            record_header,
        ) {
            Ok(cose) => cose,
            Err(e) => return Err(e),
        };
        decrypt_payload(
            symmetric_cose.as_slice(),
            ciphertext,
            metadata.ciphertext_associated_data.as_slice(),
        )
    }

    /// HPKE-opens the wrapped symmetric key, trying each released decryption
    /// key. Opening is authenticated, so a key that does not match fails cleanly.
    fn unwrap_symmetric_key(
        &self,
        encrypted_symmetric_key: &[u8],
        encapsulated_public_key: &[u8],
        associated_data: &[u8],
    ) -> (r: Result<Vec<u8>, DecryptError>)
        ensures
            r is Ok <==> encapsulated_public_key@.len() == X25519_KEY_LEN && opened_by_first(
                self@,
                encapsulated_public_key@,
                encrypted_symmetric_key@,
                associated_data@,
            ) is Some,
            r matches Ok(p) ==> opened_by_first(
                self@,
                encapsulated_public_key@,
                encrypted_symmetric_key@,
                associated_data@,
            ) == Some(p@),
            r matches Err(e) ==> if encapsulated_public_key@.len() != X25519_KEY_LEN {
                e is EncapsulatedKey
            } else {
                e is NoKeyOpens
            },
    {
        match load_encapsulated_key(encapsulated_public_key) {
            Ok(()) => {},
            Err(_) => return Err(DecryptError::EncapsulatedKey),
        }
        let ghost all = self@;
        let info: [u8; 0] = [];
        assert(info@ =~= Seq::<u8>::empty());
        let mut i: usize = 0;
        assert(all.skip(0) =~= all);
        while i < self.decryption_keys.len()
            invariant
                i <= self.decryption_keys@.len(),
                all == self@,
                all == order::views(self.decryption_keys@),
                info@ == Seq::<u8>::empty(),
                encapsulated_public_key@.len() == X25519_KEY_LEN,
                opened_by_first(
                    all,
                    encapsulated_public_key@,
                    encrypted_symmetric_key@,
                    associated_data@,
                ) == opened_by_first(
                    all.skip(i as int),
                    encapsulated_public_key@,
                    encrypted_symmetric_key@,
                    associated_data@,
                ),
            decreases self.decryption_keys@.len() - i,
        {
            let key = &self.decryption_keys[i];
            proof {
                assert(all.skip(i as int)[0] == key@);
                assert(all.skip(i as int).drop_first() =~= all.skip(i + 1));
            }
            if let Ok(()) = load_private_key(key.private_key.as_slice()) {
                if let Ok(plaintext) = hpke_open(
                    key.private_key.as_slice(),
                    encapsulated_public_key,
                    info.as_slice(),
                    encrypted_symmetric_key,
                    associated_data,
                ) {
                    return Ok(plaintext);
                }
            }
            i = i + 1;
        }
        Err(DecryptError::NoKeyOpens)
    }
}

/// Decrypts a payload with a COSE-encoded symmetric key.
pub fn decrypt_payload(symmetric_cose: &[u8], ciphertext: &[u8], associated_data: &[u8]) -> (r: Result<
    Vec<u8>,
    DecryptError,
>)
    ensures
        match r {
            Ok(p) => payload_opened(symmetric_cose@, ciphertext@, associated_data@) == Ok::<
                Seq<u8>,
                DecryptError,
            >(p@),
            Err(e) => payload_opened(symmetric_cose@, ciphertext@, associated_data@) == Err::<
                Seq<u8>,
                DecryptError,
            >(e),
        },
{
    let key = match parse_symmetric_key(symmetric_cose) {
        Ok(key) => key,
        Err(e) => return Err(DecryptError::SymmetricKey(e)),
    };
    if !is_aes_key(key.as_slice()) {
        return Err(DecryptError::SymmetricKeyLength);
    }
    match aes_gcm_siv_open(key.as_slice(), &NONCE, ciphertext, associated_data) {
        Ok(p) => Ok(p),
        Err(_) => Err(DecryptError::Payload),
    }
}

proof fn lemma_parsed_keys_fail(keys: Seq<Seq<u8>>, n: int, e: KeyError)
    requires
        0 <= n <= keys.len(),
        parsed_keys(keys.take(n)) == Err::<Seq<DecryptionKeyView>, KeyError>(e),
    ensures
        parsed_keys(keys) == Err::<Seq<DecryptionKeyView>, KeyError>(e),
    decreases keys.len() - n,
{
    if n < keys.len() {
        assert(keys.take(n + 1).drop_last() =~= keys.take(n));
        lemma_parsed_keys_fail(keys, n + 1, e);
    } else {
        assert(keys.take(n) =~= keys);
    }
}

// ---------------------------------------------------------------------------
// Laws
// ---------------------------------------------------------------------------

/// Whether a released key opens the wrapped key of a blob.
pub open spec fn key_opens(
    key: DecryptionKeyView,
    encapsulated_key: Seq<u8>,
    ciphertext: Seq<u8>,
    associated_data: Seq<u8>,
) -> bool {
    key.private_key.len() == X25519_KEY_LEN && hpke_opened(
        key.private_key,
        encapsulated_key,
        Seq::empty(),
        ciphertext,
        associated_data,
    ) is Some
}

/// Both layers are reversed: where a released key opens the wrapped key, none
/// before it does, and the wrapped key opens the payload, the blob is decrypted to
/// that payload.
pub proof fn law_matching_key_opens_the_blob(
    keys: Seq<DecryptionKeyView>,
    i: int,
    metadata: protocol::HpkePlusAeadView,
    header: Seq<u8>,
    ciphertext: Seq<u8>,
    plaintext: Seq<u8>,
)
    requires
        metadata.header == Some(Some(header)),
        metadata.encapsulated_public_key.len() == X25519_KEY_LEN,
        0 <= i < keys.len(),
        key_opens(
            keys[i],
            metadata.encapsulated_public_key,
            metadata.encrypted_symmetric_key,
            header,
        ),
        forall|j: int|
            0 <= j < i ==> !key_opens(
                #[trigger] keys[j],
                metadata.encapsulated_public_key,
                metadata.encrypted_symmetric_key,
                header,
            ),
        payload_opened(
            hpke_opened(
                keys[i].private_key,
                metadata.encapsulated_public_key,
                Seq::empty(),
                metadata.encrypted_symmetric_key,
                header,
            )->0,
            ciphertext,
            metadata.ciphertext_associated_data,
        ) == Ok::<Seq<u8>, DecryptError>(plaintext),
    ensures
        blob_opened(keys, metadata, ciphertext) == Ok::<Seq<u8>, DecryptError>(plaintext),
{
    lemma_first_key_that_opens(
        keys,
        i,
        metadata.encapsulated_public_key,
        metadata.encrypted_symmetric_key,
        header,
    );
}

/// Whether a blob was sealed to a key: the key opens what wraps the symmetric key,
/// and that opens the payload.
pub open spec fn sealed_to(
    key: DecryptionKeyView,
    metadata: protocol::HpkePlusAeadView,
    ciphertext: Seq<u8>,
    plaintext: Seq<u8>,
) -> bool {
    &&& metadata.header matches Some(Some(header)) && key.private_key.len() == X25519_KEY_LEN && (
    hpke_opened(
        key.private_key,
        metadata.encapsulated_public_key,
        Seq::empty(),
        metadata.encrypted_symmetric_key,
        header,
    ) matches Some(cose) && (parsed_symmetric_key(cose) matches Ok(symmetric) && symmetric.len()
        == AES_KEY_LEN && aes_gcm_siv_opened(
        symmetric,
        NONCE@,
        ciphertext,
        metadata.ciphertext_associated_data,
    ) == Some(plaintext)))
    &&& metadata.encapsulated_public_key.len() == X25519_KEY_LEN
}

/// A blob that was sealed to a key of a released bundle decrypts to what was sealed,
/// where no key before it opens the blob's symmetric key.
pub proof fn law_blob_sealed_to_a_released_key_decrypts(
    bundle: Seq<u8>,
    i: int,
    metadata: protocol::HpkePlusAeadView,
    ciphertext: Seq<u8>,
    plaintext: Seq<u8>,
)
    requires
        released_keys(bundle) is Ok,
        0 <= i < released_keys(bundle)->Ok_0.len(),
        sealed_to(released_keys(bundle)->Ok_0[i], metadata, ciphertext, plaintext),
        forall|j: int|
            0 <= j < i ==> !key_opens(
                #[trigger] released_keys(bundle)->Ok_0[j],
                metadata.encapsulated_public_key,
                metadata.encrypted_symmetric_key,
                metadata.header->0->0,
            ),
    ensures
        blob_opened(released_keys(bundle)->Ok_0, metadata, ciphertext) == Ok::<
            Seq<u8>,
            DecryptError,
        >(plaintext),
{
    law_matching_key_opens_the_blob(
        released_keys(bundle)->Ok_0,
        i,
        metadata,
        metadata.header->0->0,
        ciphertext,
        plaintext,
    );
}

/// A blob without associated data for its symmetric key, or with such data of a kind
/// that is no longer in use, is refused, whatever keys were released.
pub proof fn law_blob_without_associated_data_is_refused(
    keys: Seq<DecryptionKeyView>,
    metadata: protocol::HpkePlusAeadView,
    ciphertext: Seq<u8>,
)
    requires
        !(metadata.header matches Some(Some(_))),
    ensures
        blob_opened(keys, metadata, ciphertext) is Err,
{
}

proof fn lemma_first_key_that_opens(
    keys: Seq<DecryptionKeyView>,
    i: int,
    encapsulated_key: Seq<u8>,
    ciphertext: Seq<u8>,
    associated_data: Seq<u8>,
)
    requires
        0 <= i < keys.len(),
        key_opens(keys[i], encapsulated_key, ciphertext, associated_data),
        forall|j: int|
            0 <= j < i ==> !key_opens(
                #[trigger] keys[j],
                encapsulated_key,
                ciphertext,
                associated_data,
            ),
    ensures
        opened_by_first(keys, encapsulated_key, ciphertext, associated_data) == hpke_opened(
            keys[i].private_key,
            encapsulated_key,
            Seq::empty(),
            ciphertext,
            associated_data,
        ),
    decreases keys.len(),
{
    if i > 0 {
        let rest = keys.drop_first();
        assert(!key_opens(keys[0], encapsulated_key, ciphertext, associated_data));
        assert forall|j: int| 0 <= j < i - 1 implies !key_opens(
            #[trigger] rest[j],
            encapsulated_key,
            ciphertext,
            associated_data,
        ) by {
            assert(rest[j] == keys[j + 1]);
        }
        lemma_first_key_that_opens(rest, i - 1, encapsulated_key, ciphertext, associated_data);
    }
}

/// A blob that can be decrypted is decrypted the same when more keys are
/// released behind those at hand.
pub proof fn law_more_keys_change_nothing(
    keys: Seq<DecryptionKeyView>,
    more: Seq<DecryptionKeyView>,
    metadata: protocol::HpkePlusAeadView,
    ciphertext: Seq<u8>,
)
    requires
        blob_opened(keys, metadata, ciphertext) is Ok,
    ensures
        blob_opened(keys + more, metadata, ciphertext) == blob_opened(keys, metadata, ciphertext),
{
    if let Some(Some(header)) = metadata.header {
        lemma_opened_by_first_extends(
            keys,
            more,
            metadata.encapsulated_public_key,
            metadata.encrypted_symmetric_key,
            header,
        );
    }
}

proof fn lemma_opened_by_first_extends(
    keys: Seq<DecryptionKeyView>,
    more: Seq<DecryptionKeyView>,
    encapsulated_key: Seq<u8>,
    ciphertext: Seq<u8>,
    associated_data: Seq<u8>,
)
    requires
        opened_by_first(keys, encapsulated_key, ciphertext, associated_data) is Some,
    ensures
        opened_by_first(keys + more, encapsulated_key, ciphertext, associated_data)
            == opened_by_first(keys, encapsulated_key, ciphertext, associated_data),
    decreases keys.len(),
{
    if keys.len() > 0 {
        assert((keys + more)[0] == keys[0]);
        assert((keys + more).drop_first() =~= keys.drop_first() + more);
        let sealed = hpke_opened(
            keys[0].private_key,
            encapsulated_key,
            Seq::empty(),
            ciphertext,
            associated_data,
        );
        if !(keys[0].private_key.len() == X25519_KEY_LEN && sealed is Some) {
            lemma_opened_by_first_extends(
                keys.drop_first(),
                more,
                encapsulated_key,
                ciphertext,
                associated_data,
            );
        }
    }
}

/// A released key that does not open a blob makes no difference to it.
pub proof fn law_mismatched_key_is_passed_over(
    key: DecryptionKeyView,
    keys: Seq<DecryptionKeyView>,
    metadata: protocol::HpkePlusAeadView,
    ciphertext: Seq<u8>,
)
    requires
        metadata.header matches Some(Some(header)) ==> !key_opens(
            key,
            metadata.encapsulated_public_key,
            metadata.encrypted_symmetric_key,
            header,
        ),
    ensures
        blob_opened(seq![key] + keys, metadata, ciphertext) == blob_opened(
            keys,
            metadata,
            ciphertext,
        ),
{
    assert((seq![key] + keys).drop_first() =~= keys);
    assert((seq![key] + keys)[0] == key);
}

// ---------------------------------------------------------------------------
// Laws of the keys
// ---------------------------------------------------------------------------

/// The bytes of a parameter are those of the first one with the label, whatever the
/// others are; there are none where no parameter has the label.
proof fn lemma_param_bytes(params: Seq<CoseParamView>, label: i64, p: int)
    requires
        0 <= p <= params.len(),
        forall|j: int|
            0 <= j < p ==> (#[trigger] params[j]).label != CoseLabelView::Number(label),
        p < params.len() ==> params[p].label == CoseLabelView::Number(label),
    ensures
        param_bytes(params, label) == (if p < params.len() {
            params[p].bytes
        } else {
            None
        }),
    decreases params.len(),
{
    if p > 0 {
        assert(params[0].label != CoseLabelView::Number(label));
        let rest = params.drop_first();
        assert forall|j: int| 0 <= j < p - 1 implies (#[trigger] rest[j]).label
            != CoseLabelView::Number(label) by {
            assert(rest[j] == params[j + 1]);
        }
        lemma_param_bytes(rest, label, p - 1);
    }
}

/// Which COSE keys are decryption keys. The type must be that of an octet key pair
/// (1), the algorithm HPKE-Base-X25519-SHA256-AES128GCM (-65537) and the first
/// parameter with the label of the private key (-4) a byte string; the key is then
/// that byte string under the key's own identifier. Otherwise the first of the three
/// that does not hold is named. Here `p` is the place of that parameter, or the end
/// of the list where there is none.
pub proof fn law_which_cose_keys_decrypt(k: CoseKeyView, p: int)
    requires
        0 <= p <= k.params.len(),
        forall|j: int|
            0 <= j < p ==> (#[trigger] k.params[j]).label != CoseLabelView::Number(-4i64),
        p < k.params.len() ==> k.params[p].label == CoseLabelView::Number(-4i64),
    ensures
        k.kty != CoseLabelView::Number(1i64) ==> decryption_key(k) == Err::<
            DecryptionKeyView,
            KeyError,
        >(KeyError::WrongType),
        k.kty == CoseLabelView::Number(1i64) && k.alg != Some(CoseLabelView::PrivateUse(-65537i64))
            ==> decryption_key(k) == Err::<DecryptionKeyView, KeyError>(KeyError::WrongAlgorithm),
        k.kty == CoseLabelView::Number(1i64) && k.alg == Some(CoseLabelView::PrivateUse(-65537i64))
            ==> {
            &&& p == k.params.len() ==> decryption_key(k) == Err::<DecryptionKeyView, KeyError>(
                KeyError::MissingBytes,
            )
            &&& p < k.params.len() ==> match k.params[p].bytes {
                None => decryption_key(k) == Err::<DecryptionKeyView, KeyError>(
                    KeyError::MissingBytes,
                ),
                Some(d) => decryption_key(k) matches Ok(key) && key.key_id == k.key_id
                    && key.private_key == d,
            }
        },
{
    lemma_param_bytes(k.params, -4i64, p);
}

/// Which COSE keys are symmetric keys: as for decryption keys, with the symmetric key
/// type (4), AEAD_AES_128_GCM_SIV with a fixed nonce (-65538) and the label of a
/// symmetric key's bytes (-1).
pub proof fn law_which_cose_keys_are_symmetric(k: CoseKeyView, p: int)
    requires
        0 <= p <= k.params.len(),
        forall|j: int|
            0 <= j < p ==> (#[trigger] k.params[j]).label != CoseLabelView::Number(-1i64),
        p < k.params.len() ==> k.params[p].label == CoseLabelView::Number(-1i64),
    ensures
        k.kty != CoseLabelView::Number(4i64) ==> symmetric_key(k) == Err::<Seq<u8>, KeyError>(
            KeyError::WrongType,
        ),
        k.kty == CoseLabelView::Number(4i64) && k.alg != Some(CoseLabelView::PrivateUse(-65538i64))
            ==> symmetric_key(k) == Err::<Seq<u8>, KeyError>(KeyError::WrongAlgorithm),
        k.kty == CoseLabelView::Number(4i64) && k.alg == Some(CoseLabelView::PrivateUse(-65538i64))
            ==> {
            &&& p == k.params.len() ==> symmetric_key(k) == Err::<Seq<u8>, KeyError>(
                KeyError::MissingBytes,
            )
            &&& p < k.params.len() ==> match k.params[p].bytes {
                None => symmetric_key(k) == Err::<Seq<u8>, KeyError>(KeyError::MissingBytes),
                Some(bytes) => symmetric_key(k) == Ok::<Seq<u8>, KeyError>(bytes),
            }
        },
{
    lemma_param_bytes(k.params, -1i64, p);
}

/// A key is parsed as the COSE key that its bytes encode; bytes that encode none are
/// not a key.
pub proof fn law_keys_are_parsed_from_cose(bytes: Seq<u8>)
    ensures
        match cose_key(bytes) {
            None => parsed_decryption_key(bytes) == Err::<DecryptionKeyView, KeyError>(
                KeyError::NotCose,
            ) && parsed_symmetric_key(bytes) == Err::<Seq<u8>, KeyError>(KeyError::NotCose),
            Some(k) => parsed_decryption_key(bytes) == decryption_key(k) && parsed_symmetric_key(
                bytes,
            ) == symmetric_key(k),
        },
{
}

proof fn lemma_all_keys_parse(keys: Seq<Seq<u8>>)
    requires
        forall|i: int| 0 <= i < keys.len() ==> parsed_decryption_key(#[trigger] keys[i]) is Ok,
    ensures
        parsed_keys(keys) matches Ok(parsed) && parsed.len() == keys.len() && forall|i: int|
            0 <= i < keys.len() ==> parsed_decryption_key(#[trigger] keys[i]) == Ok::<
                DecryptionKeyView,
                KeyError,
            >(parsed[i]),
    decreases keys.len(),
{
    if keys.len() > 0 {
        let init = keys.drop_last();
        assert forall|i: int| 0 <= i < init.len() implies parsed_decryption_key(
            #[trigger] init[i],
        ) is Ok by {
            assert(init[i] == keys[i]);
        }
        lemma_all_keys_parse(init);
        let parsed = parsed_keys(keys)->Ok_0;
        let before = parsed_keys(init)->Ok_0;
        assert(keys.last() == keys[keys.len() - 1]);
        assert forall|i: int| 0 <= i < keys.len() implies parsed_decryption_key(#[trigger] keys[i])
            == Ok::<DecryptionKeyView, KeyError>(parsed[i]) by {
            if i < init.len() {
                assert(init[i] == keys[i]);
                assert(parsed[i] == before[i]);
            }
        }
    }
}

/// A released response gives exactly its decryption keys, in order: where there is
/// one and each of them parses, the encoding of the response is released as those
/// keys, one for one, whatever the response holds in the way of result encryption
/// keys.
pub proof fn law_released_response_gives_its_keys(r: ProtectedResponseView)
    requires
        message::encoding::<ProtectedResponse>(r).len() <= u64::MAX,
        r.decryption_keys.len() > 0,
        forall|i: int|
            0 <= i < r.decryption_keys.len() ==> parsed_decryption_key(
                #[trigger] r.decryption_keys[i],
            ) is Ok,
    ensures
        released_keys(message::encoding::<ProtectedResponse>(r)) matches Ok(released)
            && released.len() == r.decryption_keys.len() && forall|i: int|
            0 <= i < r.decryption_keys.len() ==> parsed_decryption_key(
                #[trigger] r.decryption_keys[i],
            ) == Ok::<DecryptionKeyView, KeyError>(released[i]),
{
    message::law_decode_encode::<ProtectedResponse>(r, wire::RECURSION_LIMIT as nat);
    lemma_all_keys_parse(r.decryption_keys);
}

/// A response without decryption keys releases nothing, and one that holds a
/// decryption key which does not parse is refused for the first such key, whatever
/// comes behind it and whatever the result encryption keys are.
pub proof fn law_response_without_usable_keys_is_refused(
    r: ProtectedResponseView,
    i: int,
    e: KeyError,
)
    requires
        message::encoding::<ProtectedResponse>(r).len() <= u64::MAX,
    ensures
        r.decryption_keys.len() == 0 ==> released_keys(message::encoding::<ProtectedResponse>(r))
            == Err::<Seq<DecryptionKeyView>, KeyReleaseError>(KeyReleaseError::NoKeys),
        0 <= i < r.decryption_keys.len() && parsed_decryption_key(r.decryption_keys[i]) == Err::<
            DecryptionKeyView,
            KeyError,
        >(e) && (forall|j: int|
            0 <= j < i ==> parsed_decryption_key(#[trigger] r.decryption_keys[j]) is Ok)
            ==> released_keys(message::encoding::<ProtectedResponse>(r)) == Err::<
            Seq<DecryptionKeyView>,
            KeyReleaseError,
        >(KeyReleaseError::Key(e)),
{
    message::law_decode_encode::<ProtectedResponse>(r, wire::RECURSION_LIMIT as nat);
    let all = r.decryption_keys;
    if 0 <= i < all.len() && parsed_decryption_key(all[i]) == Err::<DecryptionKeyView, KeyError>(e)
        && (forall|j: int| 0 <= j < i ==> parsed_decryption_key(#[trigger] all[j]) is Ok) {
        assert forall|j: int| 0 <= j < all.take(i).len() implies parsed_decryption_key(
            #[trigger] all.take(i)[j],
        ) is Ok by {
            assert(all.take(i)[j] == all[j]);
        }
        lemma_all_keys_parse(all.take(i));
        assert(all.take(i + 1).drop_last() =~= all.take(i));
        assert(all.take(i + 1).last() == all[i]);
        lemma_parsed_keys_fail(all, i + 1, e);
    }
}

/// What releases nothing but an error: bytes that are no response are malformed, and
/// nothing that is a response is.
pub proof fn law_only_garbage_is_malformed(bundle: Seq<u8>)
    ensures
        released_keys(bundle) == Err::<Seq<DecryptionKeyView>, KeyReleaseError>(
            KeyReleaseError::Malformed,
        ) <==> message::decoded::<ProtectedResponse>(bundle, wire::RECURSION_LIMIT as nat) is None,
{
}

/// A blob is opened in two steps, and each takes what it is given for that step. The
/// first key whose private key of 32 bytes opens the encrypted symmetric key, with
/// the encapsulated key, no further information and the record header, gives a COSE
/// key; its 16 bytes open the ciphertext under the fixed nonce, with the ciphertext's
/// associated data.
#[verifier::rlimit(40)]
pub proof fn law_sealed_blob_opens(
    keys: Seq<DecryptionKeyView>,
    i: int,
    metadata: protocol::HpkePlusAeadView,
    header: Seq<u8>,
    cose: Seq<u8>,
    symmetric: Seq<u8>,
    ciphertext: Seq<u8>,
)
    requires
        metadata.header == Some(Some(header)),
        metadata.encapsulated_public_key.len() == 32,
        0 <= i < keys.len(),
        keys[i].private_key.len() == 32,
        hpke_opened(
            keys[i].private_key,
            metadata.encapsulated_public_key,
            Seq::empty(),
            metadata.encrypted_symmetric_key,
            header,
        ) == Some(cose),
        forall|j: int|
            0 <= j < i ==> (#[trigger] keys[j]).private_key.len() != 32 || hpke_opened(
                keys[j].private_key,
                metadata.encapsulated_public_key,
                Seq::empty(),
                metadata.encrypted_symmetric_key,
                header,
            ) is None,
        parsed_symmetric_key(cose) == Ok::<Seq<u8>, KeyError>(symmetric),
    ensures
        symmetric.len() != 16 ==> blob_opened(keys, metadata, ciphertext) == Err::<
            Seq<u8>,
            DecryptError,
        >(DecryptError::SymmetricKeyLength),
        symmetric.len() == 16 ==> match aes_gcm_siv_opened(
            symmetric,
            seq![
                0x74u8,
                0xDFu8,
                0x8Fu8,
                0xD4u8,
                0xBEu8,
                0x34u8,
                0xAFu8,
                0x64u8,
                0x7Fu8,
                0x5Eu8,
                0x54u8,
                0xF6u8,
            ],
            ciphertext,
            metadata.ciphertext_associated_data,
        ) {
            Some(plaintext) => blob_opened(keys, metadata, ciphertext) == Ok::<
                Seq<u8>,
                DecryptError,
            >(plaintext),
            None => blob_opened(keys, metadata, ciphertext) == Err::<Seq<u8>, DecryptError>(
                DecryptError::Payload,
            ),
        },
{
    lemma_first_key_that_opens(
        keys,
        i,
        metadata.encapsulated_public_key,
        metadata.encrypted_symmetric_key,
        header,
    );
    assert(NONCE@ =~= seq![
        0x74u8,
        0xDFu8,
        0x8Fu8,
        0xD4u8,
        0xBEu8,
        0x34u8,
        0xAFu8,
        0x64u8,
        0x7Fu8,
        0x5Eu8,
        0x54u8,
        0xF6u8,
    ]);
}

proof fn lemma_no_key_opens(
    keys: Seq<DecryptionKeyView>,
    encapsulated_key: Seq<u8>,
    ciphertext: Seq<u8>,
    associated_data: Seq<u8>,
)
    requires
        forall|j: int|
            0 <= j < keys.len() ==> !key_opens(
                #[trigger] keys[j],
                encapsulated_key,
                ciphertext,
                associated_data,
            ),
    ensures
        opened_by_first(keys, encapsulated_key, ciphertext, associated_data) is None,
    decreases keys.len(),
{
    if keys.len() > 0 {
        assert(!key_opens(keys[0], encapsulated_key, ciphertext, associated_data));
        let rest = keys.drop_first();
        assert forall|j: int| 0 <= j < rest.len() implies !key_opens(
            #[trigger] rest[j],
            encapsulated_key,
            ciphertext,
            associated_data,
        ) by {
            assert(rest[j] == keys[j + 1]);
        }
        lemma_no_key_opens(rest, encapsulated_key, ciphertext, associated_data);
    }
}

/// A blob that cannot be opened is refused with the reason: it names no associated
/// data, it names it in the deprecated form, the encapsulated key is not of 32 bytes,
/// or no released key of 32 bytes opens its symmetric key.
#[verifier::rlimit(40)]
pub proof fn law_unopenable_blob_is_refused_with_the_reason(
    keys: Seq<DecryptionKeyView>,
    metadata: protocol::HpkePlusAeadView,
    ciphertext: Seq<u8>,
)
    ensures
        metadata.header is None <==> blob_opened(keys, metadata, ciphertext) == Err::<
            Seq<u8>,
            DecryptError,
        >(DecryptError::MissingAssociatedData),
        metadata.header == Some(None::<Seq<u8>>) <==> blob_opened(keys, metadata, ciphertext)
            == Err::<Seq<u8>, DecryptError>(DecryptError::DeprecatedComponent),
        metadata.header matches Some(Some(header)) ==> {
            &&& metadata.encapsulated_public_key.len() != 32 <==> blob_opened(
                keys,
                metadata,
                ciphertext,
            ) == Err::<Seq<u8>, DecryptError>(DecryptError::EncapsulatedKey)
            &&& metadata.encapsulated_public_key.len() == 32 && (forall|j: int|
                0 <= j < keys.len() ==> (#[trigger] keys[j]).private_key.len() != 32
                    || hpke_opened(
                    keys[j].private_key,
                    metadata.encapsulated_public_key,
                    Seq::empty(),
                    metadata.encrypted_symmetric_key,
                    header,
                ) is None) ==> blob_opened(keys, metadata, ciphertext) == Err::<
                Seq<u8>,
                DecryptError,
            >(DecryptError::NoKeyOpens)
        },
{
    if let Some(Some(header)) = metadata.header {
        if forall|j: int|
            0 <= j < keys.len() ==> (#[trigger] keys[j]).private_key.len() != 32 || hpke_opened(
                keys[j].private_key,
                metadata.encapsulated_public_key,
                Seq::empty(),
                metadata.encrypted_symmetric_key,
                header,
            ) is None {
            lemma_no_key_opens(
                keys,
                metadata.encapsulated_public_key,
                metadata.encrypted_symmetric_key,
                header,
            );
        }
    }
}

/// The payload is opened with the symmetric key that the COSE key is; a COSE key that
/// is none is refused with what is wrong with it.
pub proof fn law_payload_needs_a_symmetric_key(
    cose: Seq<u8>,
    ciphertext: Seq<u8>,
    associated_data: Seq<u8>,
    e: KeyError,
)
    ensures
        parsed_symmetric_key(cose) == Err::<Seq<u8>, KeyError>(e) <==> payload_opened(
            cose,
            ciphertext,
            associated_data,
        ) == Err::<Seq<u8>, DecryptError>(DecryptError::SymmetricKey(e)),
{
}

/// Keys are seen as they are.
pub proof fn law_key_views_are_faithful(key: DecryptionKey, cose: CoseKeyFields)
    ensures
        key@.key_id == key.key_id@,
        key@.private_key == key.private_key@,
        cose@.kty == cose.kty@,
        cose@.alg is Some <==> cose.alg is Some,
        cose.alg matches Some(alg) ==> cose@.alg == Some(alg@),
        cose@.key_id == cose.key_id@,
        cose@.params.len() == cose.params@.len(),
        forall|i: int|
            0 <= i < cose.params@.len() ==> (#[trigger] cose@.params[i]).label
                == cose.params@[i].label@ && (cose@.params[i].bytes is Some
                <==> cose.params@[i].bytes is Some) && (cose.params@[i].bytes matches Some(b)
                ==> cose@.params[i].bytes == Some(b@)),
        match cose.kty {
            CoseLabel::Number(n) => cose@.kty == CoseLabelView::Number(n),
            CoseLabel::PrivateUse(n) => cose@.kty == CoseLabelView::PrivateUse(n),
            CoseLabel::Text(s) => cose@.kty == CoseLabelView::Text(s@),
        },
{
}

} // verus!

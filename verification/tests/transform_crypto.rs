//! Released keys and the decryption of blobs.

use aes_gcm_siv::aead::{Aead, Payload};
use aes_gcm_siv::{Aes128GcmSiv, KeyInit};
use confined_wasm::confidential_transform::{plaintext_data, TransformError};
use confined_wasm::message;
use confined_wasm::proto::keys::ProtectedResponse;
use confined_wasm::protocol::{
    BlobMetadata, EncryptionMetadata, HpkePlusAeadMetadata, KmsAssociatedData,
    SymmetricKeyAssociatedDataComponents, WriteRequest,
};
use confined_wasm::transform_crypto::{
    decrypt_payload, decryption_key_from, parse_decryption_key, parse_symmetric_key,
    symmetric_key_from, CoseKeyFields, CoseLabel, CoseParam, DecryptError, KeyError,
    KeyReleaseError, TransformKeys, AEAD_AES_128_GCM_SIV_FIXED_NONCE,
    HPKE_BASE_X25519_SHA256_AES128GCM, NONCE,
};
use coset::{iana, Algorithm, CborSerializable, CoseKey, KeyType, Label};
use hpke::aead::AesGcm128;
use hpke::kdf::HkdfSha256;
use hpke::kem::X25519HkdfSha256;
use hpke::{Deserializable, Kem, OpModeS, Serializable};
use rand_core::{OsRng, RngCore};

/// Builds a COSE_Key for an X25519 HPKE private key, mirroring the client.
fn private_cose_key(key_id: &[u8], private_key: &[u8]) -> Vec<u8> {
    CoseKey {
        kty: KeyType::Assigned(iana::KeyType::OKP),
        key_id: key_id.to_vec(),
        alg: Some(Algorithm::PrivateUse(HPKE_BASE_X25519_SHA256_AES128GCM)),
        params: vec![
            (
                Label::Int(iana::OkpKeyParameter::Crv as i64),
                (iana::EllipticCurve::X25519 as u64).into(),
            ),
            (
                Label::Int(iana::OkpKeyParameter::D as i64),
                coset::cbor::value::Value::Bytes(private_key.to_vec()),
            ),
        ],
        ..Default::default()
    }
    .to_vec()
    .unwrap()
}

/// Builds a COSE_Key wrapping a raw AES-128-GCM-SIV symmetric key.
fn symmetric_cose_key(raw: &[u8]) -> Vec<u8> {
    CoseKey {
        kty: KeyType::Assigned(iana::KeyType::Symmetric),
        alg: Some(Algorithm::PrivateUse(AEAD_AES_128_GCM_SIV_FIXED_NONCE)),
        params: vec![(
            Label::Int(iana::SymmetricKeyParameter::K as i64),
            coset::cbor::value::Value::Bytes(raw.to_vec()),
        )],
        ..Default::default()
    }
    .to_vec()
    .unwrap()
}

// Generates an X25519 keypair and returns (public, private).
fn gen_x25519() -> (Vec<u8>, Vec<u8>) {
    let (private_key, public_key) = <X25519HkdfSha256 as Kem>::gen_keypair(&mut OsRng);
    (public_key.to_bytes().to_vec(), private_key.to_bytes().to_vec())
}

/// Seals some bytes to a public key.
fn seal(bytes: &[u8], public_key: &[u8], header: &[u8]) -> (Vec<u8>, Vec<u8>) {
    let pk = <X25519HkdfSha256 as Kem>::PublicKey::from_bytes(public_key).unwrap();
    let (encapped, sealed) = hpke::single_shot_seal::<AesGcm128, HkdfSha256, X25519HkdfSha256, _>(
        &OpModeS::Base,
        &pk,
        &[],
        bytes,
        header,
        &mut OsRng,
    )
    .unwrap();
    (encapped.to_bytes().to_vec(), sealed)
}

/// Client-side two-layer blob encryption: AES-128-GCM-SIV over the payload, then
/// HPKE-seal the symmetric COSE key to the recipient public key. Returns the blob
/// metadata and the ciphertext.
fn client_encrypt_blob_full(
    plaintext: &[u8],
    recipient_public_key: &[u8],
    record_header: &[u8],
    ciphertext_associated_data: &[u8],
) -> (HpkePlusAeadMetadata, Vec<u8>) {
    let mut raw_key = [0u8; 16];
    OsRng.fill_bytes(&mut raw_key);
    let cipher = Aes128GcmSiv::new_from_slice(&raw_key).unwrap();
    let ciphertext = cipher
        .encrypt((&NONCE).into(), Payload { msg: plaintext, aad: ciphertext_associated_data })
        .unwrap();
    let (encapsulated_public_key, encrypted_symmetric_key) =
        seal(&symmetric_cose_key(&raw_key), recipient_public_key, record_header);
    let metadata = HpkePlusAeadMetadata {
        ciphertext_associated_data: ciphertext_associated_data.to_vec(),
        encrypted_symmetric_key,
        encapsulated_public_key,
        blob_id: b"blob-1".to_vec(),
        symmetric_key_associated_data_components: Some(
            SymmetricKeyAssociatedDataComponents::KmsSymmetricKeyAssociatedData(
                KmsAssociatedData { record_header: record_header.to_vec() },
            ),
        ),
    };
    (metadata, ciphertext)
}

fn released(keys: Vec<Vec<u8>>) -> Vec<u8> {
    message::encode(&ProtectedResponse { decryption_keys: keys, result_encryption_keys: vec![] })
}

#[test]
fn round_trip_protected_response_and_blob() {
    // The KMS-derived input keypair the client encrypts to.
    let key_id = b"kid-1".to_vec();
    let (input_pub, input_priv) = gen_x25519();

    let bundle = ProtectedResponse {
        decryption_keys: vec![private_cose_key(&key_id, &input_priv)],
        result_encryption_keys: vec![],
    };
    let protected_response = message::encode(&bundle);

    // Transform side: parse the decrypted bundle.
    let keys = TransformKeys::from_protected_response(&protected_response)
        .expect("protected response decrypts");

    // Client side: encrypt a payload to the released input public key.
    let plaintext = b"the quick brown fox";
    let record_header = b"serialized-blob-header";
    let ciphertext_aad = b"ciphertext-aad";
    let (metadata, ciphertext) =
        client_encrypt_blob_full(plaintext, &input_pub, record_header, ciphertext_aad);

    // Transform side: decrypt the blob.
    let recovered = keys.decrypt_blob(&metadata, &ciphertext).expect("blob decrypts");
    assert_eq!(recovered, plaintext);
}

#[test]
fn keys_that_do_not_match_are_passed_over() {
    let (public, private) = gen_x25519();
    let (_, other) = gen_x25519();
    let keys = TransformKeys::from_protected_response(&released(vec![
        private_cose_key(b"other", &other),
        private_cose_key(b"short", &[1, 2, 3]),
        private_cose_key(b"mine", &private),
        private_cose_key(b"more", &other),
    ]))
    .expect("keys");
    let (metadata, ciphertext) = client_encrypt_blob_full(b"payload", &public, b"h", b"a");
    assert_eq!(keys.decrypt_blob(&metadata, &ciphertext).expect("decrypt"), b"payload");
}

#[test]
fn release_errors() {
    let refused = |bytes: &[u8]| TransformKeys::from_protected_response(bytes).err();
    assert_eq!(refused(&[0x0a]), Some(KeyReleaseError::Malformed));
    assert_eq!(refused(&[]), Some(KeyReleaseError::NoKeys));
    assert_eq!(
        refused(&released(vec![b"junk".to_vec()])),
        Some(KeyReleaseError::Key(KeyError::NotCose))
    );
    let good = private_cose_key(b"k", &[7; 32]);
    assert_eq!(
        refused(&released(vec![good, symmetric_cose_key(&[1; 16])])),
        Some(KeyReleaseError::Key(KeyError::WrongType))
    );
}

#[test]
fn decryption_keys_are_parsed() {
    let key = parse_decryption_key(&private_cose_key(b"kid", &[9; 32])).expect("key");
    assert_eq!(key.key_id, b"kid");
    assert_eq!(key.private_key, vec![9; 32]);
    assert_eq!(parse_decryption_key(b"").err(), Some(KeyError::NotCose));
    assert_eq!(
        parse_symmetric_key(&symmetric_cose_key(&[3; 16])).expect("key"),
        vec![3; 16]
    );
    assert_eq!(
        parse_symmetric_key(&private_cose_key(b"k", &[1; 32])).err(),
        Some(KeyError::WrongType)
    );
}

fn fields(kty: i64, alg: Option<CoseLabel>, params: Vec<(CoseLabel, Option<Vec<u8>>)>) -> CoseKeyFields {
    CoseKeyFields {
        kty: CoseLabel::Number(kty),
        alg,
        key_id: b"id".to_vec(),
        params: params.into_iter().map(|(label, bytes)| CoseParam { label, bytes }).collect(),
    }
}

#[test]
fn key_fields_are_checked_in_order() {
    let hpke = || Some(CoseLabel::PrivateUse(HPKE_BASE_X25519_SHA256_AES128GCM));
    let d = || (CoseLabel::Number(-4), Some(vec![1]));
    let good = decryption_key_from(&fields(1, hpke(), vec![d()])).expect("key");
    assert_eq!((good.key_id, good.private_key), (b"id".to_vec(), vec![1]));

    assert_eq!(decryption_key_from(&fields(2, None, vec![])).err(), Some(KeyError::WrongType));
    assert_eq!(
        decryption_key_from(&fields(1, None, vec![d()])).err(),
        Some(KeyError::WrongAlgorithm)
    );
    let assigned = Some(CoseLabel::Number(HPKE_BASE_X25519_SHA256_AES128GCM));
    assert_eq!(
        decryption_key_from(&fields(1, assigned, vec![d()])).err(),
        Some(KeyError::WrongAlgorithm)
    );
    assert_eq!(
        decryption_key_from(&fields(1, hpke(), vec![])).err(),
        Some(KeyError::MissingBytes)
    );
    // Only the first parameter with the label counts.
    let odd = vec![(CoseLabel::Text("-4".to_string()), Some(vec![2])), (CoseLabel::Number(-4), None), d()];
    assert_eq!(
        decryption_key_from(&fields(1, hpke(), odd)).err(),
        Some(KeyError::MissingBytes)
    );
}

#[test]
fn symmetric_key_fields_are_checked_in_order() {
    let aead = || Some(CoseLabel::PrivateUse(AEAD_AES_128_GCM_SIV_FIXED_NONCE));
    let k = || (CoseLabel::Number(-1), Some(vec![6; 16]));
    let other = || (CoseLabel::Number(-4), Some(vec![2]));
    assert_eq!(
        symmetric_key_from(&fields(4, aead(), vec![other(), k()])).expect("key"),
        vec![6; 16]
    );
    assert_eq!(
        symmetric_key_from(&fields(1, aead(), vec![k()])).err(),
        Some(KeyError::WrongType)
    );
    assert_eq!(
        symmetric_key_from(&fields(4, None, vec![k()])).err(),
        Some(KeyError::WrongAlgorithm)
    );
    assert_eq!(
        symmetric_key_from(&fields(4, aead(), vec![other()])).err(),
        Some(KeyError::MissingBytes)
    );
}

#[test]
fn text_labels_survive_decoding() {
    let key = CoseKey {
        kty: KeyType::Assigned(iana::KeyType::OKP),
        alg: Some(Algorithm::Text("hpke".to_string())),
        params: vec![(
            Label::Text("d".to_string()),
            coset::cbor::value::Value::Bytes(vec![1]),
        )],
        ..Default::default()
    }
    .to_vec()
    .unwrap();
    assert_eq!(parse_decryption_key(&key).err(), Some(KeyError::WrongAlgorithm));
}

#[test]
fn every_decryption_error_has_an_input() {
    let (public, private) = gen_x25519();
    let keys =
        TransformKeys::from_protected_response(&released(vec![private_cose_key(b"k", &private)]))
            .expect("keys");
    let (metadata, ciphertext) = client_encrypt_blob_full(b"payload", &public, b"h", b"a");

    let mut m = metadata.clone();
    m.symmetric_key_associated_data_components = None;
    assert_eq!(
        keys.decrypt_blob(&m, &ciphertext).err(),
        Some(DecryptError::MissingAssociatedData)
    );

    let mut m = metadata.clone();
    m.symmetric_key_associated_data_components =
        Some(SymmetricKeyAssociatedDataComponents::LedgerSymmetricKeyAssociatedData);
    assert_eq!(
        keys.decrypt_blob(&m, &ciphertext).err(),
        Some(DecryptError::DeprecatedComponent)
    );

    let mut m = metadata.clone();
    m.encapsulated_public_key.pop();
    assert_eq!(keys.decrypt_blob(&m, &ciphertext).err(), Some(DecryptError::EncapsulatedKey));

    let mut m = metadata.clone();
    m.symmetric_key_associated_data_components =
        Some(SymmetricKeyAssociatedDataComponents::KmsSymmetricKeyAssociatedData(
            KmsAssociatedData { record_header: b"another header".to_vec() },
        ));
    assert_eq!(keys.decrypt_blob(&m, &ciphertext).err(), Some(DecryptError::NoKeyOpens));

    let mut m = metadata.clone();
    m.ciphertext_associated_data.push(0);
    assert_eq!(keys.decrypt_blob(&m, &ciphertext).err(), Some(DecryptError::Payload));

    assert_eq!(keys.decrypt_blob(&metadata, &ciphertext[1..]).err(), Some(DecryptError::Payload));

    let (encapsulated, sealed) = seal(b"not a key", &public, b"h");
    let mut m = metadata.clone();
    m.encapsulated_public_key = encapsulated;
    m.encrypted_symmetric_key = sealed;
    assert_eq!(
        keys.decrypt_blob(&m, &ciphertext).err(),
        Some(DecryptError::SymmetricKey(KeyError::NotCose))
    );

    assert_eq!(
        decrypt_payload(&symmetric_cose_key(&[1; 15]), &ciphertext, b"a").err(),
        Some(DecryptError::SymmetricKeyLength)
    );
}

#[test]
fn encrypted_write_is_opened_with_the_released_keys() {
    let (public, private) = gen_x25519();
    let (metadata, data) = client_encrypt_blob_full(b"secret", &public, b"h", b"a");
    let request = WriteRequest {
        first_request_metadata: Some(BlobMetadata {
            total_size_bytes: data.len() as i64,
            compression_type: 1,
            encryption_metadata: Some(EncryptionMetadata::HpkePlusAeadData(metadata)),
        }),
        first_request_configuration: None,
        commit: true,
        data,
    };
    let keys =
        TransformKeys::from_protected_response(&released(vec![private_cose_key(b"k", &private)]))
            .expect("keys");
    assert_eq!(plaintext_data(&request, &Some(keys)).expect("plaintext"), b"secret");

    let (_, other) = gen_x25519();
    let keys =
        TransformKeys::from_protected_response(&released(vec![private_cose_key(b"k", &other)]))
            .expect("keys");
    assert!(matches!(
        plaintext_data(&request, &Some(keys)),
        Err(TransformError::Decrypt(DecryptError::NoKeyOpens))
    ));
}

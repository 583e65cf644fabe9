//! The wire format, held against the protobuf crate.

use confined_wasm::commitment::commitment;
use confined_wasm::message;
use confined_wasm::order::{bytes_before, bytes_equal};
use confined_wasm::proto::attestation::{Any, Event, RawDigest};
use confined_wasm::proto::claim::{
    ComponentClaim, CompositionGraph, Preopen, WasiRuntimeGrant, WasmRuntimeInfo,
};
use confined_wasm::proto::config::{OrchestratorWorkloadConfig, WasmComponentRef};
use confined_wasm::proto::keys::ProtectedResponse;
use confined_wasm::wire::{parse_fields, WireValue};
use prost::encoding::{encode_key, encode_varint, WireType};
use prost::Message as _;
use sha2::{Digest, Sha256};

fn any() -> Any {
    Any { type_url: "type.googleapis.com/a.B".to_string(), value: vec![1, 2, 3] }
}

#[test]
fn any_is_encoded_as_the_protobuf_crate_does() {
    let theirs =
        prost_types::Any { type_url: "type.googleapis.com/a.B".to_string(), value: vec![1, 2, 3] };
    assert_eq!(message::encode(&any()), theirs.encode_to_vec());
    let empty = Any { type_url: String::new(), value: vec![] };
    assert_eq!(message::encode(&empty), Vec::<u8>::new());
}

#[test]
fn any_is_decoded_from_the_protobuf_crate() {
    let theirs = prost_types::Any { type_url: "x".repeat(300), value: vec![0; 1000] };
    let ours: Any = message::decode(&theirs.encode_to_vec(), 100).expect("decode");
    assert_eq!(ours.type_url, theirs.type_url);
    assert_eq!(ours.value, theirs.value);
}

#[test]
fn nested_message_is_framed_by_its_length() {
    let event = Event { tag: "t".to_string(), event: Some(any()) };
    let inner = message::encode(&any());
    let mut expected = vec![0x0a, 1, b't', 0x12, inner.len() as u8];
    expected.extend(&inner);
    assert_eq!(message::encode(&event), expected);
}

#[test]
fn repeated_byte_strings_are_kept_in_order() {
    let response = ProtectedResponse {
        decryption_keys: vec![b"one".to_vec(), vec![], b"two".to_vec()],
        result_encryption_keys: vec![b"three".to_vec()],
    };
    let mut expected: Vec<u8> = Vec::new();
    prost::encoding::bytes::encode_repeated(1, &response.decryption_keys, &mut expected);
    prost::encoding::bytes::encode_repeated(2, &response.result_encryption_keys, &mut expected);
    assert_eq!(message::encode(&response), expected);
    let back: ProtectedResponse = message::decode(&expected, 100).expect("decode");
    assert_eq!(back.decryption_keys, response.decryption_keys);
    assert_eq!(back.result_encryption_keys, response.result_encryption_keys);
}

#[test]
fn negative_enum_number_takes_ten_bytes() {
    let config = OrchestratorWorkloadConfig { workload_kind: -1, wasm: None };
    let mut expected: Vec<u8> = Vec::new();
    prost::encoding::int32::encode(1, &-1, &mut expected);
    assert_eq!(message::encode(&config), expected);
    assert_eq!(expected.len(), 11);
    let back: OrchestratorWorkloadConfig = message::decode(&expected, 100).expect("decode");
    assert_eq!(back.workload_kind, -1);
}

#[test]
fn unknown_fields_are_skipped() {
    let mut bytes = message::encode(&any());
    encode_key(9, WireType::Varint, &mut bytes);
    encode_varint(u64::MAX, &mut bytes);
    encode_key(10, WireType::SixtyFourBit, &mut bytes);
    bytes.extend([0; 8]);
    encode_key(11, WireType::ThirtyTwoBit, &mut bytes);
    bytes.extend([0; 4]);
    encode_key(12, WireType::StartGroup, &mut bytes);
    encode_key(13, WireType::Varint, &mut bytes);
    bytes.push(5);
    encode_key(12, WireType::EndGroup, &mut bytes);
    let ours: Any = message::decode(&bytes, 100).expect("decode");
    assert_eq!(ours.value, vec![1, 2, 3]);
    assert_eq!(prost_types::Any::decode(bytes.as_slice()).expect("decode").value, vec![1, 2, 3]);
}

#[test]
fn malformed_bytes_are_refused_by_both() {
    let cases: [&[u8]; 9] = [
        &[0x0a],
        &[0x0a, 5, b'x'],
        &[0x00, 0x00],
        &[0x0f, 0x00],
        &[0x08, 0x01],
        &[0x0a, 1, 0xff],
        &[0x4c],
        &[0x4b, 0x54],
        &[0xff, 0xff, 0xff, 0xff, 0xff, 0xff, 0xff, 0xff, 0xff, 0x02],
    ];
    for bytes in cases {
        assert!(message::decode::<Any>(bytes, 100).is_err(), "{bytes:?}");
        assert!(prost_types::Any::decode(bytes).is_err(), "{bytes:?}");
    }
}

#[test]
fn every_truncation_is_treated_as_the_protobuf_crate_treats_it() {
    let bytes = prost_types::Any { type_url: "ab".to_string(), value: vec![7; 130] }.encode_to_vec();
    for n in 0..=bytes.len() {
        let ours = message::decode::<Any>(&bytes[..n], 100);
        let theirs = prost_types::Any::decode(&bytes[..n]);
        assert_eq!(ours.is_ok(), theirs.is_ok(), "{n}");
    }
}

#[test]
fn last_value_of_a_field_counts_and_messages_merge() {
    let mut bytes: Vec<u8> = Vec::new();
    prost::encoding::string::encode(1, &"first".to_string(), &mut bytes);
    prost::encoding::string::encode(1, &"second".to_string(), &mut bytes);
    prost::encoding::bytes::encode(2, &vec![0x0a, 1, b'u'], &mut bytes);
    prost::encoding::bytes::encode(2, &vec![0x12, 1, 9], &mut bytes);
    let event: Event = message::decode(&bytes, 100).expect("decode");
    assert_eq!(event.tag, "second");
    let any = event.event.expect("payload");
    assert_eq!(any.type_url, "u");
    assert_eq!(any.value, vec![9]);
}

#[test]
fn groups_nest_no_deeper_than_the_limit() {
    let nested = |depth: usize| {
        let mut bytes = vec![0x4b; depth];
        bytes.extend(vec![0x4c; depth]);
        bytes
    };
    for depth in [1, 50, 99, 100, 101, 150] {
        let ours = message::decode::<Any>(&nested(depth), 100).is_ok();
        let theirs = prost_types::Any::decode(nested(depth).as_slice()).is_ok();
        assert_eq!(ours, theirs, "{depth}");
    }
    assert!(message::decode::<Any>(&nested(150), 100).is_err());
}

#[test]
fn fields_are_listed_in_order() {
    let fields = parse_fields(&[0x08, 0x96, 0x01, 0x12, 2, 4, 5], 100).expect("parse");
    assert_eq!(fields.len(), 2);
    assert_eq!(fields[0].tag, 1);
    assert!(matches!(fields[0].value, WireValue::Varint(150)));
    assert_eq!(fields[1].tag, 2);
    match &fields[1].value {
        WireValue::Bytes(b) => assert_eq!(b, &vec![4, 5]),
        other => panic!("unexpected: {other:?}"),
    }
}

#[test]
fn text_that_is_not_utf8_is_refused() {
    let bytes = [0x0a, 2, 0xc3, 0x28];
    assert!(message::decode::<WasmComponentRef>(&bytes, 100).is_err());
    let raw = RawDigest { sha2_256: vec![0xc3, 0x28] };
    let back: RawDigest = message::decode(&message::encode(&raw), 100).expect("decode");
    assert_eq!(back.sha2_256, vec![0xc3, 0x28]);
}

#[test]
fn byte_order_is_that_of_the_standard_library() {
    let samples: [&[u8]; 6] = [b"", b"a", b"ab", b"b", b"\xff", b"a\x00"];
    for a in samples {
        for b in samples {
            assert_eq!(bytes_before(a, b), a < b);
            assert_eq!(bytes_equal(a, b), a == b);
        }
    }
}

fn part(out: &mut Vec<u8>, bytes: &[u8]) {
    out.extend((bytes.len() as u64).to_le_bytes());
    out.extend(bytes);
}

#[test]
fn commitment_covers_the_whole_grant_in_canonical_order() {
    let components = vec![
        ComponentClaim { id: "b".to_string(), role: "rb".to_string(), digest: vec![2; 32], confidential: false },
        ComponentClaim { id: "a".to_string(), role: "ra".to_string(), digest: vec![1; 32], confidential: false },
    ];
    let graph = CompositionGraph { nodes: vec!["a".to_string(), "b".to_string()], edges: vec![] };
    let info = WasmRuntimeInfo {
        engine: "e".to_string(),
        engine_version: "v".to_string(),
        wasi_version: "w".to_string(),
        component_model: true,
        dynamic_loading: false,
    };
    let grant = WasiRuntimeGrant {
        preopens: vec![
            Preopen { guest_path: "/z".to_string(), dir_perms: 1, file_perms: 2 },
            Preopen { guest_path: "/a".to_string(), dir_perms: 3, file_perms: 4 },
        ],
        network: true,
        env_names: vec!["Z".to_string(), "A".to_string()],
        args: vec!["y".to_string(), "x".to_string()],
        stdin: 0,
        stdout: 1,
        stderr: 2,
        wall_clock: true,
        monotonic_clock: false,
        random: 1,
    };

    let mut expected: Vec<u8> = confined_wasm::commitment::COMMITMENT_TAG.as_bytes().to_vec();
    for (id, role, digest) in [("a", "ra", 1u8), ("b", "rb", 2u8)] {
        part(&mut expected, id.as_bytes());
        part(&mut expected, role.as_bytes());
        part(&mut expected, &[digest; 32]);
    }
    expected.extend(2u64.to_le_bytes());
    part(&mut expected, b"a");
    part(&mut expected, b"b");
    expected.extend(0u64.to_le_bytes());
    expected.extend(0u64.to_le_bytes());
    part(&mut expected, b"e");
    part(&mut expected, b"v");
    part(&mut expected, b"w");
    expected.push(1);
    expected.extend(2u64.to_le_bytes());
    for (path, dir, file) in [("/a", 3u32, 4u32), ("/z", 1u32, 2u32)] {
        part(&mut expected, path.as_bytes());
        expected.extend(dir.to_le_bytes());
        expected.extend(file.to_le_bytes());
    }
    expected.push(1);
    expected.extend(2u64.to_le_bytes());
    part(&mut expected, b"A");
    part(&mut expected, b"Z");
    expected.extend(2u64.to_le_bytes());
    part(&mut expected, b"y");
    part(&mut expected, b"x");
    expected.extend(0i32.to_le_bytes());
    expected.extend(1i32.to_le_bytes());
    expected.extend(2i32.to_le_bytes());
    expected.extend([1, 0]);
    expected.extend(1i32.to_le_bytes());

    let got = commitment(&components, &graph, &vec![], &info, Some(&grant));
    assert_eq!(got, Sha256::digest(&expected).to_vec());
    let without = commitment(&components, &graph, &vec![], &info, None);
    assert_ne!(got, without);
}

#[test]
fn commitments_with_different_component_counts_differ() {
    let component = |id: &str| ComponentClaim {
        id: id.to_string(),
        role: "r".to_string(),
        digest: vec![7; 32],
        confidential: false,
    };
    let graph = |nodes: &[&str]| CompositionGraph {
        nodes: nodes.iter().map(|n| n.to_string()).collect(),
        edges: vec![],
    };
    let info = WasmRuntimeInfo {
        engine: "e".to_string(),
        engine_version: "v".to_string(),
        wasi_version: "w".to_string(),
        component_model: true,
        dynamic_loading: false,
    };
    let one = commitment(&vec![component("a")], &graph(&["a"]), &vec![], &info, None);
    let two = commitment(
        &vec![component("a"), component("b")],
        &graph(&["a", "b"]),
        &vec![],
        &info,
        None,
    );
    let swapped = commitment(
        &vec![component("b"), component("a")],
        &graph(&["a", "b"]),
        &vec![],
        &info,
        None,
    );
    assert_ne!(one, two);
    assert_eq!(two, swapped);
}

use git_remote_ipgrv::digest::{link_digest, ObjectId};
use git_remote_ipgrv::error::{Error, HexError, MultihashError};
use git_remote_ipgrv::object::{encode, prepare_object_path, ObjectKind};

fn sample_id() -> ObjectId {
    ObjectId::from_hex("fa9372aa0123456789abcdef0123456789abcdef").unwrap()
}

#[test]
fn encode_blob_hello_is_exact() {
    assert_eq!(encode(ObjectKind::Blob, b"hello"), b"blob 5\0hello".to_vec());
}

#[test]
fn encode_writes_each_kind_word() {
    assert_eq!(encode(ObjectKind::Tree, b"ab"), b"tree 2\0ab".to_vec());
    assert_eq!(encode(ObjectKind::Commit, b"abc"), b"commit 3\0abc".to_vec());
    assert_eq!(encode(ObjectKind::Tag, b"a"), b"tag 1\0a".to_vec());
}

#[test]
fn encode_empty_payload_has_length_zero() {
    assert_eq!(encode(ObjectKind::Blob, b""), b"blob 0\0".to_vec());
}

#[test]
fn encode_writes_length_in_decimal() {
    let payload = vec![7u8; 1203];
    let mut expected = b"blob 1203\0".to_vec();
    expected.extend_from_slice(&payload);
    assert_eq!(encode(ObjectKind::Blob, &payload), expected);
    let ten = vec![0u8; 10];
    let mut expected = b"tree 10\0".to_vec();
    expected.extend_from_slice(&ten);
    assert_eq!(encode(ObjectKind::Tree, &ten), expected);
}

#[test]
fn encode_keeps_payload_bytes() {
    let payload = vec![0u8, 255, 10, 0, 32];
    let out = encode(ObjectKind::Blob, &payload);
    assert_eq!(&out[..7], b"blob 5\0");
    assert_eq!(&out[7..], &payload[..]);
}

#[test]
fn shard_path_splits_after_two_digits() {
    let path = prepare_object_path(&sample_id());
    assert_eq!(path.directory, "fa");
    assert_eq!(path.file, "9372aa0123456789abcdef0123456789abcdef");
    assert_eq!(path.relative(), "objects/fa/9372aa0123456789abcdef0123456789abcdef");
}

#[test]
fn shard_path_is_lowercase_for_uppercase_input() {
    let id = ObjectId::from_hex("FA9372AA0123456789ABCDEF0123456789ABCDEF").unwrap();
    assert_eq!(id, sample_id());
    assert_eq!(prepare_object_path(&id).directory, "fa");
}

#[test]
fn object_id_from_hex_decodes_digits() {
    let id = sample_id();
    assert_eq!(
        id.bytes,
        [
            0xfa, 0x93, 0x72, 0xaa, 0x01, 0x23, 0x45, 0x67, 0x89, 0xab, 0xcd, 0xef, 0x01, 0x23,
            0x45, 0x67, 0x89, 0xab, 0xcd, 0xef
        ]
    );
    assert_eq!(id.as_bytes(), &id.bytes[..]);
}

#[test]
fn object_id_to_hex_is_forty_lowercase_digits() {
    let id = ObjectId { bytes: [0xAB; 20] };
    assert_eq!(id.to_hex(), "abababababababababababababababababababab");
    let mixed = ObjectId::from_bytes(&[
        0x00, 0x0f, 0x10, 0xff, 0x9a, 1, 2, 3, 4, 5, 6, 7, 8, 9, 10, 11, 12, 13, 14, 15,
    ])
    .unwrap();
    assert_eq!(mixed.to_hex(), "000f10ff9a0102030405060708090a0b0c0d0e0f");
}

#[test]
fn object_id_hex_round_trip() {
    let id = sample_id();
    assert_eq!(ObjectId::from_hex(&id.to_hex()), Ok(id));
}

#[test]
fn object_id_from_hex_refuses_odd_length() {
    assert_eq!(ObjectId::from_hex("abc"), Err(Error::FromHexError(HexError::OddLength)));
}

#[test]
fn object_id_from_hex_reports_first_bad_digit() {
    assert_eq!(
        ObjectId::from_hex("fa93zz72"),
        Err(Error::FromHexError(HexError::InvalidHexCharacter { c: 'z', index: 4 }))
    );
}

#[test]
fn object_id_from_hex_refuses_odd_length_before_bad_digit() {
    assert_eq!(ObjectId::from_hex("zzz"), Err(Error::FromHexError(HexError::OddLength)));
}

#[test]
fn object_id_from_hex_refuses_other_lengths() {
    assert_eq!(ObjectId::from_hex(""), Err(Error::InvalidDigestLength(0)));
    assert_eq!(
        ObjectId::from_hex("fa9372aa0123456789abcdef0123456789abcd"),
        Err(Error::InvalidDigestLength(19))
    );
    assert_eq!(
        ObjectId::from_hex("fa9372aa0123456789abcdef0123456789abcdef00"),
        Err(Error::InvalidDigestLength(21))
    );
}

#[test]
fn object_id_from_bytes_needs_twenty_bytes() {
    assert_eq!(ObjectId::from_bytes(&[1u8; 20]), Ok(ObjectId { bytes: [1u8; 20] }));
    assert_eq!(ObjectId::from_bytes(&[1u8; 19]), Err(Error::InvalidDigestLength(19)));
    assert_eq!(ObjectId::from_bytes(&[1u8; 32]), Err(Error::InvalidDigestLength(32)));
    assert_eq!(ObjectId::from_bytes(&[]), Err(Error::InvalidDigestLength(0)));
}

#[test]
fn link_digest_strips_multihash_header() {
    let mut link = vec![0x11u8, 0x14];
    link.extend_from_slice(&[9u8; 20]);
    assert_eq!(link_digest(&link), Ok(vec![9u8; 20]));
}

#[test]
fn link_digest_accepts_other_known_functions() {
    let mut link = vec![0x12u8, 0x20];
    link.extend_from_slice(&[3u8; 32]);
    assert_eq!(link_digest(&link), Ok(vec![3u8; 32]));
}

#[test]
fn link_digest_refuses_unknown_code() {
    let mut link = vec![0x99u8, 0x14];
    link.extend_from_slice(&[9u8; 20]);
    assert_eq!(link_digest(&link), Err(Error::MultihashError(MultihashError::UnknownCode)));
}

#[test]
fn link_digest_refuses_wrong_length() {
    let mut link = vec![0x11u8, 0x14];
    link.extend_from_slice(&[9u8; 19]);
    assert_eq!(link_digest(&link), Err(Error::MultihashError(MultihashError::BadInputLength)));
    assert_eq!(link_digest(&[]), Err(Error::MultihashError(MultihashError::BadInputLength)));
}

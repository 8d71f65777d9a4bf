use modruntime::codec::{
    decode_id, decode_ids, decode_rows, decode_spawn_payload, encode_id, encode_ids, encode_rows,
    encode_spawn_payload, utf8_lossy, utf8_string, CodecError,
};

#[test]
fn ids_encode_to_lengths_and_bytes() {
    let ids = vec!["A".to_string(), "Bc".to_string()];
    assert_eq!(encode_ids(&ids), vec![2, 1, b'A', 2, b'B', b'c']);
}

#[test]
fn long_lengths_use_tagged_varints() {
    let id = "x".repeat(300);
    let b = encode_id(&id);
    assert_eq!(&b[..3], &[251, 0x2c, 0x01]);
    assert_eq!(b.len(), 303);
    assert_eq!(decode_id(&b), Ok(id));
}

#[test]
fn ids_round_trip() {
    let ids = vec!["Position".to_string(), "Velocité".to_string(), String::new()];
    assert_eq!(decode_ids(&encode_ids(&ids)), Ok(ids));
}

#[test]
fn id_round_trip() {
    let id = "GameClock".to_string();
    assert_eq!(decode_id(&encode_id(&id)), Ok(id));
}

#[test]
fn spawn_payload_round_trip() {
    let pairs = vec![("A".to_string(), vec![1, 2, 3]), ("B".to_string(), vec![])];
    let b = encode_spawn_payload(&pairs);
    assert_eq!(b, vec![2, 1, b'A', 3, 1, 2, 3, 1, b'B', 0]);
    assert_eq!(decode_spawn_payload(&b), Ok(pairs));
}

#[test]
fn rows_round_trip() {
    let rows = vec![vec![vec![7u8], vec![8, 9]], vec![]];
    let b = encode_rows(&rows);
    assert_eq!(b, vec![2, 2, 1, 7, 2, 8, 9, 0]);
    assert_eq!(decode_rows(&b), Ok(rows));
}

#[test]
fn codec_matches_bincode() {
    let ids = vec!["alpha".to_string(), "beta".to_string()];
    let direct = bincode::serde::encode_to_vec(&ids, bincode::config::standard()).unwrap();
    assert_eq!(encode_ids(&ids), direct);
}

#[test]
fn non_canonical_length_is_accepted() {
    assert_eq!(decode_ids(&[251, 1, 0, 1, b'Q']), Ok(vec!["Q".to_string()]));
}

#[test]
fn trailing_bytes_are_ignored() {
    assert_eq!(decode_id(&[1, b'z', 99, 98]), Ok("z".to_string()));
}

#[test]
fn truncated_payload_is_malformed() {
    assert_eq!(decode_ids(&[2, 1, b'A']), Err(CodecError::Malformed));
    assert_eq!(decode_id(&[]), Err(CodecError::Malformed));
    assert_eq!(decode_rows(&[1, 1, 5]), Err(CodecError::Malformed));
    assert_eq!(decode_spawn_payload(&[254]), Err(CodecError::Malformed));
}

#[test]
fn invalid_utf8_is_reported_with_its_position() {
    assert_eq!(decode_ids(&[2, 1, b'A', 1, 0xff]), Err(CodecError::InvalidUtf8(1)));
    assert_eq!(decode_spawn_payload(&[1, 1, 0xc0, 0]), Err(CodecError::InvalidUtf8(0)));
}

#[test]
fn utf8_helpers() {
    assert_eq!(utf8_string(vec![0xe2, 0x82, 0xac]), Some("€".to_string()));
    assert_eq!(utf8_string(vec![0xff]), None);
    assert_eq!(utf8_lossy(&[b'o', 0xff, b'k']), "o\u{fffd}k");
}

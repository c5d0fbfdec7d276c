use tmzgua::fingerprint::{artifact_name, fingerprint_of, fnv1a_64};
use tmzgua::snapshot::{encode_snapshot, parse_snapshot};

#[test]
fn fnv1a_known_vectors() {
    assert_eq!(fnv1a_64(b""), 0xcbf29ce484222325);
    assert_eq!(fnv1a_64(b"a"), 0xaf63dc4c8601ec8c);
    assert_eq!(fnv1a_64(b"foobar"), 0x85944171f73967e8);
    assert_eq!(fnv1a_64(b"hello there"), 0xe40b0e48dc8fb319);
}

#[test]
fn fingerprint_is_fnv_of_utf8() {
    assert_eq!(fingerprint_of("hello there"), 0xe40b0e48dc8fb319);
    assert_eq!(fingerprint_of(""), 0xcbf29ce484222325);
    assert_eq!(fingerprint_of("a"), fnv1a_64("a".as_bytes()));
    // multi-byte text hashes its UTF-8 bytes
    assert_eq!(fingerprint_of("héllo"), fnv1a_64("héllo".as_bytes()));
}

#[test]
fn fingerprint_is_stable_and_discriminates() {
    let a = fingerprint_of("hello there");
    let b = fingerprint_of("hello there");
    assert_eq!(a, b);
    assert_ne!(fingerprint_of("hello there"), fingerprint_of("hello thera"));
}

#[test]
fn artifact_name_is_sixteen_hex_digits() {
    assert_eq!(artifact_name(0xe40b0e48dc8fb319), b"e40b0e48dc8fb319".to_vec());
    assert_eq!(artifact_name(0), b"0000000000000000".to_vec());
    assert_eq!(artifact_name(u64::MAX), b"ffffffffffffffff".to_vec());
    assert_eq!(artifact_name(0xabcdef), b"0000000000abcdef".to_vec());
}

#[test]
fn encode_snapshot_canonical_forms() {
    assert_eq!(encode_snapshot(&vec![]), b"[]".to_vec());
    assert_eq!(encode_snapshot(&vec![0]), b"[\"0\"]".to_vec());
    assert_eq!(encode_snapshot(&vec![42]), b"[\"42\"]".to_vec());
    assert_eq!(
        encode_snapshot(&vec![1, 2, 3]),
        b"[\"1\",\"2\",\"3\"]".to_vec()
    );
    assert_eq!(
        encode_snapshot(&vec![u64::MAX]),
        b"[\"18446744073709551615\"]".to_vec()
    );
}

#[test]
fn parse_snapshot_round_trips() {
    for ids in [
        vec![],
        vec![0],
        vec![42],
        vec![1, 2, 3],
        vec![u64::MAX, 0, 7],
    ] {
        let bytes = encode_snapshot(&ids);
        let back = parse_snapshot(&bytes).unwrap_or_else(|_| panic!("round trip"));
        assert_eq!(back, ids);
    }
}

#[test]
fn parse_snapshot_accepts_both_id_forms() {
    assert_eq!(parse_snapshot(&b"[7]".to_vec()).unwrap_or_default(), vec![7]);
    assert_eq!(
        parse_snapshot(&b"[\"7\"]".to_vec()).unwrap_or_default(),
        vec![7]
    );
    assert_eq!(
        parse_snapshot(&b"[\"1\",\"2\"]".to_vec()).unwrap_or_default(),
        vec![1, 2]
    );
    assert_eq!(
        parse_snapshot(&b"[1,\"2\",3]".to_vec()).unwrap_or_default(),
        vec![1, 2, 3]
    );
    assert_eq!(
        parse_snapshot(&b"[18446744073709551615]".to_vec()).unwrap_or_default(),
        vec![u64::MAX]
    );
    assert_eq!(
        parse_snapshot(&b"[\"18446744073709551615\"]".to_vec()).unwrap_or_default(),
        vec![u64::MAX]
    );
    assert!(parse_snapshot(&b"[]".to_vec())
        .unwrap_or_else(|_| panic!("empty"))
        .is_empty());
}

#[test]
fn parse_snapshot_accepts_whitespace() {
    assert_eq!(
        parse_snapshot(&b"[1, 2]".to_vec()).unwrap_or_default(),
        vec![1, 2]
    );
    assert_eq!(
        parse_snapshot(&b" [ \"1\" ,\t2 ]\n".to_vec()).unwrap_or_default(),
        vec![1, 2]
    );
    assert_eq!(
        parse_snapshot(&b"[\n  \"42\"\n]".to_vec()).unwrap_or_default(),
        vec![42]
    );
    assert!(parse_snapshot(&b"[ ]".to_vec())
        .unwrap_or_else(|_| panic!("empty with space"))
        .is_empty());
}

#[test]
fn parse_snapshot_rejects_malformed_input() {
    for bad in [
        &b""[..],
        b"[",
        b"]",
        b"[1",
        b"1]",
        b"[1,]",
        b"[,1]",
        b"[1,,2]",
        b"[]x",
        b"[1]x",
        b"[a]",
        b"[-1]",
        b"{}",
        b"[1,2,]",
        b"[\"\"]",
        b"[\"12a\"]",
        b"[\"1]",
        b"[\"1\"2]",
        b"[1\"2\"]",
        b"[\"1\" \"2\"]",
        b"[1 2]",
    ] {
        assert!(parse_snapshot(&bad.to_vec()).is_err(), "accepted {:?}", bad);
    }
}

#[test]
fn parse_snapshot_rejects_overflow() {
    // one past the largest 64-bit value
    assert!(parse_snapshot(&b"[18446744073709551616]".to_vec()).is_err());
    assert!(parse_snapshot(&b"[\"18446744073709551616\"]".to_vec()).is_err());
    assert!(parse_snapshot(&b"[1,99999999999999999999999]".to_vec()).is_err());
}

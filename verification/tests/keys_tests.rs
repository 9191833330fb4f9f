use helix_db::keys::{
    adjacency_key, adjacency_value, id_key, index_key, out_edges_key, parse_adjacency_value,
    parse_edge_key, parse_vector_key, push_be, read_be, starts_with, vector_key,
};

#[test]
fn push_be_writes_most_significant_byte_first() {
    let mut out = vec![0xffu8];
    push_be(&mut out, 0x0102_0304, 4);
    assert_eq!(out, vec![0xff, 1, 2, 3, 4]);
}

#[test]
fn push_be_keeps_the_low_bytes_only() {
    let mut out = Vec::new();
    push_be(&mut out, 0x0a0b_0c0d, 2);
    assert_eq!(out, vec![0x0c, 0x0d]);
    let mut none = Vec::new();
    push_be(&mut none, 77, 0);
    assert!(none.is_empty());
}

#[test]
fn push_be_agrees_with_the_standard_encoding() {
    let value: u128 = 0x0011_2233_4455_6677_8899_aabb_ccdd_eeff;
    let mut out = Vec::new();
    push_be(&mut out, value, 16);
    assert_eq!(out, value.to_be_bytes().to_vec());
    let mut max = Vec::new();
    push_be(&mut max, u128::MAX, 16);
    assert_eq!(max, vec![0xff; 16]);
}

#[test]
fn read_be_reads_at_an_offset() {
    let bytes = [9u8, 9, 0, 0, 1, 2, 9];
    assert_eq!(read_be(&bytes, 2, 4), 0x0102);
    assert_eq!(read_be(&bytes, 0, 0), 0);
    assert_eq!(read_be(&u128::MAX.to_be_bytes(), 0, 16), u128::MAX);
}

#[test]
fn starts_with_tells_prefixes() {
    assert!(starts_with(b"v:abc", b"v:"));
    assert!(starts_with(b"v:", b"v:"));
    assert!(starts_with(b"abc", b""));
    assert!(!starts_with(b"v", b"v:"));
    assert!(!starts_with(b"w:abc", b"v:"));
}

#[test]
fn vector_key_is_prefix_id_level() {
    let key = vector_key(b"v:", 1, 2);
    let mut expected = b"v:".to_vec();
    expected.extend_from_slice(&1u128.to_be_bytes());
    expected.extend_from_slice(&2u64.to_be_bytes());
    assert_eq!(key, expected);
    assert_eq!(key.len(), 26);
}

#[test]
fn vector_key_round_trips() {
    let id: u128 = 0xdead_beef_0000_0000_0000_0000_0000_0001;
    let key = vector_key(b"v:", id, 7);
    assert_eq!(parse_vector_key(b"v:", &key), Some((id, 7)));
    let bare = vector_key(b"", u128::MAX, 0);
    assert_eq!(parse_vector_key(b"", &bare), Some((u128::MAX, 0)));
}

#[test]
fn vector_key_parse_ignores_what_follows() {
    let mut key = vector_key(b"v:", 5, 1);
    key.push(0xaa);
    assert_eq!(parse_vector_key(b"v:", &key), Some((5, 1)));
}

#[test]
fn vector_key_parse_rejects_short_and_foreign_keys() {
    let key = vector_key(b"v:", 5, 1);
    assert_eq!(parse_vector_key(b"v:", &key[..25]), None);
    assert_eq!(parse_vector_key(b"w:", &key), None);
    assert_eq!(parse_vector_key(b"v:", b"entry_point"), None);
    assert_eq!(parse_vector_key(b"v:", b""), None);
}

#[test]
fn out_edges_key_is_source_level_sink() {
    let key = out_edges_key(1, 2, Some(3));
    let mut expected = 1u128.to_be_bytes().to_vec();
    expected.extend_from_slice(&2u64.to_be_bytes());
    expected.extend_from_slice(&3u128.to_be_bytes());
    assert_eq!(key, expected);
    assert_eq!(key.len(), 40);
}

#[test]
fn out_edges_key_without_sink_is_the_shared_prefix() {
    let prefix = out_edges_key(1, 2, None);
    assert_eq!(prefix.len(), 24);
    let full = out_edges_key(1, 2, Some(3));
    assert_eq!(&full[..24], &prefix[..]);
}

#[test]
fn edge_key_round_trips() {
    let key = out_edges_key(u128::MAX, 9, Some(42));
    assert_eq!(parse_edge_key(&key), Some((u128::MAX, 9, 42)));
}

#[test]
fn edge_key_parse_wants_forty_bytes() {
    let key = out_edges_key(1, 2, Some(3));
    assert_eq!(parse_edge_key(&key[..39]), None);
    let mut long = key.clone();
    long.push(0);
    assert_eq!(parse_edge_key(&long), None);
    assert_eq!(parse_edge_key(&out_edges_key(1, 2, None)), None);
}

#[test]
fn keys_sort_as_their_components() {
    let mut keys = vec![
        out_edges_key(2, 0, Some(1)),
        out_edges_key(1, 1, Some(0)),
        out_edges_key(1, 0, Some(300)),
        out_edges_key(1, 0, Some(2)),
    ];
    keys.sort();
    let parsed: Vec<_> = keys.iter().map(|key| parse_edge_key(key).unwrap()).collect();
    assert_eq!(parsed, vec![(1, 0, 2), (1, 0, 300), (1, 1, 0), (2, 0, 1)]);
}

#[test]
fn id_key_is_sixteen_bytes() {
    assert_eq!(id_key(258), 258u128.to_be_bytes().to_vec());
}

#[test]
fn adjacency_key_is_node_then_label_hash() {
    let key = adjacency_key(7, &[0xaa, 0xbb, 0xcc, 0xdd]);
    let mut expected = 7u128.to_be_bytes().to_vec();
    expected.extend_from_slice(&[0xaa, 0xbb, 0xcc, 0xdd]);
    assert_eq!(key, expected);
    assert_eq!(key.len(), 20);
}

#[test]
fn adjacency_value_is_edge_then_other_end() {
    let value = adjacency_value(11, 12);
    let mut expected = 11u128.to_be_bytes().to_vec();
    expected.extend_from_slice(&12u128.to_be_bytes());
    assert_eq!(value, expected);
    assert_eq!(parse_adjacency_value(&value), Some((11, 12)));
    assert_eq!(parse_adjacency_value(&value[..31]), None);
}

#[test]
fn index_key_is_label_hash_then_value() {
    assert_eq!(index_key(&[1, 2, 3, 4], &[9, 8]), vec![1, 2, 3, 4, 9, 8]);
    assert_eq!(index_key(&[1, 2, 3, 4], &[]), vec![1, 2, 3, 4]);
}

#[test]
fn index_key_is_what_the_codec_writes_for_the_pair() {
    let hash = [0xde, 0xad, 0xbe, 0xef];
    let text = "alice".to_string();
    let encoded = bincode::serialize(&text).unwrap();
    assert_eq!(index_key(&hash, &encoded), bincode::serialize(&(hash, &text)).unwrap());
    let number: i64 = -42;
    let encoded = bincode::serialize(&number).unwrap();
    assert_eq!(index_key(&hash, &encoded), bincode::serialize(&(hash, number)).unwrap());
    let list = vec![1u16, 2, 3];
    let encoded = bincode::serialize(&list).unwrap();
    assert_eq!(index_key(&hash, &encoded), bincode::serialize(&(hash, &list)).unwrap());
}

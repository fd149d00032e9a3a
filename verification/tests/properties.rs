use trivium::{trivium_xor, BitOrder, PackOrder, Trivium};

fn hex(s: &str) -> Vec<u8> {
    (0..s.len())
        .step_by(2)
        .map(|i| u8::from_str_radix(&s[i..i + 2], 16).expect("hex byte"))
        .collect()
}

#[test]
fn length_is_preserved_including_empty() {
    let key = vec![9u8; 10];
    let iv = vec![7u8; 10];

    let empty = trivium_xor(key.clone(), iv.clone(), Vec::new(), None).unwrap();
    assert_eq!(empty.len(), 0);

    let data = vec![0x5au8; 37];
    let ct = trivium_xor(key, iv, data, None).unwrap();
    assert_eq!(ct.len(), 37);
}

#[test]
fn short_key_iv_equal_their_zero_padded_forms() {
    let data = b"padding equivalence".to_vec();

    let short = trivium_xor(vec![1, 2, 3], vec![4, 5], data.clone(), None).unwrap();
    let padded = trivium_xor(
        vec![1, 2, 3, 0, 0, 0, 0, 0, 0, 0],
        vec![4, 5, 0, 0, 0, 0, 0, 0, 0, 0],
        data,
        None,
    )
    .unwrap();

    assert_eq!(short, padded);
}

#[test]
fn long_key_iv_are_truncated_to_ten_bytes() {
    let data = b"truncation".to_vec();
    let key = vec![1, 2, 3, 4, 5, 6, 7, 8, 9, 10];
    let iv = vec![11, 12, 13, 14, 15, 16, 17, 18, 19, 20];
    let mut key_long = key.clone();
    key_long.extend_from_slice(&[0xaa, 0xbb]);
    let mut iv_long = iv.clone();
    iv_long.push(0xcc);

    let ct = trivium_xor(key, iv, data.clone(), None).unwrap();
    let ct_long = trivium_xor(key_long, iv_long, data, None).unwrap();

    assert_eq!(ct, ct_long);
}

#[test]
fn msb_and_lsb_loading_give_different_ciphertext() {
    let key = vec![1, 2, 3, 4, 5, 6, 7, 8, 9, 10];
    let iv = vec![10, 9, 8, 7, 6, 5, 4, 3, 2, 1];
    let data = b"hello".to_vec();

    let ct_msb = trivium_xor(key.clone(), iv.clone(), data.clone(), Some("msb".into())).unwrap();
    let ct_lsb = trivium_xor(key, iv, data, Some("lsb".into())).unwrap();

    assert_ne!(ct_msb, ct_lsb);
}

#[test]
fn two_instances_from_same_inputs_give_identical_keystreams() {
    let key = vec![0x42u8; 10];
    let iv = vec![0x17u8; 10];
    let zeros = vec![0u8; 64];

    // XORing zeros exposes the raw keystream bytes.
    let ks1 = Trivium::new(&key, &iv, BitOrder::Msb, PackOrder::Lsb).xor_bytes(&zeros);
    let ks2 = Trivium::new(&key, &iv, BitOrder::Msb, PackOrder::Lsb).xor_bytes(&zeros);

    assert_eq!(ks1, ks2);
}

#[test]
fn direct_constructor_roundtrip() {
    let key = vec![0u8; 10];
    let iv = vec![0u8; 10];
    let data = b"hello".to_vec();

    let ct = Trivium::new(&key, &iv, BitOrder::Lsb, PackOrder::Lsb).xor_bytes(&data);
    let pt = Trivium::new(&key, &iv, BitOrder::Lsb, PackOrder::Lsb).xor_bytes(&ct);

    assert_eq!(pt, data);
}

#[test]
fn token_spellings_and_case_are_accepted() {
    let key = vec![3u8; 10];
    let iv = vec![5u8; 10];
    let data = b"spellings".to_vec();

    let base_msb = trivium_xor(key.clone(), iv.clone(), data.clone(), None).unwrap();
    for tok in ["msb", "MSB", " msb ", "msb-first", "MSB_FIRST", "\tMsb-First\n"] {
        let ct = trivium_xor(key.clone(), iv.clone(), data.clone(), Some(tok.into())).unwrap();
        assert_eq!(ct, base_msb, "token {:?}", tok);
    }

    let base_lsb =
        trivium_xor(key.clone(), iv.clone(), data.clone(), Some("lsb".into())).unwrap();
    for tok in ["LSB", " lsb-first ", "Lsb_First"] {
        let ct = trivium_xor(key.clone(), iv.clone(), data.clone(), Some(tok.into())).unwrap();
        assert_eq!(ct, base_lsb, "token {:?}", tok);
    }
}

#[test]
fn invalid_token_fails_without_output() {
    let r = trivium_xor(vec![1u8; 10], vec![2u8; 10], b"data".to_vec(), Some("foo".into()));
    let msg = r.unwrap_err();
    assert_eq!(msg, "Unsupported bitOrder: foo (expected 'msb' or 'lsb')");
}

#[test]
fn invalid_token_message_names_the_trimmed_value() {
    let r = trivium_xor(vec![0u8; 10], vec![0u8; 10], Vec::new(), Some("  MSB first  ".into()));
    let msg = r.unwrap_err();
    assert_eq!(msg, "Unsupported bitOrder: MSB first (expected 'msb' or 'lsb')");

    let r = trivium_xor(vec![0u8; 10], vec![0u8; 10], Vec::new(), Some("   ".into()));
    let msg = r.unwrap_err();
    assert_eq!(msg, "Unsupported bitOrder:  (expected 'msb' or 'lsb')");
}

#[test]
fn known_vector_decrypts_back_to_hello() {
    let mut key = hex("00000010000000000000");
    key.reverse();
    let iv = hex("00000000000000000000");
    let ct = hex("9f804f6861");

    let pt = trivium_xor(key, iv, ct, Some("msb".into())).unwrap();
    assert_eq!(pt, b"hello".to_vec());
}

use trivium::trivium_xor;

fn hex_to_bytes(s: &str) -> Vec<u8> {
    let clean: String = s.chars().filter(|c| !c.is_whitespace()).collect();
    let clean = clean.trim_start_matches("0x").to_string();
    assert!(clean.len() % 2 == 0, "hex must have even length");
    (0..clean.len())
        .step_by(2)
        .map(|i| u8::from_str_radix(&clean[i..i + 2], 16).expect("hex byte"))
        .collect()
}

fn make_prng(seed: u32) -> impl FnMut() -> u32 {
    let mut x = seed;
    move || {
        x ^= x << 13;
        x ^= x >> 17;
        x ^= x << 5;
        x
    }
}

fn random_bytes(mut prng: impl FnMut() -> u32, len: usize) -> Vec<u8> {
    let mut out = vec![0u8; len];
    for b in &mut out {
        *b = (prng() & 0xff) as u8;
    }
    out
}

#[test]
fn xor_is_symmetric_msb() {
    let mut prng = make_prng(0x1234_5678);

    for _ in 0..64 {
        let key = random_bytes(&mut prng, 10);
        let iv = random_bytes(&mut prng, 10);
        let msg_len = (prng() as usize) % 512;
        let msg = random_bytes(&mut prng, msg_len);

        let ct =
            trivium_xor(key.clone(), iv.clone(), msg.clone(), Some("msb".into())).expect("encrypt");
        let pt = trivium_xor(key, iv, ct, Some("msb".into())).expect("decrypt");

        assert_eq!(pt, msg);
    }
}

#[test]
fn xor_is_symmetric_lsb() {
    let mut prng = make_prng(0x9e37_79b9);

    for _ in 0..64 {
        let key = random_bytes(&mut prng, 10);
        let iv = random_bytes(&mut prng, 10);
        let msg_len = (prng() as usize) % 512;
        let msg = random_bytes(&mut prng, msg_len);

        let ct =
            trivium_xor(key.clone(), iv.clone(), msg.clone(), Some("lsb".into())).expect("encrypt");
        let pt = trivium_xor(key, iv, ct, Some("lsb".into())).expect("decrypt");

        assert_eq!(pt, msg);
    }
}

#[test]
fn accepts_short_key_iv_by_padding_with_zeros() {
    let key = vec![1, 2, 3];
    let iv = vec![4, 5];
    let msg = b"hello".to_vec();

    let ct = trivium_xor(key.clone(), iv.clone(), msg.clone(), None).unwrap();
    let pt = trivium_xor(key, iv, ct, None).unwrap();

    assert_eq!(pt, msg);
}

#[test]
fn known_vector_hello_key_iv() {
    // Known-answer vector:
    // plaintext: "hello"
    // key (hex): 00000010000000000000, reversed at the byte level before use
    // iv  (hex): 00000000000000000000
    // expected ciphertext (hex): 9f804f6861
    let key = hex_to_bytes("00000010000000000000");
    let iv = hex_to_bytes("00000000000000000000");
    let msg = b"hello".to_vec();

    let expected = hex_to_bytes("9f804f6861");

    let mut key_reversed = key.clone();
    key_reversed.reverse();

    let ct = trivium_xor(key_reversed, iv, msg, Some("msb".into())).unwrap();
    assert_eq!(ct, expected);
}

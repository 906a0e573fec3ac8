use ascon::asconcore::{AuthenticationError, Core};
use ascon::params::{Parameters128, Parameters128A};
use ascon::words::{clear, pad};

#[test]
fn pad_0to7() {
    assert_eq!(pad(0), 0x8000000000000000);
    assert_eq!(pad(1), 0x80000000000000);
    assert_eq!(pad(2), 0x800000000000);
    assert_eq!(pad(3), 0x8000000000);
    assert_eq!(pad(4), 0x80000000);
    assert_eq!(pad(5), 0x800000);
    assert_eq!(pad(6), 0x8000);
    assert_eq!(pad(7), 0x80);
}

#[test]
fn clear_0to7() {
    assert_eq!(clear(0x0123456789abcdef, 1), 0x23456789abcdef);
    assert_eq!(clear(0x0123456789abcdef, 2), 0x456789abcdef);
    assert_eq!(clear(0x0123456789abcdef, 3), 0x6789abcdef);
    assert_eq!(clear(0x0123456789abcdef, 4), 0x89abcdef);
    assert_eq!(clear(0x0123456789abcdef, 5), 0xabcdef);
    assert_eq!(clear(0x0123456789abcdef, 6), 0xcdef);
    assert_eq!(clear(0x0123456789abcdef, 7), 0xef);
}

fn sample_key() -> [u8; 16] {
    let mut k = [0u8; 16];
    for i in 0..16 {
        k[i] = i as u8;
    }
    k
}

fn sample_nonce() -> [u8; 16] {
    let mut n = [0u8; 16];
    for i in 0..16 {
        n[i] = (0xa0 + i) as u8;
    }
    n
}

fn sample_bytes(len: usize, seed: u8) -> Vec<u8> {
    let mut v = Vec::new();
    let mut x = seed;
    for _ in 0..len {
        x = x.wrapping_mul(37).wrapping_add(11);
        v.push(x);
    }
    v
}

fn encrypt_128(key: &[u8; 16], nonce: &[u8; 16], ad: &[u8], pt: &[u8]) -> (Vec<u8>, [u8; 16]) {
    let mut buf = pt.to_vec();
    let mut core = Core::<Parameters128>::new(key, nonce);
    let tag = core.encrypt_inplace(&mut buf, ad);
    (buf, tag)
}

fn decrypt_128(
    key: &[u8; 16],
    nonce: &[u8; 16],
    ad: &[u8],
    ct: &[u8],
    tag: &[u8; 16],
) -> Result<Vec<u8>, AuthenticationError> {
    let mut buf = ct.to_vec();
    let mut core = Core::<Parameters128>::new(key, nonce);
    core.decrypt_inplace(&mut buf, ad, tag)?;
    Ok(buf)
}

fn encrypt_128a(key: &[u8; 16], nonce: &[u8; 16], ad: &[u8], pt: &[u8]) -> (Vec<u8>, [u8; 16]) {
    let mut buf = pt.to_vec();
    let mut core = Core::<Parameters128A>::new(key, nonce);
    let tag = core.encrypt_inplace(&mut buf, ad);
    (buf, tag)
}

fn decrypt_128a(
    key: &[u8; 16],
    nonce: &[u8; 16],
    ad: &[u8],
    ct: &[u8],
    tag: &[u8; 16],
) -> Result<Vec<u8>, AuthenticationError> {
    let mut buf = ct.to_vec();
    let mut core = Core::<Parameters128A>::new(key, nonce);
    core.decrypt_inplace(&mut buf, ad, tag)?;
    Ok(buf)
}

#[test]
fn round_trip_rate8_many_lengths() {
    let key = sample_key();
    let nonce = sample_nonce();
    for pt_len in [0usize, 1, 2, 7, 8, 9, 15, 16, 17, 23, 24, 31, 40] {
        for ad_len in [0usize, 1, 7, 8, 9, 16, 21] {
            let pt = sample_bytes(pt_len, 3);
            let ad = sample_bytes(ad_len, 5);
            let (ct, tag) = encrypt_128(&key, &nonce, &ad, &pt);
            assert_eq!(ct.len(), pt.len());
            let back = decrypt_128(&key, &nonce, &ad, &ct, &tag).expect("tag must verify");
            assert_eq!(back, pt);
        }
    }
}

#[test]
fn round_trip_rate16_many_lengths() {
    let key = sample_key();
    let nonce = sample_nonce();
    for pt_len in [0usize, 1, 7, 8, 9, 15, 16, 17, 24, 31, 32, 33, 47] {
        for ad_len in [0usize, 1, 7, 8, 9, 15, 16, 17, 33] {
            let pt = sample_bytes(pt_len, 7);
            let ad = sample_bytes(ad_len, 9);
            let (ct, tag) = encrypt_128a(&key, &nonce, &ad, &pt);
            assert_eq!(ct.len(), pt.len());
            let back = decrypt_128a(&key, &nonce, &ad, &ct, &tag).expect("tag must verify");
            assert_eq!(back, pt);
        }
    }
}

#[test]
fn empty_inputs_round_trip_both_variants() {
    let key = sample_key();
    let nonce = sample_nonce();
    let (ct8, tag8) = encrypt_128(&key, &nonce, &[], &[]);
    assert!(ct8.is_empty());
    assert_eq!(decrypt_128(&key, &nonce, &[], &ct8, &tag8).unwrap(), Vec::<u8>::new());
    let (ct16, tag16) = encrypt_128a(&key, &nonce, &[], &[]);
    assert!(ct16.is_empty());
    assert_eq!(decrypt_128a(&key, &nonce, &[], &ct16, &tag16).unwrap(), Vec::<u8>::new());
    // the two variants are distinct ciphers: same inputs, different tags
    assert_ne!(tag8, tag16);
}

#[test]
fn encryption_is_deterministic() {
    let key = sample_key();
    let nonce = sample_nonce();
    let pt = sample_bytes(20, 13);
    let ad = sample_bytes(5, 17);
    let (ct1, tag1) = encrypt_128(&key, &nonce, &ad, &pt);
    let (ct2, tag2) = encrypt_128(&key, &nonce, &ad, &pt);
    assert_eq!(ct1, ct2);
    assert_eq!(tag1, tag2);
    // the ciphertext is not the plaintext handed back unchanged
    assert_ne!(ct1, pt);
}

#[test]
fn tamper_ciphertext_fails_rate8() {
    let key = sample_key();
    let nonce = sample_nonce();
    let pt = sample_bytes(19, 23);
    let ad = sample_bytes(9, 29);
    let (ct, tag) = encrypt_128(&key, &nonce, &ad, &pt);
    for byte in 0..ct.len() {
        for bit in [0u8, 3, 7] {
            let mut bad = ct.clone();
            bad[byte] ^= 1 << bit;
            assert_eq!(
                decrypt_128(&key, &nonce, &ad, &bad, &tag),
                Err(AuthenticationError)
            );
        }
    }
}

#[test]
fn tamper_tag_fails_every_bit_rate8() {
    let key = sample_key();
    let nonce = sample_nonce();
    let pt = sample_bytes(8, 31);
    let ad = sample_bytes(3, 37);
    let (ct, tag) = encrypt_128(&key, &nonce, &ad, &pt);
    for byte in 0..16 {
        for bit in 0..8 {
            let mut bad = tag;
            bad[byte] ^= 1 << bit;
            assert!(decrypt_128(&key, &nonce, &ad, &ct, &bad).is_err());
        }
    }
}

#[test]
fn tamper_associated_data_key_nonce_fails_rate16() {
    let key = sample_key();
    let nonce = sample_nonce();
    let pt = sample_bytes(25, 41);
    let ad = sample_bytes(17, 43);
    let (ct, tag) = encrypt_128a(&key, &nonce, &ad, &pt);
    for byte in 0..ad.len() {
        let mut bad = ad.clone();
        bad[byte] ^= 0x10;
        assert!(decrypt_128a(&key, &nonce, &bad, &ct, &tag).is_err());
    }
    for byte in 0..16 {
        let mut bad_key = key;
        bad_key[byte] ^= 0x01;
        assert!(decrypt_128a(&bad_key, &nonce, &ad, &ct, &tag).is_err());
        let mut bad_nonce = nonce;
        bad_nonce[byte] ^= 0x80;
        assert!(decrypt_128a(&key, &bad_nonce, &ad, &ct, &tag).is_err());
    }
}

#[test]
fn failed_decrypt_overwrites_buffer_with_candidate() {
    let key = sample_key();
    let nonce = sample_nonce();
    let pt = sample_bytes(12, 47);
    let (ct, tag) = encrypt_128(&key, &nonce, &[], &pt);
    let mut bad_tag = tag;
    bad_tag[0] ^= 0x01;
    let mut buf = ct.clone();
    let mut core = Core::<Parameters128>::new(&key, &nonce);
    let r = core.decrypt_inplace(&mut buf, &[], &bad_tag);
    assert_eq!(r, Err(AuthenticationError));
    // the candidate plaintext was produced before verification failed
    assert_eq!(buf, pt);
}

#[test]
fn domain_separation_applies_with_empty_associated_data() {
    // an empty associated-data string and a one-zero-byte one must differ:
    // padding and the domain-separation bit keep them apart
    let key = sample_key();
    let nonce = sample_nonce();
    let pt = sample_bytes(10, 53);
    let (_, tag_empty) = encrypt_128(&key, &nonce, &[], &pt);
    let (_, tag_zero) = encrypt_128(&key, &nonce, &[0u8], &pt);
    assert_ne!(tag_empty, tag_zero);
}

#[test]
fn published_answer_rate8_empty_inputs() {
    // the known answer for the rate-8 variant on the 00..0f key and nonce
    // with empty plaintext and associated data
    let mut key = [0u8; 16];
    let mut nonce = [0u8; 16];
    for i in 0..16 {
        key[i] = i as u8;
        nonce[i] = i as u8;
    }
    let (ct, tag) = encrypt_128(&key, &nonce, &[], &[]);
    assert!(ct.is_empty());
    let expected: [u8; 16] = [
        0xe3, 0x55, 0x15, 0x9f, 0x29, 0x29, 0x11, 0xf7, 0x94, 0xcb, 0x14, 0x32, 0xa0, 0x10,
        0x3a, 0x8a,
    ];
    assert_eq!(tag, expected);
}

#[test]
fn published_answer_rate16_empty_inputs() {
    // the known answer for the rate-16 variant on the 00..0f key and nonce
    // with empty plaintext and associated data
    let mut key = [0u8; 16];
    let mut nonce = [0u8; 16];
    for i in 0..16 {
        key[i] = i as u8;
        nonce[i] = i as u8;
    }
    let (ct, tag) = encrypt_128a(&key, &nonce, &[], &[]);
    assert!(ct.is_empty());
    let expected: [u8; 16] = [
        0x7a, 0x83, 0x4e, 0x6f, 0x09, 0x21, 0x09, 0x57, 0x06, 0x7b, 0x10, 0xfd, 0x83, 0x1f,
        0x00, 0x78,
    ];
    assert_eq!(tag, expected);
}

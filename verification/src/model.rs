//! The cipher as a mathematical function of byte sequences.
//!
//! These spec functions say what construction, associated-data absorption,
//! message processing, finalization and tag derivation compute.  The exec
//! code in `asconcore` is verified against them, and the round-trip law in
//! `laws` is proved about them.

use crate::state::{spec_permute_12, spec_permute_rate, Words};
use crate::words::{be_word, clear_spec, high_bytes, pad_spec};
use vstd::prelude::*;

verus! {

/// State after construction from a 16-byte key and a 16-byte nonce:
/// `[iv, k1, k2, n1, n2]` run through the 12-round permutation, then the
/// key XORed into the last two words.
pub open spec fn spec_init(iv: u64, key: Seq<u8>, nonce: Seq<u8>) -> Words
    recommends
        key.len() == 16,
        nonce.len() == 16,
{
    let k1 = be_word(key.subrange(0, 8));
    let k2 = be_word(key.subrange(8, 16));
    let n1 = be_word(nonce.subrange(0, 8));
    let n2 = be_word(nonce.subrange(8, 16));
    let w = spec_permute_12(Words { x0: iv, x1: k1, x2: k2, x3: n1, x4: n2 });
    Words { x0: w.x0, x1: w.x1, x2: w.x2, x3: w.x3 ^ k1, x4: w.x4 ^ k2 }
}

/// A partial final block of fewer than 8 bytes XORed into a rate word,
/// together with its padding.
pub open spec fn tail_word(x: u64, t: Seq<u8>) -> u64
    recommends
        t.len() < 8,
{
    (x ^ pad_spec(t.len() as int)) ^ be_word(t)
}

/// Absorption of non-empty associated data: full blocks, then the partial
/// final block with padding, each followed by the intermediate permutation.
pub open spec fn spec_absorb(w: Words, ad: Seq<u8>, rate: u64) -> Words
    recommends
        rate == 8 || rate == 16,
    decreases ad.len(),
{
    if (rate == 8 && ad.len() >= 8) || (rate == 16 && ad.len() >= 16) {
        let w1 = if rate == 8 {
            Words { x0: w.x0 ^ be_word(ad.subrange(0, 8)), x1: w.x1, x2: w.x2, x3: w.x3, x4: w.x4 }
        } else {
            Words {
                x0: w.x0 ^ be_word(ad.subrange(0, 8)),
                x1: w.x1 ^ be_word(ad.subrange(8, 16)),
                x2: w.x2,
                x3: w.x3,
                x4: w.x4,
            }
        };
        spec_absorb(spec_permute_rate(w1, rate), ad.skip(rate as int), rate)
    } else {
        let w1 = if rate == 16 && ad.len() >= 8 {
            Words {
                x0: w.x0 ^ be_word(ad.subrange(0, 8)),
                x1: tail_word(w.x1, ad.skip(8)),
                x2: w.x2,
                x3: w.x3,
                x4: w.x4,
            }
        } else {
            Words { x0: tail_word(w.x0, ad), x1: w.x1, x2: w.x2, x3: w.x3, x4: w.x4 }
        };
        spec_permute_rate(w1, rate)
    }
}

/// Associated-data processing: absorption when the data is non-empty, and
/// the domain-separation bit in every case, empty data included.
pub open spec fn spec_process_ad(w: Words, ad: Seq<u8>, rate: u64) -> Words
    recommends
        rate == 8 || rate == 16,
{
    let w1 = if ad.len() == 0 {
        w
    } else {
        spec_absorb(w, ad, rate)
    };
    Words { x0: w1.x0, x1: w1.x1, x2: w1.x2, x3: w1.x3, x4: w1.x4 ^ 1 }
}

/// Encryption of the message: the state after processing and the
/// ciphertext, which has the message's length.  Full blocks are XORed into
/// the rate words and the result emitted and kept as the new rate words;
/// the partial final block is padded and emitted without a permutation.
pub open spec fn spec_enc(w: Words, m: Seq<u8>, rate: u64) -> (Words, Seq<u8>)
    recommends
        rate == 8 || rate == 16,
    decreases m.len(),
{
    if (rate == 8 && m.len() >= 8) || (rate == 16 && m.len() >= 16) {
        if rate == 8 {
            let c0 = w.x0 ^ be_word(m.subrange(0, 8));
            let w1 = spec_permute_rate(
                Words { x0: c0, x1: w.x1, x2: w.x2, x3: w.x3, x4: w.x4 },
                rate,
            );
            let r = spec_enc(w1, m.skip(8), rate);
            (r.0, high_bytes(c0, 8) + r.1)
        } else {
            let c0 = w.x0 ^ be_word(m.subrange(0, 8));
            let c1 = w.x1 ^ be_word(m.subrange(8, 16));
            let w1 = spec_permute_rate(
                Words { x0: c0, x1: c1, x2: w.x2, x3: w.x3, x4: w.x4 },
                rate,
            );
            let r = spec_enc(w1, m.skip(16), rate);
            (r.0, high_bytes(c0, 8) + (high_bytes(c1, 8) + r.1))
        }
    } else if rate == 16 && m.len() >= 8 {
        let c0 = w.x0 ^ be_word(m.subrange(0, 8));
        let e = tail_word(w.x1, m.skip(8));
        (
            Words { x0: c0, x1: e, x2: w.x2, x3: w.x3, x4: w.x4 },
            high_bytes(c0, 8) + high_bytes(e, m.len() - 8),
        )
    } else {
        let e = tail_word(w.x0, m);
        (
            Words { x0: e, x1: w.x1, x2: w.x2, x3: w.x3, x4: w.x4 },
            high_bytes(e, m.len() as int),
        )
    }
}

/// Decryption of a partial final ciphertext block on one rate word: the
/// word after processing and the recovered plaintext bytes.  The word is
/// cleared and refilled with the ciphertext bytes, so that it holds what
/// encryption of the recovered plaintext would have left.
pub open spec fn dec_tail(x: u64, c: Seq<u8>) -> (u64, Seq<u8>)
    recommends
        c.len() < 8,
{
    let n = c.len() as int;
    let y = (x ^ pad_spec(n)) ^ be_word(c);
    let xr = if n == 0 {
        y
    } else {
        clear_spec(y, n) ^ be_word(c)
    };
    (xr, high_bytes(y, n))
}

/// Decryption of the ciphertext: the state after processing and the
/// recovered plaintext, which has the ciphertext's length.  After a full
/// block the rate words become the ciphertext words.
pub open spec fn spec_dec(w: Words, c: Seq<u8>, rate: u64) -> (Words, Seq<u8>)
    recommends
        rate == 8 || rate == 16,
    decreases c.len(),
{
    if (rate == 8 && c.len() >= 8) || (rate == 16 && c.len() >= 16) {
        if rate == 8 {
            let cw = be_word(c.subrange(0, 8));
            let p0 = high_bytes(w.x0 ^ cw, 8);
            let w1 = spec_permute_rate(
                Words { x0: cw, x1: w.x1, x2: w.x2, x3: w.x3, x4: w.x4 },
                rate,
            );
            let r = spec_dec(w1, c.skip(8), rate);
            (r.0, p0 + r.1)
        } else {
            let cw0 = be_word(c.subrange(0, 8));
            let cw1 = be_word(c.subrange(8, 16));
            let p0 = high_bytes(w.x0 ^ cw0, 8);
            let p1 = high_bytes(w.x1 ^ cw1, 8);
            let w1 = spec_permute_rate(
                Words { x0: cw0, x1: cw1, x2: w.x2, x3: w.x3, x4: w.x4 },
                rate,
            );
            let r = spec_dec(w1, c.skip(16), rate);
            (r.0, p0 + (p1 + r.1))
        }
    } else if rate == 16 && c.len() >= 8 {
        let cw = be_word(c.subrange(0, 8));
        let p0 = high_bytes(w.x0 ^ cw, 8);
        let t = dec_tail(w.x1, c.skip(8));
        (Words { x0: cw, x1: t.0, x2: w.x2, x3: w.x3, x4: w.x4 }, p0 + t.1)
    } else {
        let t = dec_tail(w.x0, c);
        (Words { x0: t.0, x1: w.x1, x2: w.x2, x3: w.x3, x4: w.x4 }, t.1)
    }
}

/// Finalization: the key XORed into the words right after the rate, the
/// 12-round permutation, and the key XORed into the last two words.
pub open spec fn spec_final(w: Words, k1: u64, k2: u64, rate: u64) -> Words
    recommends
        rate == 8 || rate == 16,
{
    let w1 = if rate == 8 {
        Words { x0: w.x0, x1: w.x1 ^ k1, x2: w.x2 ^ k2, x3: w.x3, x4: w.x4 }
    } else {
        Words { x0: w.x0, x1: w.x1, x2: w.x2 ^ k1, x3: w.x3 ^ k2, x4: w.x4 }
    };
    let w2 = spec_permute_12(w1);
    Words { x0: w2.x0, x1: w2.x1, x2: w2.x2, x3: w2.x3 ^ k1, x4: w2.x4 ^ k2 }
}

/// The 16-byte tag: the last two state words, big-endian.
pub open spec fn spec_tag(w: Words) -> Seq<u8> {
    high_bytes(w.x3, 8) + high_bytes(w.x4, 8)
}

/// One whole encryption on a constructed core: ciphertext and tag.
pub open spec fn spec_core_encrypt(
    w: Words,
    k1: u64,
    k2: u64,
    rate: u64,
    ad: Seq<u8>,
    m: Seq<u8>,
) -> (Seq<u8>, Seq<u8>)
    recommends
        rate == 8 || rate == 16,
{
    let wa = spec_process_ad(w, ad, rate);
    let r = spec_enc(wa, m, rate);
    (r.1, spec_tag(spec_final(r.0, k1, k2, rate)))
}

/// One whole decryption on a constructed core: candidate plaintext and the
/// recomputed tag that verification compares with the expected one.
pub open spec fn spec_core_decrypt(
    w: Words,
    k1: u64,
    k2: u64,
    rate: u64,
    ad: Seq<u8>,
    c: Seq<u8>,
) -> (Seq<u8>, Seq<u8>)
    recommends
        rate == 8 || rate == 16,
{
    let wa = spec_process_ad(w, ad, rate);
    let r = spec_dec(wa, c, rate);
    (r.1, spec_tag(spec_final(r.0, k1, k2, rate)))
}

/// One whole encryption from key and nonce: ciphertext and tag.
pub open spec fn spec_encrypt_op(
    iv: u64,
    rate: u64,
    key: Seq<u8>,
    nonce: Seq<u8>,
    ad: Seq<u8>,
    m: Seq<u8>,
) -> (Seq<u8>, Seq<u8>)
    recommends
        rate == 8 || rate == 16,
        key.len() == 16,
        nonce.len() == 16,
{
    spec_core_encrypt(
        spec_init(iv, key, nonce),
        be_word(key.subrange(0, 8)),
        be_word(key.subrange(8, 16)),
        rate,
        ad,
        m,
    )
}

/// One whole decryption from key and nonce: candidate plaintext and the
/// recomputed tag.
pub open spec fn spec_decrypt_op(
    iv: u64,
    rate: u64,
    key: Seq<u8>,
    nonce: Seq<u8>,
    ad: Seq<u8>,
    c: Seq<u8>,
) -> (Seq<u8>, Seq<u8>)
    recommends
        rate == 8 || rate == 16,
        key.len() == 16,
        nonce.len() == 16,
{
    spec_core_decrypt(
        spec_init(iv, key, nonce),
        be_word(key.subrange(0, 8)),
        be_word(key.subrange(8, 16)),
        rate,
        ad,
        c,
    )
}

} // verus!

//! The laws of the cipher: decryption inverts encryption.
//!
//! The main statement is the round trip: on any state, rate, associated
//! data and plaintext, decrypting the ciphertext that encryption produced
//! recovers the plaintext, leaves the same state, and so recomputes the
//! same tag.

use crate::model::{
    dec_tail, spec_core_decrypt, spec_core_encrypt, spec_dec, spec_decrypt_op, spec_enc,
    spec_encrypt_op, spec_init, spec_process_ad, tail_word,
};
use crate::params::{Parameters, Parameters128, Parameters128A};
use crate::state::{spec_permute_rate, Words};
use crate::words::{
    be_word, high_bytes, high_mask, lemma_be_word_low_zero, lemma_be_word_of_high_bytes,
    lemma_bit_basics, lemma_high_bytes_of_be_word, low_mask, pad_spec,
};
use vstd::prelude::*;

verus! {

/// Bit-level facts behind the round trip of a padded partial final block,
/// one case per data length `nn`: with `cw` the top `nn` bytes of the word
/// encryption leaves, clearing the decryption word and XORing the
/// ciphertext back restores encryption's word, and the decryption word's
/// top `nn` bytes are the plaintext bytes.
proof fn bv_tail(x: u64, p: u64, mw: u64, cw: u64, nn: u64)
    by (bit_vector)
    requires
        1 <= nn <= 7,
        nn == 1 ==> p == 0x0080000000000000u64 && (mw & 0x00FFFFFFFFFFFFFFu64) == 0u64 && cw == (((x ^ p) ^ mw) & 0xFF00000000000000u64),
        nn == 2 ==> p == 0x0000800000000000u64 && (mw & 0x0000FFFFFFFFFFFFu64) == 0u64 && cw == (((x ^ p) ^ mw) & 0xFFFF000000000000u64),
        nn == 3 ==> p == 0x0000008000000000u64 && (mw & 0x000000FFFFFFFFFFu64) == 0u64 && cw == (((x ^ p) ^ mw) & 0xFFFFFF0000000000u64),
        nn == 4 ==> p == 0x0000000080000000u64 && (mw & 0x00000000FFFFFFFFu64) == 0u64 && cw == (((x ^ p) ^ mw) & 0xFFFFFFFF00000000u64),
        nn == 5 ==> p == 0x0000000000800000u64 && (mw & 0x0000000000FFFFFFu64) == 0u64 && cw == (((x ^ p) ^ mw) & 0xFFFFFFFFFF000000u64),
        nn == 6 ==> p == 0x0000000000008000u64 && (mw & 0x000000000000FFFFu64) == 0u64 && cw == (((x ^ p) ^ mw) & 0xFFFFFFFFFFFF0000u64),
        nn == 7 ==> p == 0x0000000000000080u64 && (mw & 0x00000000000000FFu64) == 0u64 && cw == (((x ^ p) ^ mw) & 0xFFFFFFFFFFFFFF00u64),
    ensures
        nn == 1 ==> ((((x ^ p) ^ cw) & 0x00FFFFFFFFFFFFFFu64) ^ cw) == ((x ^ p) ^ mw) && ((((x ^ p) ^ cw) >> 56u64) as u8) == ((mw >> 56u64) as u8),
        nn == 2 ==> ((((x ^ p) ^ cw) & 0x0000FFFFFFFFFFFFu64) ^ cw) == ((x ^ p) ^ mw) && ((((x ^ p) ^ cw) >> 56u64) as u8) == ((mw >> 56u64) as u8) && ((((x ^ p) ^ cw) >> 48u64) as u8) == ((mw >> 48u64) as u8),
        nn == 3 ==> ((((x ^ p) ^ cw) & 0x000000FFFFFFFFFFu64) ^ cw) == ((x ^ p) ^ mw) && ((((x ^ p) ^ cw) >> 56u64) as u8) == ((mw >> 56u64) as u8) && ((((x ^ p) ^ cw) >> 48u64) as u8) == ((mw >> 48u64) as u8) && ((((x ^ p) ^ cw) >> 40u64) as u8) == ((mw >> 40u64) as u8),
        nn == 4 ==> ((((x ^ p) ^ cw) & 0x00000000FFFFFFFFu64) ^ cw) == ((x ^ p) ^ mw) && ((((x ^ p) ^ cw) >> 56u64) as u8) == ((mw >> 56u64) as u8) && ((((x ^ p) ^ cw) >> 48u64) as u8) == ((mw >> 48u64) as u8) && ((((x ^ p) ^ cw) >> 40u64) as u8) == ((mw >> 40u64) as u8) && ((((x ^ p) ^ cw) >> 32u64) as u8) == ((mw >> 32u64) as u8),
        nn == 5 ==> ((((x ^ p) ^ cw) & 0x0000000000FFFFFFu64) ^ cw) == ((x ^ p) ^ mw) && ((((x ^ p) ^ cw) >> 56u64) as u8) == ((mw >> 56u64) as u8) && ((((x ^ p) ^ cw) >> 48u64) as u8) == ((mw >> 48u64) as u8) && ((((x ^ p) ^ cw) >> 40u64) as u8) == ((mw >> 40u64) as u8) && ((((x ^ p) ^ cw) >> 32u64) as u8) == ((mw >> 32u64) as u8) && ((((x ^ p) ^ cw) >> 24u64) as u8) == ((mw >> 24u64) as u8),
        nn == 6 ==> ((((x ^ p) ^ cw) & 0x000000000000FFFFu64) ^ cw) == ((x ^ p) ^ mw) && ((((x ^ p) ^ cw) >> 56u64) as u8) == ((mw >> 56u64) as u8) && ((((x ^ p) ^ cw) >> 48u64) as u8) == ((mw >> 48u64) as u8) && ((((x ^ p) ^ cw) >> 40u64) as u8) == ((mw >> 40u64) as u8) && ((((x ^ p) ^ cw) >> 32u64) as u8) == ((mw >> 32u64) as u8) && ((((x ^ p) ^ cw) >> 24u64) as u8) == ((mw >> 24u64) as u8) && ((((x ^ p) ^ cw) >> 16u64) as u8) == ((mw >> 16u64) as u8),
        nn == 7 ==> ((((x ^ p) ^ cw) & 0x00000000000000FFu64) ^ cw) == ((x ^ p) ^ mw) && ((((x ^ p) ^ cw) >> 56u64) as u8) == ((mw >> 56u64) as u8) && ((((x ^ p) ^ cw) >> 48u64) as u8) == ((mw >> 48u64) as u8) && ((((x ^ p) ^ cw) >> 40u64) as u8) == ((mw >> 40u64) as u8) && ((((x ^ p) ^ cw) >> 32u64) as u8) == ((mw >> 32u64) as u8) && ((((x ^ p) ^ cw) >> 24u64) as u8) == ((mw >> 24u64) as u8) && ((((x ^ p) ^ cw) >> 16u64) as u8) == ((mw >> 16u64) as u8) && ((((x ^ p) ^ cw) >> 8u64) as u8) == ((mw >> 8u64) as u8),
{
}

/// The ciphertext has the message's length.
pub proof fn lemma_enc_len(w: Words, m: Seq<u8>, rate: u64)
    requires
        rate == 8 || rate == 16,
    ensures
        spec_enc(w, m, rate).1.len() == m.len(),
    decreases m.len(),
{
    if (rate == 8 && m.len() >= 8) || (rate == 16 && m.len() >= 16) {
        if rate == 8 {
            let w1 = spec_permute_rate(
                Words {
                    x0: w.x0 ^ be_word(m.subrange(0, 8)),
                    x1: w.x1,
                    x2: w.x2,
                    x3: w.x3,
                    x4: w.x4,
                },
                rate,
            );
            lemma_enc_len(w1, m.skip(8), rate);
        } else {
            let w1 = spec_permute_rate(
                Words {
                    x0: w.x0 ^ be_word(m.subrange(0, 8)),
                    x1: w.x1 ^ be_word(m.subrange(8, 16)),
                    x2: w.x2,
                    x3: w.x3,
                    x4: w.x4,
                },
                rate,
            );
            lemma_enc_len(w1, m.skip(16), rate);
        }
    }
}

/// Decrypting the padded partial final block that encryption emitted
/// recovers the plaintext bytes and leaves the rate word encryption left.
proof fn lemma_dec_tail_inverts(x: u64, m: Seq<u8>)
    requires
        m.len() < 8,
    ensures
        dec_tail(x, high_bytes(tail_word(x, m), m.len() as int)).0 == tail_word(x, m),
        dec_tail(x, high_bytes(tail_word(x, m), m.len() as int)).1 == m,
{
    let n = m.len() as int;
    let e = tail_word(x, m);
    let c = high_bytes(e, n);
    let mw = be_word(m);
    let p = pad_spec(n);
    lemma_be_word_of_high_bytes(e, n);
    lemma_be_word_low_zero(m);
    lemma_high_bytes_of_be_word(m);
    if n == 0 {
        assert(high_bytes((x ^ p) ^ be_word(c), 0) =~= m);
    } else {
        let cw = be_word(c);
        assert(cw == (((x ^ p) ^ mw) & high_mask(n)));
        bv_tail(x, p, mw, cw, n as u64);
        let y = (x ^ p) ^ cw;
        assert(dec_tail(x, c).0 == (y & low_mask(n)) ^ cw);
        assert forall|i: int| 0 <= i < n implies high_bytes(y, n)[i] == m[i] by {
            assert(m[i] == crate::words::byte_of(mw, i));
            if i == 0 {
                assert(((56 - 8 * i) as u64) == 56u64);
            } else if i == 1 {
                assert(((56 - 8 * i) as u64) == 48u64);
            } else if i == 2 {
                assert(((56 - 8 * i) as u64) == 40u64);
            } else if i == 3 {
                assert(((56 - 8 * i) as u64) == 32u64);
            } else if i == 4 {
                assert(((56 - 8 * i) as u64) == 24u64);
            } else if i == 5 {
                assert(((56 - 8 * i) as u64) == 16u64);
            } else {
                assert(((56 - 8 * i) as u64) == 8u64);
            }
        }
        assert(high_bytes(y, n) =~= m);
    }
}

/// Decryption inverts encryption, block by block: on the ciphertext that
/// encryption produced, it recovers the plaintext and ends in the same
/// state, whatever the starting state.
pub proof fn lemma_dec_inverts_enc(w: Words, m: Seq<u8>, rate: u64)
    requires
        rate == 8 || rate == 16,
    ensures
        spec_dec(w, spec_enc(w, m, rate).1, rate).0 == spec_enc(w, m, rate).0,
        spec_dec(w, spec_enc(w, m, rate).1, rate).1 == m,
    decreases m.len(),
{
    lemma_bit_basics();
    lemma_enc_len(w, m, rate);
    let c = spec_enc(w, m, rate).1;
    if (rate == 8 && m.len() >= 8) || (rate == 16 && m.len() >= 16) {
        if rate == 8 {
            let m0 = m.subrange(0, 8);
            let mw = be_word(m0);
            let c0 = w.x0 ^ mw;
            let w1 = spec_permute_rate(
                Words { x0: c0, x1: w.x1, x2: w.x2, x3: w.x3, x4: w.x4 },
                rate,
            );
            let r = spec_enc(w1, m.skip(8), rate);
            lemma_enc_len(w1, m.skip(8), rate);
            assert(c.subrange(0, 8) =~= high_bytes(c0, 8));
            lemma_be_word_of_high_bytes(c0, 8);
            let cw = be_word(c.subrange(0, 8));
            assert(cw == c0);
            assert(w.x0 ^ cw == mw);
            lemma_high_bytes_of_be_word(m0);
            assert(c.skip(8) =~= r.1);
            lemma_dec_inverts_enc(w1, m.skip(8), rate);
            assert(spec_dec(w, c, rate).1 =~= m);
        } else {
            let m0 = m.subrange(0, 8);
            let m1 = m.subrange(8, 16);
            let mw0 = be_word(m0);
            let mw1 = be_word(m1);
            let c0 = w.x0 ^ mw0;
            let c1 = w.x1 ^ mw1;
            let w1 = spec_permute_rate(
                Words { x0: c0, x1: c1, x2: w.x2, x3: w.x3, x4: w.x4 },
                rate,
            );
            let r = spec_enc(w1, m.skip(16), rate);
            lemma_enc_len(w1, m.skip(16), rate);
            assert(c.subrange(0, 8) =~= high_bytes(c0, 8));
            assert(c.subrange(8, 16) =~= high_bytes(c1, 8));
            lemma_be_word_of_high_bytes(c0, 8);
            lemma_be_word_of_high_bytes(c1, 8);
            let cw0 = be_word(c.subrange(0, 8));
            let cw1 = be_word(c.subrange(8, 16));
            assert(cw0 == c0 && cw1 == c1);
            assert(w.x0 ^ cw0 == mw0);
            assert(w.x1 ^ cw1 == mw1);
            lemma_high_bytes_of_be_word(m0);
            lemma_high_bytes_of_be_word(m1);
            assert(c.skip(16) =~= r.1);
            lemma_dec_inverts_enc(w1, m.skip(16), rate);
            assert(spec_dec(w, c, rate).1 =~= m);
        }
    } else if rate == 16 && m.len() >= 8 {
        let m0 = m.subrange(0, 8);
        let mt = m.skip(8);
        let mw0 = be_word(m0);
        let c0 = w.x0 ^ mw0;
        let e = tail_word(w.x1, mt);
        assert(c.subrange(0, 8) =~= high_bytes(c0, 8));
        lemma_be_word_of_high_bytes(c0, 8);
        let cw = be_word(c.subrange(0, 8));
        assert(cw == c0);
        assert(w.x0 ^ cw == mw0);
        lemma_high_bytes_of_be_word(m0);
        assert(c.skip(8) =~= high_bytes(e, m.len() - 8));
        lemma_dec_tail_inverts(w.x1, mt);
        assert(spec_dec(w, c, rate).1 =~= m);
    } else {
        lemma_dec_tail_inverts(w.x0, m);
        assert(spec_dec(w, c, rate).1 == m);
    }
}

/// The round trip on a constructed core: for every state, key, rate,
/// associated data and plaintext, decrypting the ciphertext that
/// encryption produced recovers the plaintext and recomputes the very tag
/// encryption emitted.
pub proof fn lemma_round_trip(w: Words, k1: u64, k2: u64, rate: u64, ad: Seq<u8>, m: Seq<u8>)
    requires
        rate == 8 || rate == 16,
    ensures
        spec_core_decrypt(w, k1, k2, rate, ad, spec_core_encrypt(w, k1, k2, rate, ad, m).0).0
            == m,
        spec_core_decrypt(w, k1, k2, rate, ad, spec_core_encrypt(w, k1, k2, rate, ad, m).0).1
            == spec_core_encrypt(w, k1, k2, rate, ad, m).1,
{
    let wa = spec_process_ad(w, ad, rate);
    lemma_dec_inverts_enc(wa, m, rate);
}

/// The round trip from key and nonce: decrypting what encryption produced
/// under the same key, nonce and associated data recovers the plaintext,
/// and the recomputed tag equals the emitted one, so verification accepts.
pub proof fn lemma_encrypt_then_decrypt(
    iv: u64,
    rate: u64,
    key: Seq<u8>,
    nonce: Seq<u8>,
    ad: Seq<u8>,
    m: Seq<u8>,
)
    requires
        rate == 8 || rate == 16,
        key.len() == 16,
        nonce.len() == 16,
    ensures
        spec_decrypt_op(iv, rate, key, nonce, ad, spec_encrypt_op(iv, rate, key, nonce, ad, m).0).0
            == m,
        spec_decrypt_op(iv, rate, key, nonce, ad, spec_encrypt_op(iv, rate, key, nonce, ad, m).0).1
            == spec_encrypt_op(iv, rate, key, nonce, ad, m).1,
{
    lemma_round_trip(
        spec_init(iv, key, nonce),
        be_word(key.subrange(0, 8)),
        be_word(key.subrange(8, 16)),
        rate,
        ad,
        m,
    );
}

/// The domain-separation step runs even when the associated data is
/// empty: no block is absorbed and no permutation is applied, yet 1 is
/// XORed into the last state word, and the other words are unchanged.
pub proof fn lemma_domain_separation_empty_ad(w: Words, rate: u64)
    requires
        rate == 8 || rate == 16,
    ensures
        spec_process_ad(w, Seq::<u8>::empty(), rate) == (Words {
            x0: w.x0,
            x1: w.x1,
            x2: w.x2,
            x3: w.x3,
            x4: w.x4 ^ 1,
        }),
{
}

/// Empty associated data and empty plaintext still make a working
/// operation: the ciphertext is empty, decryption of it recovers the
/// empty plaintext, and the recomputed tag equals the emitted one, so
/// verification accepts.
pub proof fn lemma_empty_inputs_round_trip(w: Words, k1: u64, k2: u64, rate: u64)
    requires
        rate == 8 || rate == 16,
    ensures
        spec_core_encrypt(w, k1, k2, rate, Seq::<u8>::empty(), Seq::<u8>::empty()).0 == Seq::<
            u8,
        >::empty(),
        spec_core_decrypt(w, k1, k2, rate, Seq::<u8>::empty(), Seq::<u8>::empty()).0 == Seq::<
            u8,
        >::empty(),
        spec_core_decrypt(w, k1, k2, rate, Seq::<u8>::empty(), Seq::<u8>::empty()).1
            == spec_core_encrypt(w, k1, k2, rate, Seq::<u8>::empty(), Seq::<u8>::empty()).1,
{
    let e = Seq::<u8>::empty();
    lemma_round_trip(w, k1, k2, rate, e, e);
    assert(spec_core_encrypt(w, k1, k2, rate, e, e).0 =~= e);
}

/// Each variant independently satisfies the round trip, at its own rate
/// and initialization constant: what differs between the two is only the
/// rate and the intermediate round count, not the law.
pub proof fn lemma_round_trip_each_variant(key: Seq<u8>, nonce: Seq<u8>, ad: Seq<u8>, m: Seq<u8>)
    requires
        key.len() == 16,
        nonce.len() == 16,
    ensures
        spec_decrypt_op(
            Parameters128::iv(),
            Parameters128::rate(),
            key,
            nonce,
            ad,
            spec_encrypt_op(Parameters128::iv(), Parameters128::rate(), key, nonce, ad, m).0,
        ).0 == m,
        spec_decrypt_op(
            Parameters128::iv(),
            Parameters128::rate(),
            key,
            nonce,
            ad,
            spec_encrypt_op(Parameters128::iv(), Parameters128::rate(), key, nonce, ad, m).0,
        ).1 == spec_encrypt_op(Parameters128::iv(), Parameters128::rate(), key, nonce, ad, m).1,
        spec_decrypt_op(
            Parameters128A::iv(),
            Parameters128A::rate(),
            key,
            nonce,
            ad,
            spec_encrypt_op(Parameters128A::iv(), Parameters128A::rate(), key, nonce, ad, m).0,
        ).0 == m,
        spec_decrypt_op(
            Parameters128A::iv(),
            Parameters128A::rate(),
            key,
            nonce,
            ad,
            spec_encrypt_op(Parameters128A::iv(), Parameters128A::rate(), key, nonce, ad, m).0,
        ).1 == spec_encrypt_op(Parameters128A::iv(), Parameters128A::rate(), key, nonce, ad, m).1,
{
    lemma_encrypt_then_decrypt(Parameters128::iv(), Parameters128::rate(), key, nonce, ad, m);
    lemma_encrypt_then_decrypt(Parameters128A::iv(), Parameters128A::rate(), key, nonce, ad, m);
}

} // verus!

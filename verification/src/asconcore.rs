//! The cipher core: one encryption or decryption from construction to tag.

use crate::model::{
    dec_tail, spec_absorb, spec_core_decrypt, spec_core_encrypt, spec_dec, spec_enc, spec_final,
    spec_init, spec_process_ad, tail_word,
};
use crate::params::Parameters;
use crate::state::State;
use crate::words::{
    be_word, byte_of, clear, high_bytes, lemma_bit_basics, load_word, pad, store_word,
};
use core::marker::PhantomData;
use subtle::ConstantTimeEq;
use vstd::prelude::*;
use zeroize::Zeroize;

verus! {

/// Failure of tag verification: the only error decryption can raise.
#[derive(Clone, Copy, Debug, PartialEq, Eq, Structural)]
pub struct AuthenticationError;

/// Relies on subtle's constant-time comparison of byte slices: `ct_eq`
/// returns `Choice(1)` exactly when the slices hold the same bytes, and
/// runs in time independent of their contents, with no early exit on the
/// first mismatching byte.
#[verifier::external_body]
fn tags_match(a: &[u8; 16], b: &[u8; 16]) -> (r: bool)
    ensures
        r == (a@ == b@),
{
    a.as_slice().ct_eq(b.as_slice()).unwrap_u8() == 1
}

/// Relies on zeroize: zeroizing a `[u64; 2]` overwrites both words with
/// zero, through writes the compiler may not elide.
#[verifier::external_body]
fn erase_key_words(k: &mut [u64; 2])
    ensures
        final(k)@ == seq![0u64, 0u64],
    opens_invariants none
    no_unwind
{
    k.zeroize();
}

/// The last two state words as the 16 tag bytes, big-endian.
fn tag_from_words(hi: u64, lo: u64) -> (t: [u8; 16])
    ensures
        t@ == high_bytes(hi, 8) + high_bytes(lo, 8),
{
    let mut t: [u8; 16] = [0u8; 16];
    let mut i: usize = 0;
    while i < 8
        invariant
            i <= 8,
            t@.len() == 16,
            forall|k: int| 0 <= k < i ==> t@[k] == byte_of(hi, k),
        decreases 8 - i,
    {
        t[i] = #[verifier::truncate] ((hi >> (56 - 8 * (i as u64))) as u8);
        i = i + 1;
    }
    let mut j: usize = 0;
    while j < 8
        invariant
            j <= 8,
            t@.len() == 16,
            forall|k: int| 0 <= k < 8 ==> t@[k] == byte_of(hi, k),
            forall|k: int| 0 <= k < j ==> t@[8 + k] == byte_of(lo, k),
        decreases 8 - j,
    {
        t[8 + j] = #[verifier::truncate] ((lo >> (56 - 8 * (j as u64))) as u8);
        j = j + 1;
    }
    proof {
        assert(t@ =~= high_bytes(hi, 8) + high_bytes(lo, 8));
    }
    t
}

/// Core of one encryption or decryption operation: the permutation state
/// and the two key words, retained for finalization.
pub struct Core<P: Parameters> {
    pub state: State<P>,
    pub key: [u64; 2],
}

impl<P: Parameters> Core<P> {
    /// Construct the core from key and nonce: the state is filled with
    /// `[iv, k1, k2, n1, n2]`, permuted 12 rounds, and the key XORed into
    /// the last two words; the key words are retained.
    pub fn new(key: &[u8; 16], nonce: &[u8; 16]) -> (r: Self)
        ensures
            r.state@ == spec_init(P::iv(), key@, nonce@),
            r.key@[0] == be_word(key@.subrange(0, 8)),
            r.key@[1] == be_word(key@.subrange(8, 16)),
    {
        let key_1: u64 = load_word(key.as_slice(), 0, 8);
        let key_2: u64 = load_word(key.as_slice(), 8, 8);
        let n_1: u64 = load_word(nonce.as_slice(), 0, 8);
        let n_2: u64 = load_word(nonce.as_slice(), 8, 8);

        let mut state: State<P> = State {
            x0: P::iv_word(),
            x1: key_1,
            x2: key_2,
            x3: n_1,
            x4: n_2,
            parameters: PhantomData,
        };
        state.permute_12();
        state.x3 = state.x3 ^ key_1;
        state.x4 = state.x4 ^ key_2;

        Core { state, key: [key_1, key_2] }
    }

    /// Absorb the associated data: full blocks, then the padded partial
    /// final block, each followed by the intermediate permutation, and the
    /// domain-separation bit in every case, empty data included.
    fn process_associated_data(&mut self, associated_data: &[u8])
        ensures
            final(self).state@ == spec_process_ad(
                old(self).state@,
                associated_data@,
                P::rate(),
            ),
            final(self).key@ == old(self).key@,
    {
        proof {
            P::rate_is_8_or_16();
            lemma_bit_basics();
        }
        let count: usize = P::count();
        let len: usize = associated_data.len();
        let ghost w0 = self.state@;
        if len > 0 {
            let mut idx: usize = 0;
            proof {
                assert(associated_data@.skip(0) =~= associated_data@);
            }
            while len - idx >= count
                invariant
                    count as u64 == P::rate(),
                    P::rate() == 8 || P::rate() == 16,
                    len == associated_data@.len(),
                    len <= usize::MAX,
                    idx <= len,
                    self.key@ == old(self).key@,
                    w0 == old(self).state@,
                    spec_absorb(w0, associated_data@, P::rate()) == spec_absorb(
                        self.state@,
                        associated_data@.skip(idx as int),
                        P::rate(),
                    ),
                decreases len - idx,
            {
                let ghost pre = self.state@;
                let ghost rest = associated_data@.skip(idx as int);
                proof {
                    assert(associated_data@.subrange(idx as int, idx as int + 8) =~= rest.subrange(
                        0,
                        8,
                    ));
                }
                self.state.x0 = self.state.x0 ^ load_word(associated_data, idx, 8);
                if count == 16 {
                    proof {
                        assert(associated_data@.subrange(idx as int + 8, idx as int + 16)
                            =~= rest.subrange(8, 16));
                    }
                    self.state.x1 = self.state.x1 ^ load_word(associated_data, idx + 8, 8);
                }
                self.state.permute();
                proof {
                    assert(rest.skip(count as int) =~= associated_data@.skip(
                        idx as int + count as int,
                    ));
                }
                idx = idx + count;
            }
            let ghost pre = self.state@;
            let ghost rest = associated_data@.skip(idx as int);
            if count == 16 && len - idx >= 8 {
                proof {
                    assert(associated_data@.subrange(idx as int, idx as int + 8) =~= rest.subrange(
                        0,
                        8,
                    ));
                }
                self.state.x0 = self.state.x0 ^ load_word(associated_data, idx, 8);
                let off: usize = idx + 8;
                let n: usize = len - off;
                proof {
                    assert(associated_data@.subrange(off as int, off as int + n as int)
                        =~= rest.skip(8));
                }
                self.state.x1 = self.state.x1 ^ pad(n);
                if n > 0 {
                    self.state.x1 = self.state.x1 ^ load_word(associated_data, off, n);
                } else {
                    proof {
                        assert(be_word(rest.skip(8)) == 0u64);
                    }
                }
                proof {
                    assert(self.state@.x1 == tail_word(pre.x1, rest.skip(8)));
                }
            } else {
                let n: usize = len - idx;
                proof {
                    assert(associated_data@.subrange(idx as int, idx as int + n as int) =~= rest);
                }
                self.state.x0 = self.state.x0 ^ pad(n);
                if n > 0 {
                    self.state.x0 = self.state.x0 ^ load_word(associated_data, idx, n);
                } else {
                    proof {
                        assert(be_word(rest) == 0u64);
                    }
                }
                proof {
                    assert(self.state@.x0 == tail_word(pre.x0, rest));
                }
            }
            self.state.permute();
            proof {
                assert(self.state@ == spec_absorb(pre, rest, P::rate()));
                assert(self.state@ == spec_absorb(w0, associated_data@, P::rate()));
            }
        }
        self.state.x4 = self.state.x4 ^ 1;
    }

    /// Encrypt the message in place: each block is XORed into the rate
    /// words, the result written back as ciphertext, full blocks followed
    /// by the intermediate permutation, the partial final block padded.
    fn process_encrypt_inplace(&mut self, message: &mut Vec<u8>)
        ensures
            final(self).state@ == spec_enc(old(self).state@, old(message)@, P::rate()).0,
            final(message)@ == spec_enc(old(self).state@, old(message)@, P::rate()).1,
            final(self).key@ == old(self).key@,
    {
        proof {
            P::rate_is_8_or_16();
            lemma_bit_basics();
        }
        let count: usize = P::count();
        let len: usize = message.len();
        let ghost w0 = self.state@;
        let ghost m0 = message@;
        let mut idx: usize = 0;
        proof {
            assert(m0.skip(0) =~= m0);
            assert(m0.subrange(0, 0) + spec_enc(w0, m0, P::rate()).1 =~= spec_enc(
                w0,
                m0,
                P::rate(),
            ).1);
        }
        while len - idx >= count
            invariant
                count as u64 == P::rate(),
                P::rate() == 8 || P::rate() == 16,
                len == message@.len(),
                message@.len() == m0.len(),
                len <= usize::MAX,
                idx <= len,
                self.key@ == old(self).key@,
                w0 == old(self).state@,
                m0 == old(message)@,
                message@.skip(idx as int) == m0.skip(idx as int),
                spec_enc(w0, m0, P::rate()).0 == spec_enc(
                    self.state@,
                    m0.skip(idx as int),
                    P::rate(),
                ).0,
                spec_enc(w0, m0, P::rate()).1 == message@.subrange(0, idx as int) + spec_enc(
                    self.state@,
                    m0.skip(idx as int),
                    P::rate(),
                ).1,
            decreases len - idx,
        {
            let ghost pre = self.state@;
            let ghost rest = m0.skip(idx as int);
            let ghost msg_pre = message@;
            proof {
                assert(message@.subrange(idx as int, idx as int + 8) =~= rest.subrange(0, 8));
            }
            self.state.x0 = self.state.x0 ^ load_word(message.as_slice(), idx, 8);
            store_word(message, idx, 8, self.state.x0);
            let ghost c0 = self.state@.x0;
            if count == 16 {
                proof {
                    assert(message@.subrange(idx as int + 8, idx as int + 16) =~= rest.subrange(
                        8,
                        16,
                    ));
                }
                self.state.x1 = self.state.x1 ^ load_word(message.as_slice(), idx + 8, 8);
                store_word(message, idx + 8, 8, self.state.x1);
            }
            let ghost c1 = self.state@.x1;
            self.state.permute();
            proof {
                assert(rest.skip(count as int) =~= m0.skip(idx as int + count as int));
                assert(message@.skip(idx as int + count as int) =~= m0.skip(
                    idx as int + count as int,
                ));
                if count == 8 {
                    assert(message@.subrange(0, idx as int + 8) =~= msg_pre.subrange(0, idx as int)
                        + high_bytes(c0, 8));
                    assert(msg_pre.subrange(0, idx as int) + (high_bytes(c0, 8) + spec_enc(
                        self.state@,
                        rest.skip(8),
                        P::rate(),
                    ).1) =~= message@.subrange(0, idx as int + 8) + spec_enc(
                        self.state@,
                        rest.skip(8),
                        P::rate(),
                    ).1);
                } else {
                    assert(message@.subrange(0, idx as int + 16) =~= msg_pre.subrange(
                        0,
                        idx as int,
                    ) + (high_bytes(c0, 8) + high_bytes(c1, 8)));
                    assert(msg_pre.subrange(0, idx as int) + (high_bytes(c0, 8) + (high_bytes(
                        c1,
                        8,
                    ) + spec_enc(self.state@, rest.skip(16), P::rate()).1)) =~= message@.subrange(
                        0,
                        idx as int + 16,
                    ) + spec_enc(self.state@, rest.skip(16), P::rate()).1);
                }
            }
            idx = idx + count;
        }
        let ghost pre = self.state@;
        let ghost rest = m0.skip(idx as int);
        let ghost msg_pre = message@;
        let mut off: usize = idx;
        if count == 16 && len - idx >= 8 {
            proof {
                assert(message@.subrange(idx as int, idx as int + 8) =~= rest.subrange(0, 8));
            }
            self.state.x0 = self.state.x0 ^ load_word(message.as_slice(), idx, 8);
            store_word(message, idx, 8, self.state.x0);
            off = idx + 8;
            let n: usize = len - off;
            proof {
                assert(message@.subrange(off as int, off as int + n as int) =~= rest.skip(8));
            }
            self.state.x1 = self.state.x1 ^ pad(n);
            if n > 0 {
                self.state.x1 = self.state.x1 ^ load_word(message.as_slice(), off, n);
                store_word(message, off, n, self.state.x1);
            } else {
                proof {
                    assert(be_word(rest.skip(8)) == 0u64);
                }
            }
            proof {
                assert(self.state@.x1 == tail_word(pre.x1, rest.skip(8)));
                assert(self.state@ == spec_enc(pre, rest, P::rate()).0);
                assert(message@.subrange(idx as int, len as int) =~= spec_enc(
                    pre,
                    rest,
                    P::rate(),
                ).1);
            }
        } else {
            let n: usize = len - idx;
            proof {
                assert(message@.subrange(idx as int, idx as int + n as int) =~= rest);
            }
            self.state.x0 = self.state.x0 ^ pad(n);
            if n > 0 {
                self.state.x0 = self.state.x0 ^ load_word(message.as_slice(), idx, n);
                store_word(message, idx, n, self.state.x0);
            } else {
                proof {
                    assert(be_word(rest) == 0u64);
                }
            }
            proof {
                assert(self.state@.x0 == tail_word(pre.x0, rest));
                assert(self.state@ == spec_enc(pre, rest, P::rate()).0);
                assert(message@.subrange(idx as int, len as int) =~= spec_enc(
                    pre,
                    rest,
                    P::rate(),
                ).1);
            }
        }
        proof {
            assert(message@.subrange(0, idx as int) =~= msg_pre.subrange(0, idx as int));
            assert(message@ =~= message@.subrange(0, idx as int) + message@.subrange(
                idx as int,
                len as int,
            ));
        }
    }

    /// Decrypt the ciphertext in place: each block is XORed out of the
    /// rate words, which then take the ciphertext's value, full blocks
    /// followed by the intermediate permutation; after the padded partial
    /// final block the rate word mirrors what encrypting the recovered
    /// plaintext would have left.
    fn process_decrypt_inplace(&mut self, ciphertext: &mut Vec<u8>)
        ensures
            final(self).state@ == spec_dec(old(self).state@, old(ciphertext)@, P::rate()).0,
            final(ciphertext)@ == spec_dec(old(self).state@, old(ciphertext)@, P::rate()).1,
            final(self).key@ == old(self).key@,
    {
        proof {
            P::rate_is_8_or_16();
            lemma_bit_basics();
        }
        let count: usize = P::count();
        let len: usize = ciphertext.len();
        let ghost w0 = self.state@;
        let ghost c0seq = ciphertext@;
        let mut idx: usize = 0;
        proof {
            assert(c0seq.skip(0) =~= c0seq);
            assert(c0seq.subrange(0, 0) + spec_dec(w0, c0seq, P::rate()).1 =~= spec_dec(
                w0,
                c0seq,
                P::rate(),
            ).1);
        }
        while len - idx >= count
            invariant
                count as u64 == P::rate(),
                P::rate() == 8 || P::rate() == 16,
                len == ciphertext@.len(),
                ciphertext@.len() == c0seq.len(),
                len <= usize::MAX,
                idx <= len,
                self.key@ == old(self).key@,
                w0 == old(self).state@,
                c0seq == old(ciphertext)@,
                ciphertext@.skip(idx as int) == c0seq.skip(idx as int),
                spec_dec(w0, c0seq, P::rate()).0 == spec_dec(
                    self.state@,
                    c0seq.skip(idx as int),
                    P::rate(),
                ).0,
                spec_dec(w0, c0seq, P::rate()).1 == ciphertext@.subrange(0, idx as int) + spec_dec(
                    self.state@,
                    c0seq.skip(idx as int),
                    P::rate(),
                ).1,
            decreases len - idx,
        {
            let ghost pre = self.state@;
            let ghost rest = c0seq.skip(idx as int);
            let ghost ct_pre = ciphertext@;
            proof {
                assert(ciphertext@.subrange(idx as int, idx as int + 8) =~= rest.subrange(0, 8));
            }
            let cx: u64 = load_word(ciphertext.as_slice(), idx, 8);
            store_word(ciphertext, idx, 8, self.state.x0 ^ cx);
            self.state.x0 = cx;
            let ghost p0 = high_bytes(pre.x0 ^ cx, 8);
            let ghost mut p1 = high_bytes(pre.x1 ^ 0u64, 8);
            if count == 16 {
                proof {
                    assert(ciphertext@.subrange(idx as int + 8, idx as int + 16) =~= rest.subrange(
                        8,
                        16,
                    ));
                }
                let cy: u64 = load_word(ciphertext.as_slice(), idx + 8, 8);
                store_word(ciphertext, idx + 8, 8, self.state.x1 ^ cy);
                proof {
                    p1 = high_bytes(pre.x1 ^ cy, 8);
                }
                self.state.x1 = cy;
            }
            self.state.permute();
            proof {
                assert(rest.skip(count as int) =~= c0seq.skip(idx as int + count as int));
                assert(ciphertext@.skip(idx as int + count as int) =~= c0seq.skip(
                    idx as int + count as int,
                ));
                if count == 8 {
                    assert(ciphertext@.subrange(0, idx as int + 8) =~= ct_pre.subrange(
                        0,
                        idx as int,
                    ) + p0);
                    assert(ct_pre.subrange(0, idx as int) + (p0 + spec_dec(
                        self.state@,
                        rest.skip(8),
                        P::rate(),
                    ).1) =~= ciphertext@.subrange(0, idx as int + 8) + spec_dec(
                        self.state@,
                        rest.skip(8),
                        P::rate(),
                    ).1);
                } else {
                    assert(ciphertext@.subrange(0, idx as int + 16) =~= ct_pre.subrange(
                        0,
                        idx as int,
                    ) + (p0 + p1));
                    assert(ct_pre.subrange(0, idx as int) + (p0 + (p1 + spec_dec(
                        self.state@,
                        rest.skip(16),
                        P::rate(),
                    ).1)) =~= ciphertext@.subrange(0, idx as int + 16) + spec_dec(
                        self.state@,
                        rest.skip(16),
                        P::rate(),
                    ).1);
                }
            }
            idx = idx + count;
        }
        let ghost pre = self.state@;
        let ghost rest = c0seq.skip(idx as int);
        let ghost ct_pre = ciphertext@;
        let mut off: usize = idx;
        if count == 16 && len - idx >= 8 {
            proof {
                assert(ciphertext@.subrange(idx as int, idx as int + 8) =~= rest.subrange(0, 8));
            }
            let cx: u64 = load_word(ciphertext.as_slice(), idx, 8);
            store_word(ciphertext, idx, 8, self.state.x0 ^ cx);
            self.state.x0 = cx;
            off = idx + 8;
            let n: usize = len - off;
            proof {
                assert(ciphertext@.subrange(off as int, off as int + n as int) =~= rest.skip(8));
            }
            self.state.x1 = self.state.x1 ^ pad(n);
            if n > 0 {
                let cy: u64 = load_word(ciphertext.as_slice(), off, n);
                self.state.x1 = self.state.x1 ^ cy;
                store_word(ciphertext, off, n, self.state.x1);
                self.state.x1 = clear(self.state.x1, n) ^ cy;
            } else {
                proof {
                    assert(be_word(rest.skip(8)) == 0u64);
                }
            }
            proof {
                assert(self.state@.x1 == dec_tail(pre.x1, rest.skip(8)).0);
                assert(self.state@ == spec_dec(pre, rest, P::rate()).0);
                assert(ciphertext@.subrange(idx as int, len as int) =~= spec_dec(
                    pre,
                    rest,
                    P::rate(),
                ).1);
            }
        } else {
            let n: usize = len - idx;
            proof {
                assert(ciphertext@.subrange(idx as int, idx as int + n as int) =~= rest);
            }
            self.state.x0 = self.state.x0 ^ pad(n);
            if n > 0 {
                let cy: u64 = load_word(ciphertext.as_slice(), idx, n);
                self.state.x0 = self.state.x0 ^ cy;
                store_word(ciphertext, idx, n, self.state.x0);
                self.state.x0 = clear(self.state.x0, n) ^ cy;
            } else {
                proof {
                    assert(be_word(rest) == 0u64);
                }
            }
            proof {
                assert(self.state@.x0 == dec_tail(pre.x0, rest).0);
                assert(self.state@ == spec_dec(pre, rest, P::rate()).0);
                assert(ciphertext@.subrange(idx as int, len as int) =~= spec_dec(
                    pre,
                    rest,
                    P::rate(),
                ).1);
            }
        }
        proof {
            assert(ciphertext@.subrange(0, idx as int) =~= ct_pre.subrange(0, idx as int));
            assert(ciphertext@ =~= ciphertext@.subrange(0, idx as int) + ciphertext@.subrange(
                idx as int,
                len as int,
            ));
        }
    }

    /// Encrypt the message in place and return the tag.  The buffer holds
    /// the ciphertext afterwards; the tag is the last two state words
    /// after finalization.
    pub fn encrypt_inplace(&mut self, message: &mut Vec<u8>, associated_data: &[u8]) -> (tag: [u8;
        16])
        ensures
            final(message)@ == spec_core_encrypt(
                old(self).state@,
                old(self).key@[0],
                old(self).key@[1],
                P::rate(),
                associated_data@,
                old(message)@,
            ).0,
            tag@ == spec_core_encrypt(
                old(self).state@,
                old(self).key@[0],
                old(self).key@[1],
                P::rate(),
                associated_data@,
                old(message)@,
            ).1,
    {
        proof {
            P::rate_is_8_or_16();
        }
        self.process_associated_data(associated_data);
        self.process_encrypt_inplace(message);
        self.process_final();
        tag_from_words(self.state.x3, self.state.x4)
    }

    /// Decrypt the ciphertext in place and verify the tag, in constant
    /// time.  `Ok` exactly when the recomputed tag equals the expected
    /// one; the buffer holds the unauthenticated candidate plaintext in
    /// either case, and callers must discard it on failure.
    pub fn decrypt_inplace(
        &mut self,
        ciphertext: &mut Vec<u8>,
        associated_data: &[u8],
        expected_tag: &[u8; 16],
    ) -> (r: Result<(), AuthenticationError>)
        ensures
            final(ciphertext)@ == spec_core_decrypt(
                old(self).state@,
                old(self).key@[0],
                old(self).key@[1],
                P::rate(),
                associated_data@,
                old(ciphertext)@,
            ).0,
            r is Ok <==> spec_core_decrypt(
                old(self).state@,
                old(self).key@[0],
                old(self).key@[1],
                P::rate(),
                associated_data@,
                old(ciphertext)@,
            ).1 == expected_tag@,
    {
        proof {
            P::rate_is_8_or_16();
        }
        self.process_associated_data(associated_data);
        self.process_decrypt_inplace(ciphertext);
        self.process_final();
        let tag: [u8; 16] = tag_from_words(self.state.x3, self.state.x4);
        if tags_match(&tag, expected_tag) {
            Ok(())
        } else {
            Err(AuthenticationError)
        }
    }

    /// Finalization: the key XORed in right after the rate words, 12
    /// rounds, and the key XORed into the last two words again.
    pub fn process_final(&mut self)
        ensures
            final(self).state@ == spec_final(
                old(self).state@,
                old(self).key@[0],
                old(self).key@[1],
                P::rate(),
            ),
            final(self).key@ == old(self).key@,
    {
        proof {
            P::rate_is_8_or_16();
        }
        if P::count() == 8 {
            self.state.x1 = self.state.x1 ^ self.key[0];
            self.state.x2 = self.state.x2 ^ self.key[1];
        } else {
            self.state.x2 = self.state.x2 ^ self.key[0];
            self.state.x3 = self.state.x3 ^ self.key[1];
        }
        self.state.permute_12();
        self.state.x3 = self.state.x3 ^ self.key[0];
        self.state.x4 = self.state.x4 ^ self.key[1];
    }
}

impl<P: Parameters> Drop for Core<P> {
    /// The retained key words are erased on every exit path, whether or
    /// not the operation succeeded.
    fn drop(&mut self)
        ensures
            final(self).key@ == seq![0u64, 0u64],
        opens_invariants none
        no_unwind
    {
        erase_key_words(&mut self.key);
    }
}

} // verus!

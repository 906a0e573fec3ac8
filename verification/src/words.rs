//! Big-endian views of 64-bit words.
//!
//! The sponge state is made of 64-bit words, while keys, nonces, data and
//! tags are byte sequences.  This module gives the byte-level reading of a
//! word (most significant byte first), the word built from a short byte
//! sequence (left-justified), and the padding and clearing helpers used on
//! partial blocks.

use vstd::prelude::*;

verus! {

/// Big-endian byte `i` (0 = most significant) of a 64-bit word.
pub open spec fn byte_of(x: u64, i: int) -> u8
    recommends
        0 <= i < 8,
{
    (x >> ((56 - 8 * i) as u64)) as u8
}

/// The word holding `s[i], s[i+1], ...` as its bytes from position `i` on,
/// with all other bytes zero.
pub open spec fn be_word_at(s: Seq<u8>, i: int) -> u64
    recommends
        s.len() <= 8,
    decreases s.len() - i,
{
    if i < 0 || i >= s.len() || i >= 8 {
        0u64
    } else {
        (((s[i] as u64) << ((56 - 8 * i) as u64)) | be_word_at(s, i + 1)) as u64
    }
}

/// The word holding the bytes of `s` left-justified: `s[0]` is the most
/// significant byte, and the remaining `8 - s.len()` bytes are zero.
pub open spec fn be_word(s: Seq<u8>) -> u64
    recommends
        s.len() <= 8,
{
    be_word_at(s, 0)
}

/// The top `n` bytes of `x`, most significant first.
pub open spec fn high_bytes(x: u64, n: int) -> Seq<u8>
    recommends
        0 <= n <= 8,
{
    Seq::new(n as nat, |i: int| byte_of(x, i))
}

/// Mask keeping the top `n` bytes of a word.
pub open spec fn high_mask(n: int) -> u64 {
    if n <= 0 {
        0u64
    } else if n == 1 {
        0xFF00000000000000u64
    } else if n == 2 {
        0xFFFF000000000000u64
    } else if n == 3 {
        0xFFFFFF0000000000u64
    } else if n == 4 {
        0xFFFFFFFF00000000u64
    } else if n == 5 {
        0xFFFFFFFFFF000000u64
    } else if n == 6 {
        0xFFFFFFFFFFFF0000u64
    } else if n == 7 {
        0xFFFFFFFFFFFFFF00u64
    } else {
        0xFFFFFFFFFFFFFFFFu64
    }
}

/// Mask keeping the bottom `8 - n` bytes of a word; the complement of
/// `high_mask(n)`.
pub open spec fn low_mask(n: int) -> u64 {
    if n <= 0 {
        0xFFFFFFFFFFFFFFFFu64
    } else if n == 1 {
        0x00FFFFFFFFFFFFFFu64
    } else if n == 2 {
        0x0000FFFFFFFFFFFFu64
    } else if n == 3 {
        0x000000FFFFFFFFFFu64
    } else if n == 4 {
        0x00000000FFFFFFFFu64
    } else if n == 5 {
        0x0000000000FFFFFFu64
    } else if n == 6 {
        0x000000000000FFFFu64
    } else if n == 7 {
        0x00000000000000FFu64
    } else {
        0u64
    }
}

/// Padding word for a partial block holding `n` data bytes: a single `0x80`
/// byte placed immediately after the data, big-endian, the rest zero.
pub open spec fn pad_spec(n: int) -> u64
    recommends
        0 <= n < 8,
{
    if n == 0 {
        0x8000000000000000u64
    } else if n == 1 {
        0x0080000000000000u64
    } else if n == 2 {
        0x0000800000000000u64
    } else if n == 3 {
        0x0000008000000000u64
    } else if n == 4 {
        0x0000000080000000u64
    } else if n == 5 {
        0x0000000000800000u64
    } else if n == 6 {
        0x0000000000008000u64
    } else {
        0x0000000000000080u64
    }
}

/// `clear` zeroes the top `n` bytes of a word, keeping the bottom `8 - n`.
pub open spec fn clear_spec(word: u64, n: int) -> u64
    recommends
        1 <= n < 8,
{
    word & low_mask(n)
}

/// Padding word for a partial block of `n` data bytes.
pub fn pad(n: usize) -> (r: u64)
    requires
        n < 8,
    ensures
        r == pad_spec(n as int),
{
    let sh: u64 = 56 - 8 * (n as u64);
    let r: u64 = 0x80u64 << sh;
    proof {
        let nn = n as u64;
        assert((nn == 0 ==> r == 0x8000000000000000u64) && (nn == 1 ==> r
            == 0x0080000000000000u64) && (nn == 2 ==> r == 0x0000800000000000u64) && (nn == 3 ==> r
            == 0x0000008000000000u64) && (nn == 4 ==> r == 0x0000000080000000u64) && (nn == 5 ==> r
            == 0x0000000000800000u64) && (nn == 6 ==> r == 0x0000000000008000u64) && (nn == 7 ==> r
            == 0x0000000000000080u64)) by (bit_vector)
            requires
                nn < 8,
                sh == 56 - 8 * nn,
                r == 0x80u64 << sh,
        ;
    }
    r
}

/// Zero the top `n` bytes of `word`, keeping the bottom `8 - n`.
pub fn clear(word: u64, n: usize) -> (r: u64)
    requires
        1 <= n < 8,
    ensures
        r == clear_spec(word, n as int),
{
    let r: u64 = word & (0x00ffffffffffffffu64 >> (8 * (n as u64) - 8));
    proof {
        let nn = n as u64;
        assert((nn == 1 ==> r == (word & 0x00FFFFFFFFFFFFFFu64)) && (nn == 2 ==> r == (word
            & 0x0000FFFFFFFFFFFFu64)) && (nn == 3 ==> r == (word & 0x000000FFFFFFFFFFu64)) && (nn
            == 4 ==> r == (word & 0x00000000FFFFFFFFu64)) && (nn == 5 ==> r == (word
            & 0x0000000000FFFFFFu64)) && (nn == 6 ==> r == (word & 0x000000000000FFFFu64)) && (nn
            == 7 ==> r == (word & 0x00000000000000FFu64))) by (bit_vector)
            requires
                1 <= nn < 8,
                r == word & (0x00ffffffffffffffu64 >> ((8 * nn - 8) as u64)),
        ;
    }
    r
}

/// Identities of `|`, `^` and `&` used throughout: zero is neutral for `|`
/// and `^`, the full mask is neutral for `&`, and `^` with the same word
/// twice cancels.
pub proof fn lemma_bit_basics()
    by (bit_vector)
    ensures
        forall|a: u64| #[trigger] (a | 0u64) == a,
        forall|a: u64| #[trigger] (0u64 | a) == a,
        forall|a: u64| #[trigger] (a ^ 0u64) == a,
        forall|a: u64| #[trigger] (0u64 ^ a) == a,
        forall|a: u64| #[trigger] (a & 0xFFFFFFFFFFFFFFFFu64) == a,
        forall|a: u64, b: u64| #[trigger] (a ^ (a ^ b)) == b,
{
}

/// Bit-level facts about a word composed from up to 8 bytes, one case per
/// length `nn`: shifting recovers each byte, and the bytes below the
/// composed ones are zero.
proof fn bv_extract(w: u64, b0: u8, b1: u8, b2: u8, b3: u8, b4: u8, b5: u8, b6: u8, b7: u8, nn: u64)
    by (bit_vector)
    requires
        nn <= 8,
        nn == 0 ==> w == 0u64,
        nn == 1 ==> w == ((b0 as u64) << 56u64) | 0u64,
        nn == 2 ==> w == ((b0 as u64) << 56u64) | (((b1 as u64) << 48u64) | 0u64),
        nn == 3 ==> w == ((b0 as u64) << 56u64) | (((b1 as u64) << 48u64) | (((b2 as u64) << 40u64)
            | 0u64)),
        nn == 4 ==> w == ((b0 as u64) << 56u64) | (((b1 as u64) << 48u64) | (((b2 as u64) << 40u64)
            | (((b3 as u64) << 32u64) | 0u64))),
        nn == 5 ==> w == ((b0 as u64) << 56u64) | (((b1 as u64) << 48u64) | (((b2 as u64) << 40u64)
            | (((b3 as u64) << 32u64) | (((b4 as u64) << 24u64) | 0u64)))),
        nn == 6 ==> w == ((b0 as u64) << 56u64) | (((b1 as u64) << 48u64) | (((b2 as u64) << 40u64)
            | (((b3 as u64) << 32u64) | (((b4 as u64) << 24u64) | (((b5 as u64) << 16u64)
            | 0u64))))),
        nn == 7 ==> w == ((b0 as u64) << 56u64) | (((b1 as u64) << 48u64) | (((b2 as u64) << 40u64)
            | (((b3 as u64) << 32u64) | (((b4 as u64) << 24u64) | (((b5 as u64) << 16u64) | (((
        b6 as u64) << 8u64) | 0u64)))))),
        nn == 8 ==> w == ((b0 as u64) << 56u64) | (((b1 as u64) << 48u64) | (((b2 as u64) << 40u64)
            | (((b3 as u64) << 32u64) | (((b4 as u64) << 24u64) | (((b5 as u64) << 16u64) | (((
        b6 as u64) << 8u64) | (((b7 as u64) << 0u64) | 0u64))))))),
    ensures
        1 <= nn ==> (w >> 56u64) as u8 == b0,
        2 <= nn ==> (w >> 48u64) as u8 == b1,
        3 <= nn ==> (w >> 40u64) as u8 == b2,
        4 <= nn ==> (w >> 32u64) as u8 == b3,
        5 <= nn ==> (w >> 24u64) as u8 == b4,
        6 <= nn ==> (w >> 16u64) as u8 == b5,
        7 <= nn ==> (w >> 8u64) as u8 == b6,
        8 <= nn ==> (w >> 0u64) as u8 == b7,
        nn == 1 ==> w & 0x00FFFFFFFFFFFFFFu64 == 0u64,
        nn == 2 ==> w & 0x0000FFFFFFFFFFFFu64 == 0u64,
        nn == 3 ==> w & 0x000000FFFFFFFFFFu64 == 0u64,
        nn == 4 ==> w & 0x00000000FFFFFFFFu64 == 0u64,
        nn == 5 ==> w & 0x0000000000FFFFFFu64 == 0u64,
        nn == 6 ==> w & 0x000000000000FFFFu64 == 0u64,
        nn == 7 ==> w & 0x00000000000000FFu64 == 0u64,
{
}

/// Bit-level facts about the word composed from the top `nn` bytes of `x`,
/// one case per length: the composition equals `x` masked to its top `nn`
/// bytes.
proof fn bv_compose(x: u64, w: u64, nn: u64)
    by (bit_vector)
    requires
        nn <= 8,
        nn == 0 ==> w == 0u64,
        nn == 1 ==> w == ((((x >> 56u64) as u8) as u64) << 56u64) | 0u64,
        nn == 2 ==> w == ((((x >> 56u64) as u8) as u64) << 56u64) | (((((x >> 48u64) as u8) as u64)
            << 48u64) | 0u64),
        nn == 3 ==> w == ((((x >> 56u64) as u8) as u64) << 56u64) | (((((x >> 48u64) as u8) as u64)
            << 48u64) | (((((x >> 40u64) as u8) as u64) << 40u64) | 0u64)),
        nn == 4 ==> w == ((((x >> 56u64) as u8) as u64) << 56u64) | (((((x >> 48u64) as u8) as u64)
            << 48u64) | (((((x >> 40u64) as u8) as u64) << 40u64) | (((((x >> 32u64) as u8) as u64)
            << 32u64) | 0u64))),
        nn == 5 ==> w == ((((x >> 56u64) as u8) as u64) << 56u64) | (((((x >> 48u64) as u8) as u64)
            << 48u64) | (((((x >> 40u64) as u8) as u64) << 40u64) | (((((x >> 32u64) as u8) as u64)
            << 32u64) | (((((x >> 24u64) as u8) as u64) << 24u64) | 0u64)))),
        nn == 6 ==> w == ((((x >> 56u64) as u8) as u64) << 56u64) | (((((x >> 48u64) as u8) as u64)
            << 48u64) | (((((x >> 40u64) as u8) as u64) << 40u64) | (((((x >> 32u64) as u8) as u64)
            << 32u64) | (((((x >> 24u64) as u8) as u64) << 24u64) | (((((x >> 16u64) as u8) as u64)
            << 16u64) | 0u64))))),
        nn == 7 ==> w == ((((x >> 56u64) as u8) as u64) << 56u64) | (((((x >> 48u64) as u8) as u64)
            << 48u64) | (((((x >> 40u64) as u8) as u64) << 40u64) | (((((x >> 32u64) as u8) as u64)
            << 32u64) | (((((x >> 24u64) as u8) as u64) << 24u64) | (((((x >> 16u64) as u8) as u64)
            << 16u64) | (((((x >> 8u64) as u8) as u64) << 8u64) | 0u64)))))),
        nn == 8 ==> w == ((((x >> 56u64) as u8) as u64) << 56u64) | (((((x >> 48u64) as u8) as u64)
            << 48u64) | (((((x >> 40u64) as u8) as u64) << 40u64) | (((((x >> 32u64) as u8) as u64)
            << 32u64) | (((((x >> 24u64) as u8) as u64) << 24u64) | (((((x >> 16u64) as u8) as u64)
            << 16u64) | (((((x >> 8u64) as u8) as u64) << 8u64) | (((((x >> 0u64) as u8) as u64)
            << 0u64) | 0u64))))))),
    ensures
        nn == 0 ==> w == 0u64,
        nn == 1 ==> w == (x & 0xFF00000000000000u64),
        nn == 2 ==> w == (x & 0xFFFF000000000000u64),
        nn == 3 ==> w == (x & 0xFFFFFF0000000000u64),
        nn == 4 ==> w == (x & 0xFFFFFFFF00000000u64),
        nn == 5 ==> w == (x & 0xFFFFFFFFFF000000u64),
        nn == 6 ==> w == (x & 0xFFFFFFFFFFFF0000u64),
        nn == 7 ==> w == (x & 0xFFFFFFFFFFFFFF00u64),
        nn == 8 ==> w == x,
{
}

/// Reading back the bytes of the word built from a short byte sequence
/// gives the sequence itself.
pub proof fn lemma_high_bytes_of_be_word(s: Seq<u8>)
    requires
        s.len() <= 8,
    ensures
        high_bytes(be_word(s), s.len() as int) == s,
{
    reveal_with_fuel(be_word_at, 9);
    let n = s.len() as int;
    let w = be_word(s);
    let b0: u8 = if n > 0 { s[0] } else { 0 };
    let b1: u8 = if n > 1 { s[1] } else { 0 };
    let b2: u8 = if n > 2 { s[2] } else { 0 };
    let b3: u8 = if n > 3 { s[3] } else { 0 };
    let b4: u8 = if n > 4 { s[4] } else { 0 };
    let b5: u8 = if n > 5 { s[5] } else { 0 };
    let b6: u8 = if n > 6 { s[6] } else { 0 };
    let b7: u8 = if n > 7 { s[7] } else { 0 };
    bv_extract(w, b0, b1, b2, b3, b4, b5, b6, b7, n as u64);
    assert forall|i: int| 0 <= i < n implies high_bytes(w, n)[i] == s[i] by {
        assert(high_bytes(w, n)[i] == byte_of(w, i));
    }
    assert(high_bytes(w, n) =~= s);
}

/// The bytes of the word built from a short byte sequence below the data
/// bytes are zero: the word is confined to its top `s.len()` bytes.
pub proof fn lemma_be_word_low_zero(s: Seq<u8>)
    requires
        s.len() <= 8,
    ensures
        be_word(s) & low_mask(s.len() as int) == 0u64,
{
    reveal_with_fuel(be_word_at, 9);
    let n = s.len() as int;
    let w = be_word(s);
    let b0: u8 = if n > 0 { s[0] } else { 0 };
    let b1: u8 = if n > 1 { s[1] } else { 0 };
    let b2: u8 = if n > 2 { s[2] } else { 0 };
    let b3: u8 = if n > 3 { s[3] } else { 0 };
    let b4: u8 = if n > 4 { s[4] } else { 0 };
    let b5: u8 = if n > 5 { s[5] } else { 0 };
    let b6: u8 = if n > 6 { s[6] } else { 0 };
    let b7: u8 = if n > 7 { s[7] } else { 0 };
    bv_extract(w, b0, b1, b2, b3, b4, b5, b6, b7, n as u64);
    if n == 0 {
        assert(0u64 & 0xFFFFFFFFFFFFFFFFu64 == 0u64) by (bit_vector);
    }
    if n == 8 {
        assert(w & 0u64 == 0u64) by (bit_vector);
    }
}

/// Building a word back from the top `n` bytes of `x` gives `x` masked to
/// those bytes.
pub proof fn lemma_be_word_of_high_bytes(x: u64, n: int)
    requires
        0 <= n <= 8,
    ensures
        be_word(high_bytes(x, n)) == (x & high_mask(n)),
{
    reveal_with_fuel(be_word_at, 9);
    let s = high_bytes(x, n);
    let w = be_word(s);
    bv_compose(x, w, n as u64);
    if n == 0 {
        assert(x & 0u64 == 0u64) by (bit_vector);
    }
    if n == 8 {
        lemma_bit_basics();
        assert(x & 0xFFFFFFFFFFFFFFFFu64 == x);
    }
}

/// Read `len` bytes of `s` starting at `off` into a word, left-justified:
/// the first byte read becomes the most significant byte.
pub fn load_word(s: &[u8], off: usize, len: usize) -> (r: u64)
    requires
        len <= 8,
        off + len <= s@.len(),
    ensures
        r == be_word(s@.subrange(off as int, off as int + len as int)),
{
    let slen: usize = s.len();
    let ghost t = s@.subrange(off as int, off as int + len as int);
    let mut r: u64 = 0;
    let mut j: usize = len;
    while j > 0
        invariant
            len <= 8,
            off + len <= s@.len(),
            s@.len() <= usize::MAX,
            j <= len,
            t == s@.subrange(off as int, off as int + len as int),
            r == be_word_at(t, j as int),
        decreases j,
    {
        j = j - 1;
        r = ((s[off + j] as u64) << (56 - 8 * (j as u64))) | r;
    }
    r
}

/// Write the top `len` bytes of `x` into `v` at `off`, most significant
/// byte first, leaving the rest of the buffer unchanged.
pub fn store_word(v: &mut Vec<u8>, off: usize, len: usize, x: u64)
    requires
        len <= 8,
        off + len <= old(v)@.len(),
    ensures
        final(v)@.len() == old(v)@.len(),
        forall|k: int|
            0 <= k < old(v)@.len() && !(off <= k < off + len) ==> final(v)@[k] == old(v)@[k],
        final(v)@.subrange(off as int, off as int + len as int) == high_bytes(x, len as int),
{
    let vlen: usize = v.len();
    let mut i: usize = 0;
    while i < len
        invariant
            len <= 8,
            off + len <= v@.len(),
            v@.len() <= usize::MAX,
            v@.len() == old(v)@.len(),
            i <= len,
            forall|k: int|
                0 <= k < v@.len() && !(off <= k < off + i) ==> v@[k] == old(v)@[k],
            forall|k: int| 0 <= k < i ==> v@[off + k] == byte_of(x, k),
        decreases len - i,
    {
        v[off + i] = #[verifier::truncate] ((x >> (56 - 8 * (i as u64))) as u8);
        i = i + 1;
    }
    proof {
        assert(v@.subrange(off as int, off as int + len as int) =~= high_bytes(x, len as int));
    }
}

} // verus!

//! The five-word permutation state and its round function.

use crate::params::Parameters;
use core::marker::PhantomData;
use vstd::prelude::*;

verus! {

/// The five 64-bit words of the permutation state, as a mathematical
/// value: the state of the exec permutation is viewed as one of these.
pub struct Words {
    pub x0: u64,
    pub x1: u64,
    pub x2: u64,
    pub x3: u64,
    pub x4: u64,
}

/// Rotate `x` right by `n` bits.
pub open spec fn rotr_spec(x: u64, n: u64) -> u64
    recommends
        0 < n < 64,
{
    (x >> n) | (x << ((64 - n) as u64))
}

/// One round of the permutation with round constant `c`: the nonlinear
/// substitution layer followed by the linear diffusion layer.
#[verifier::opaque]
pub open spec fn spec_round(w: Words, c: u64) -> Words {
    let x0 = w.x0 ^ w.x4;
    let x1 = w.x1;
    let x2 = w.x2 ^ (w.x1 ^ c);
    let x3 = w.x3;
    let x4 = w.x4 ^ w.x3;
    let s0 = x0 ^ ((!x1) & x2);
    let s1 = x1 ^ ((!x2) & x3);
    let s2 = x2 ^ ((!x3) & x4);
    let s3 = x3 ^ ((!x4) & x0);
    let s4 = x4 ^ ((!x0) & x1);
    let t1 = s1 ^ s0;
    let t3 = s3 ^ s2;
    let t0 = s0 ^ s4;
    Words {
        x0: t0 ^ rotr_spec(t0 ^ rotr_spec(t0, 9), 19),
        x1: t1 ^ rotr_spec(t1 ^ rotr_spec(t1, 22), 39),
        x2: !(s2 ^ rotr_spec(s2 ^ rotr_spec(s2, 5), 1)),
        x3: t3 ^ rotr_spec(t3 ^ rotr_spec(t3, 7), 10),
        x4: s4 ^ rotr_spec(s4 ^ rotr_spec(s4, 34), 7),
    }
}

/// The 12-round permutation, used at initialization and finalization.
#[verifier::opaque]
pub open spec fn spec_permute_12(w: Words) -> Words {
    let w1 = spec_round(w, 0xf0);
    let w2 = spec_round(w1, 0xe1);
    let w3 = spec_round(w2, 0xd2);
    let w4 = spec_round(w3, 0xc3);
    let w5 = spec_round(w4, 0xb4);
    let w6 = spec_round(w5, 0xa5);
    let w7 = spec_round(w6, 0x96);
    let w8 = spec_round(w7, 0x87);
    let w9 = spec_round(w8, 0x78);
    let w10 = spec_round(w9, 0x69);
    let w11 = spec_round(w10, 0x5a);
    spec_round(w11, 0x4b)
}

/// The 8-round permutation: the last 8 rounds of the 12-round schedule.
#[verifier::opaque]
pub open spec fn spec_permute_8(w: Words) -> Words {
    let w1 = spec_round(w, 0xb4);
    let w2 = spec_round(w1, 0xa5);
    let w3 = spec_round(w2, 0x96);
    let w4 = spec_round(w3, 0x87);
    let w5 = spec_round(w4, 0x78);
    let w6 = spec_round(w5, 0x69);
    let w7 = spec_round(w6, 0x5a);
    spec_round(w7, 0x4b)
}

/// The 6-round permutation: the last 6 rounds of the 12-round schedule.
#[verifier::opaque]
pub open spec fn spec_permute_6(w: Words) -> Words {
    let w1 = spec_round(w, 0x96);
    let w2 = spec_round(w1, 0x87);
    let w3 = spec_round(w2, 0x78);
    let w4 = spec_round(w3, 0x69);
    let w5 = spec_round(w4, 0x5a);
    spec_round(w5, 0x4b)
}

/// The intermediate permutation of a variant: 6 rounds at rate 8, 8 rounds
/// at rate 16.
pub open spec fn spec_permute_rate(w: Words, rate: u64) -> Words {
    if rate == 8 {
        spec_permute_6(w)
    } else {
        spec_permute_8(w)
    }
}

/// Rotate `x` right by `n` bits.
fn rotr(x: u64, n: u64) -> (r: u64)
    requires
        0 < n < 64,
    ensures
        r == rotr_spec(x, n),
{
    (x >> n) | (x << (64 - n))
}

/// The state of the sponge permutation.
pub struct State<P: Parameters> {
    pub x0: u64,
    pub x1: u64,
    pub x2: u64,
    pub x3: u64,
    pub x4: u64,
    pub parameters: PhantomData<P>,
}

impl<P: Parameters> View for State<P> {
    type V = Words;

    open spec fn view(&self) -> Words {
        Words { x0: self.x0, x1: self.x1, x2: self.x2, x3: self.x3, x4: self.x4 }
    }
}

impl<P: Parameters> State<P> {
    /// Permute with a single round using round constant `c`.
    pub fn round(&mut self, c: u64)
        ensures
            final(self)@ == spec_round(old(self)@, c),
    {
        proof {
            reveal(spec_round);
        }
        self.x0 = self.x0 ^ self.x4;
        self.x2 = self.x2 ^ (self.x1 ^ c);
        self.x4 = self.x4 ^ self.x3;

        let s0: u64 = self.x0 ^ ((!self.x1) & self.x2);
        let s1: u64 = self.x1 ^ ((!self.x2) & self.x3);
        let s2: u64 = self.x2 ^ ((!self.x3) & self.x4);
        let s3: u64 = self.x3 ^ ((!self.x4) & self.x0);
        let s4: u64 = self.x4 ^ ((!self.x0) & self.x1);
        let t1: u64 = s1 ^ s0;
        let t3: u64 = s3 ^ s2;
        let t0: u64 = s0 ^ s4;

        self.x0 = t0 ^ rotr(t0 ^ rotr(t0, 9), 19);
        self.x1 = t1 ^ rotr(t1 ^ rotr(t1, 22), 39);
        self.x2 = !(s2 ^ rotr(s2 ^ rotr(s2, 5), 1));
        self.x3 = t3 ^ rotr(t3 ^ rotr(t3, 7), 10);
        self.x4 = s4 ^ rotr(s4 ^ rotr(s4, 34), 7);
    }

    /// Permutation with 12 rounds.
    pub fn permute_12(&mut self)
        ensures
            final(self)@ == spec_permute_12(old(self)@),
    {
        proof {
            reveal(spec_permute_12);
        }
        self.round(0xf0);
        self.round(0xe1);
        self.round(0xd2);
        self.round(0xc3);
        self.round(0xb4);
        self.round(0xa5);
        self.round(0x96);
        self.round(0x87);
        self.round(0x78);
        self.round(0x69);
        self.round(0x5a);
        self.round(0x4b);
    }

    /// Permutation with 8 rounds.
    pub fn permute_8(&mut self)
        ensures
            final(self)@ == spec_permute_8(old(self)@),
    {
        proof {
            reveal(spec_permute_8);
        }
        self.round(0xb4);
        self.round(0xa5);
        self.round(0x96);
        self.round(0x87);
        self.round(0x78);
        self.round(0x69);
        self.round(0x5a);
        self.round(0x4b);
    }

    /// Permutation with 6 rounds.
    pub fn permute_6(&mut self)
        ensures
            final(self)@ == spec_permute_6(old(self)@),
    {
        proof {
            reveal(spec_permute_6);
        }
        self.round(0x96);
        self.round(0x87);
        self.round(0x78);
        self.round(0x69);
        self.round(0x5a);
        self.round(0x4b);
    }

    /// The intermediate permutation of the variant.
    pub fn permute(&mut self)
        ensures
            final(self)@ == spec_permute_rate(old(self)@, P::rate()),
    {
        if P::count() == 8 {
            self.permute_6();
        } else {
            self.permute_8();
        }
    }
}

} // verus!

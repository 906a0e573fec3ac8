//! Parameters of the two cipher variants.

use vstd::prelude::*;

verus! {

/// Static description of a variant: the processing rate in bytes and the
/// 64-bit initialization constant placed in the first state word.
pub trait Parameters {
    /// Processing rate in bytes: how many data bytes each block carries.
    spec fn rate() -> u64;

    /// Initialization constant.
    spec fn iv() -> u64;

    /// Only the two rates of 8 and 16 bytes exist.
    proof fn rate_is_8_or_16()
        ensures
            Self::rate() == 8 || Self::rate() == 16,
    ;

    /// Number of bytes to process per block.
    fn count() -> (r: usize)
        ensures
            r as u64 == Self::rate(),
    ;

    /// Initialization constant.
    fn iv_word() -> (r: u64)
        ensures
            r == Self::iv(),
    ;
}

/// The rate-8 variant, using the 6-round intermediate permutation.
pub struct Parameters128;

impl Parameters for Parameters128 {
    open spec fn rate() -> u64 {
        8
    }

    open spec fn iv() -> u64 {
        0x80400c0600000000
    }

    proof fn rate_is_8_or_16() {
    }

    fn count() -> (r: usize) {
        8
    }

    fn iv_word() -> (r: u64) {
        0x80400c0600000000
    }
}

/// The rate-16 variant, using the 8-round intermediate permutation.
pub struct Parameters128A;

impl Parameters for Parameters128A {
    open spec fn rate() -> u64 {
        16
    }

    open spec fn iv() -> u64 {
        0x80800c0800000000
    }

    proof fn rate_is_8_or_16() {
    }

    fn count() -> (r: usize) {
        16
    }

    fn iv_word() -> (r: u64) {
        0x80800c0800000000
    }
}

} // verus!

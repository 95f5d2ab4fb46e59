//! The closed set of unsigned integer types that can hold one word's bitfields.
use vstd::prelude::*;

verus! {

/// `256` to the power `n`: the number of values of an `n`-byte unsigned integer.
pub open spec fn pow256(n: nat) -> nat
    decreases n,
{
    if n == 0 {
        1
    } else {
        256 * pow256((n - 1) as nat)
    }
}

/// `pow256` grows with its exponent.
pub proof fn lemma_pow256_monotonic(m: nat, n: nat)
    requires
        m <= n,
    ensures
        pow256(m) <= pow256(n),
    decreases n,
{
    if m < n {
        lemma_pow256_monotonic(m, (n - 1) as nat);
    }
}

/// Sixteen bytes span exactly the range of `u128`.
pub proof fn lemma_pow256_16()
    ensures
        pow256(16) == u128::MAX + 1,
{
    reveal_with_fuel(pow256, 17);
}

/// An unsigned integer type of width 8, 16, 32, 64 or 128 bits, used as the
/// storage of the three bitfields of a four-state word.
pub trait Payload: Copy + Sized {
    /// The width in bits.
    spec fn width() -> nat;

    /// The value as a `u128`.
    spec fn bits(self) -> u128;

    /// The width is one of the supported sizes.
    proof fn lemma_width()
        ensures
            Self::width() == 8 || Self::width() == 16 || Self::width() == 32 || Self::width()
                == 64 || Self::width() == 128,
    ;

    /// The width in bits.
    fn bit_width() -> (r: u32)
        ensures
            r as nat == Self::width(),
    ;

    /// The value, widened to `u128`.
    fn to_bits(self) -> (r: u128)
        ensures
            r == self.bits(),
            (r as nat) < pow256(Self::width() / 8),
    ;

    /// The value of the given bits, which must fit in the width.
    fn from_bits(b: u128) -> (r: Self)
        requires
            (b as nat) < pow256(Self::width() / 8),
        ensures
            r.bits() == b,
    ;
}

impl Payload for u8 {
    open spec fn width() -> nat {
        8
    }

    open spec fn bits(self) -> u128 {
        self as u128
    }

    proof fn lemma_width() {
    }

    fn bit_width() -> (r: u32) {
        8
    }

    fn to_bits(self) -> (r: u128) {
        proof {
            reveal_with_fuel(pow256, 2);
        }
        self as u128
    }

    fn from_bits(b: u128) -> (r: Self) {
        proof {
            reveal_with_fuel(pow256, 2);
        }
        b as u8
    }
}

impl Payload for u16 {
    open spec fn width() -> nat {
        16
    }

    open spec fn bits(self) -> u128 {
        self as u128
    }

    proof fn lemma_width() {
    }

    fn bit_width() -> (r: u32) {
        16
    }

    fn to_bits(self) -> (r: u128) {
        proof {
            reveal_with_fuel(pow256, 3);
        }
        self as u128
    }

    fn from_bits(b: u128) -> (r: Self) {
        proof {
            reveal_with_fuel(pow256, 3);
        }
        b as u16
    }
}

impl Payload for u32 {
    open spec fn width() -> nat {
        32
    }

    open spec fn bits(self) -> u128 {
        self as u128
    }

    proof fn lemma_width() {
    }

    fn bit_width() -> (r: u32) {
        32
    }

    fn to_bits(self) -> (r: u128) {
        proof {
            reveal_with_fuel(pow256, 5);
        }
        self as u128
    }

    fn from_bits(b: u128) -> (r: Self) {
        proof {
            reveal_with_fuel(pow256, 5);
        }
        b as u32
    }
}

impl Payload for u64 {
    open spec fn width() -> nat {
        64
    }

    open spec fn bits(self) -> u128 {
        self as u128
    }

    proof fn lemma_width() {
    }

    fn bit_width() -> (r: u32) {
        64
    }

    fn to_bits(self) -> (r: u128) {
        proof {
            reveal_with_fuel(pow256, 9);
        }
        self as u128
    }

    fn from_bits(b: u128) -> (r: Self) {
        proof {
            reveal_with_fuel(pow256, 9);
        }
        b as u64
    }
}

impl Payload for u128 {
    open spec fn width() -> nat {
        128
    }

    open spec fn bits(self) -> u128 {
        self
    }

    proof fn lemma_width() {
    }

    fn bit_width() -> (r: u32) {
        128
    }

    fn to_bits(self) -> (r: u128) {
        proof {
            lemma_pow256_16();
        }
        self
    }

    fn from_bits(b: u128) -> (r: Self) {
        proof {
            lemma_pow256_16();
        }
        b
    }
}

} // verus!

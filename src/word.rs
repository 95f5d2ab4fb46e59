//! The four-state word and its binary and hexadecimal renderings.
use vstd::prelude::*;

use crate::payload::Payload;

verus! {

/// The logical state of one bit position.
#[derive(Clone, Copy, Debug, PartialEq, Eq, Structural)]
pub enum Logic {
    Zero,
    One,
    Unknown,
    HighZ,
}

/// Whether bit `p` of `x` is set.
pub open spec fn bit_set(x: u128, p: int) -> bool {
    (x >> (p as u128)) & 1u128 == 1u128
}

/// The state of bit `p` from the value, high-impedance and unknown masks:
/// high impedance wins over unknown, which wins over the value bit.
pub open spec fn logic_at(v: u128, z: u128, x: u128, p: int) -> Logic {
    if bit_set(z, p) {
        Logic::HighZ
    } else if bit_set(x, p) {
        Logic::Unknown
    } else if bit_set(v, p) {
        Logic::One
    } else {
        Logic::Zero
    }
}

/// The character of one bit in a binary rendering.
pub open spec fn logic_char(l: Logic) -> char {
    match l {
        Logic::Zero => '0',
        Logic::One => '1',
        Logic::Unknown => 'x',
        Logic::HighZ => 'z',
    }
}

/// The four bits of `x` that start at bit `4 * n`.
pub open spec fn nibble(x: u128, n: int) -> u128 {
    (x >> ((4 * n) as u128)) & 0xfu128
}

/// The lowercase hexadecimal digit of `d`, for `d < 16`.
pub open spec fn hex_digit(d: u128) -> char {
    seq!['0', '1', '2', '3', '4', '5', '6', '7', '8', '9', 'a', 'b', 'c', 'd', 'e', 'f'][d as int]
}

/// The character of one nibble in a hexadecimal rendering, from its value,
/// high-impedance and unknown slices: `z` or `x` when all four bits are in
/// that state, `Z` or `X` when some are, high impedance first.
pub open spec fn nibble_char(v: u128, z: u128, x: u128) -> char {
    if z == 0xf {
        'z'
    } else if z != 0 {
        'Z'
    } else if x == 0xf {
        'x'
    } else if x != 0 {
        'X'
    } else {
        hex_digit(v)
    }
}

/// `0` followed by `radix` in the alternate form, nothing otherwise.
pub open spec fn prefix(alternate: bool, radix: char) -> Seq<char> {
    if alternate {
        seq!['0', radix]
    } else {
        seq![]
    }
}

/// A word of four-state logic: `v` holds the binary value, a set bit of `z`
/// marks high impedance and a set bit of `x` marks an unknown state.
#[derive(Clone, Copy, Debug)]
pub struct Sv4State<T: Payload> {
    pub v: T,
    pub z: T,
    pub x: T,
}

impl<T: Payload> Sv4State<T> {
    /// The state of bit `p`.
    pub open spec fn state(self, p: int) -> Logic {
        logic_at(self.v.bits(), self.z.bits(), self.x.bits(), p)
    }

    /// The binary rendering: one character per bit, most significant first.
    pub open spec fn binary_view(self, alternate: bool) -> Seq<char> {
        prefix(alternate, 'b') + Seq::new(
            T::width(),
            |k: int| logic_char(self.state(T::width() - 1 - k)),
        )
    }

    /// The character of nibble `n` in the hexadecimal rendering.
    pub open spec fn nibble_view(self, n: int) -> char {
        nibble_char(nibble(self.v.bits(), n), nibble(self.z.bits(), n), nibble(self.x.bits(), n))
    }

    /// The hexadecimal rendering: one character per nibble, most significant first.
    pub open spec fn hex_view(self, alternate: bool) -> Seq<char> {
        prefix(alternate, 'x') + Seq::new(
            T::width() / 4,
            |k: int| self.nibble_view(T::width() / 4 - 1 - k),
        )
    }

    /// Renders the word in binary, with a `0b` prefix in the alternate form.
    pub fn to_binary(&self, alternate: bool) -> (r: String)
        ensures
            r@ == self.binary_view(alternate),
    {
        let w = T::bit_width();
        let v = self.v.to_bits();
        let z = self.z.to_bits();
        let x = self.x.to_bits();
        let mut s = if alternate {
            String::from_str("0b")
        } else {
            String::new()
        };
        proof {
            reveal_strlit("0b");
            T::lemma_width();
        }
        let mut i: u32 = 0;
        while i < w
            invariant
                w as nat == T::width(),
                w <= 128,
                i <= w,
                v == self.v.bits(),
                z == self.z.bits(),
                x == self.x.bits(),
                s@ == prefix(alternate, 'b') + Seq::new(
                    i as nat,
                    |k: int| logic_char(self.state(T::width() - 1 - k)),
                ),
            decreases w - i,
        {
            let shift = (w - 1 - i) as u128;
            let c = if (z >> shift) & 1 == 1 {
                "z"
            } else if (x >> shift) & 1 == 1 {
                "x"
            } else if (v >> shift) & 1 == 1 {
                "1"
            } else {
                "0"
            };
            proof {
                reveal_strlit("z");
                reveal_strlit("x");
                reveal_strlit("1");
                reveal_strlit("0");
            }
            assert(c@ =~= seq![logic_char(self.state(T::width() - 1 - i))]);
            s.append(c);
            i = i + 1;
            assert(s@ =~= prefix(alternate, 'b') + Seq::new(
                i as nat,
                |k: int| logic_char(self.state(T::width() - 1 - k)),
            ));
        }
        s
    }

    /// Renders the word in hexadecimal, with a `0x` prefix in the alternate form.
    pub fn to_lower_hex(&self, alternate: bool) -> (r: String)
        ensures
            r@ == self.hex_view(alternate),
    {
        let w = T::bit_width();
        let v = self.v.to_bits();
        let z = self.z.to_bits();
        let x = self.x.to_bits();
        let digits = "0123456789abcdef";
        let mut s = if alternate {
            String::from_str("0x")
        } else {
            String::new()
        };
        proof {
            reveal_strlit("0x");
            T::lemma_width();
        }
        let n = w / 4;
        let mut i: u32 = 0;
        while i < n
            invariant
                w as nat == T::width(),
                n == w / 4,
                w <= 128,
                i <= n,
                v == self.v.bits(),
                z == self.z.bits(),
                x == self.x.bits(),
                digits@ == "0123456789abcdef"@,
                s@ == prefix(alternate, 'x') + Seq::new(
                    i as nat,
                    |k: int| self.nibble_view(T::width() / 4 - 1 - k),
                ),
            decreases n - i,
        {
            proof {
                reveal_strlit("z");
                reveal_strlit("Z");
                reveal_strlit("x");
                reveal_strlit("X");
                reveal_strlit("0123456789abcdef");
            }
            let shift = (4 * (n - 1 - i)) as u128;
            let nv = (v >> shift) & 0xf;
            let nz = (z >> shift) & 0xf;
            let nx = (x >> shift) & 0xf;
            assert(nv < 16) by (bit_vector)
                requires
                    nv == (v >> shift) & 0xf,
            ;
            let c = if nz == 0xf {
                "z"
            } else if nz != 0 {
                "Z"
            } else if nx == 0xf {
                "x"
            } else if nx != 0 {
                "X"
            } else {
                digits.substring_ascii(nv as usize, nv as usize + 1)
            };
            assert(c@ =~= seq![self.nibble_view(T::width() / 4 - 1 - i)]);
            s.append(c);
            i = i + 1;
            assert(s@ =~= prefix(alternate, 'x') + Seq::new(
                i as nat,
                |k: int| self.nibble_view(T::width() / 4 - 1 - k),
            ));
        }
        s
    }
}

} // verus!

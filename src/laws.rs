//! What holds of every decoding: the state of each decoded bit is the state
//! that the two planes give the matching bit of the packed vector, bits past
//! the input are zero, and the renderers show those states.
use vstd::arithmetic::div_mod::lemma_fundamental_div_mod_converse;
use vstd::prelude::*;

use crate::dpi::{
    byte_or_zero, decodes_to, decodes_word, group, le_value, lemma_le_value_bound, plane,
    plane_byte, word_count,
};
use crate::payload::{lemma_pow256_monotonic, pow256, Payload};
use crate::word::{bit_set, logic_char, nibble, prefix, Logic, Sv4State};

verus! {

/// Bit `p` of a byte followed by higher bytes `rest`.
proof fn lemma_bit_of_le_step(b0: u128, rest: u128, p: u128)
    by (bit_vector)
    requires
        b0 < 256,
        rest < 0x1000000000000000000000000000000,
        p < 128,
    ensures
        (((b0 + rest * 256) as u128 >> p) & 1 == 1) == (if p < 8 {
            (b0 >> p) & 1 == 1
        } else {
            (rest >> (p - 8) as u128) & 1 == 1
        }),
{
}

/// Bit `j` of a byte cut from `w` at bit `sh` is bit `sh + j` of `w`.
proof fn lemma_bit_of_byte(w: u64, sh: u64, j: u128)
    by (bit_vector)
    requires
        sh <= 56,
        j < 8,
    ensures
        ((((w >> sh) & 0xffu64) as u8 as u128 >> j) & 1 == 1) == (((w as u128) >> (sh
            + j) as u128) & 1 == 1),
{
}

/// Bits of the three combinations of two masks.
proof fn lemma_bits_of_masks(a: u128, b: u128, p: u128)
    by (bit_vector)
    requires
        p < 128,
    ensures
        (((a & !b) >> p) & 1 == 1) == (((a >> p) & 1 == 1) && !((b >> p) & 1 == 1)),
        (((b & !a) >> p) & 1 == 1) == (((b >> p) & 1 == 1) && !((a >> p) & 1 == 1)),
        (((a & b) >> p) & 1 == 1) == (((a >> p) & 1 == 1) && ((b >> p) & 1 == 1)),
{
}

/// Bit `p` of a little-endian number is bit `p % 8` of its byte `p / 8`.
proof fn lemma_bit_of_le_value(s: Seq<u8>, start: int, n: nat, p: int)
    requires
        n <= 16,
        0 <= p < 8 * n,
    ensures
        bit_set(le_value(s, start, n) as u128, p) == bit_set(
            byte_or_zero(s, start + p / 8) as u128,
            p % 8,
        ),
    decreases n,
{
    let b0 = byte_or_zero(s, start) as u128;
    let rest = le_value(s, start + 1, (n - 1) as nat);
    lemma_le_value_bound(s, start + 1, (n - 1) as nat);
    lemma_pow256_monotonic((n - 1) as nat, 15);
    reveal_with_fuel(pow256, 16);
    assert(pow256(15) == 0x1000000000000000000000000000000);
    lemma_bit_of_le_step(b0, rest as u128, p as u128);
    if p >= 8 {
        lemma_bit_of_le_value(s, start + 1, (n - 1) as nat, p - 8);
    }
}

/// Whether logical bit `q` of a packed vector is set in the a-plane, or in
/// the b-plane when `upper`.
pub open spec fn packed_bit(data: Seq<u64>, q: int, upper: bool) -> bool {
    bit_set(data[q / 32] as u128, q % 32 + if upper {
        32int
    } else {
        0int
    })
}

/// The state of logical bit `q` of a packed vector: `(a, b)` reads `(0, 0)`
/// as 0, `(1, 0)` as 1, `(0, 1)` as Z and `(1, 1)` as X.
pub open spec fn packed_state(data: Seq<u64>, q: int) -> Logic {
    let a = packed_bit(data, q, false);
    let b = packed_bit(data, q, true);
    if a && b {
        Logic::Unknown
    } else if b {
        Logic::HighZ
    } else if a {
        Logic::One
    } else {
        Logic::Zero
    }
}

/// The widths of the supported payload types.
pub open spec fn supported_width(width: nat) -> bool {
    width == 8 || width == 16 || width == 32 || width == 64 || width == 128
}

/// No bit of zero is set.
proof fn lemma_zero_has_no_bits(p: u128)
    by (bit_vector)
    ensures
        !((0u128 >> p) & 1 == 1),
{
}

/// Bit `p` of group `i` of a plane is the plane bit of logical bit
/// `i * width + p`, or clear past the end of the input.
proof fn lemma_group_bit(data: Seq<u64>, upper: bool, i: int, width: nat, p: int)
    requires
        supported_width(width),
        0 <= i,
        0 <= p < width,
    ensures
        bit_set(group(plane(data, upper), i, width), p) == (i * width + p < 32 * data.len()
            && packed_bit(data, i * width + p, upper)),
{
    let gb = width / 8;
    let s = plane(data, upper);
    let k = i * gb + p / 8;
    let q = i * width + p;
    lemma_bit_of_le_value(s, i * gb, gb, p);
    assert(i * width == 8 * (i * gb)) by (nonlinear_arith)
        requires
            width == 8 * gb,
    ;
    lemma_fundamental_div_mod_converse(q, 8, k, p % 8);
    lemma_fundamental_div_mod_converse(q, 32, k / 4, 8 * (k % 4) + p % 8);
    let off: int = if upper {
        32
    } else {
        0
    };
    if k < 4 * data.len() {
        assert(byte_or_zero(s, k) == plane_byte(data[k / 4], upper, k % 4));
        lemma_bit_of_byte(data[k / 4], (8 * (k % 4) + off) as u64, (p % 8) as u128);
    } else {
        lemma_zero_has_no_bits((p % 8) as u128);
    }
}

/// A set bit makes the nibble that holds it nonzero.
proof fn lemma_bit_in_nibble(x: u128, base: u128, j: u128)
    by (bit_vector)
    requires
        j < 4,
        base + j < 128,
        (x >> (base + j)) & 1 == 1,
    ensures
        (x >> base) & 0xf != 0,
{
}

/// Masks with two clear planes have no bit set.
proof fn lemma_masks_of_clear_plane(a: u128)
    by (bit_vector)
    ensures
        a & !0u128 == a,
        0u128 & !a == 0,
        a & 0u128 == 0,
{
}

/// A b-plane byte of a word whose b-plane is clear is zero.
proof fn lemma_clear_plane_byte(w: u64, sh: u64)
    by (bit_vector)
    requires
        w >> 32u64 == 0,
        32 <= sh <= 56,
    ensures
        ((w >> sh) & 0xffu64) as u8 == 0,
{
}

/// The number formed by zero bytes is zero.
proof fn lemma_le_value_of_zeros(s: Seq<u8>, start: int, n: nat)
    requires
        forall|k: int| 0 <= k < s.len() ==> s[k] == 0,
    ensures
        le_value(s, start, n) == 0,
    decreases n,
{
    if n > 0 {
        lemma_le_value_of_zeros(s, start + 1, (n - 1) as nat);
    }
}

/// Logical bit `q` of the input falls in a decoded word.
proof fn lemma_bit_in_some_word(len: nat, width: nat, q: int)
    requires
        supported_width(width),
        0 <= q < 32 * len,
    ensures
        q / (width as int) < word_count(len, width),
        q == (q / (width as int)) * width + q % (width as int),
        0 <= q % (width as int) < width,
{
}

/// Every decoded bit has the state that the two planes give the matching
/// logical bit of the packed vector; a bit past the end of the input, which
/// only the last word can hold, is 0.
pub proof fn lemma_decoded_state<T: Payload>(data: Seq<u64>, words: Seq<Sv4State<T>>, i: int, p: int)
    requires
        decodes_to(data, words),
        0 <= i < words.len(),
        0 <= p < T::width(),
    ensures
        words[i].state(p) == if i * T::width() + p < 32 * data.len() {
            packed_state(data, i * T::width() + p)
        } else {
            Logic::Zero
        },
{
    T::lemma_width();
    assert(decodes_word(data, words, i));
    let a = group(plane(data, false), i, T::width());
    let b = group(plane(data, true), i, T::width());
    lemma_group_bit(data, false, i, T::width(), p);
    lemma_group_bit(data, true, i, T::width(), p);
    lemma_bits_of_masks(a, b, p as u128);
}

/// Where the input leaves off, a decoded word is padded with bits that are
/// clear in all three masks, so they read as 0 and never as X or Z.
pub proof fn lemma_tail_is_zero<T: Payload>(data: Seq<u64>, words: Seq<Sv4State<T>>, i: int, p: int)
    requires
        decodes_to(data, words),
        0 <= i < words.len(),
        0 <= p < T::width(),
        i * T::width() + p >= 32 * data.len(),
    ensures
        !bit_set(words[i].v.bits(), p),
        !bit_set(words[i].z.bits(), p),
        !bit_set(words[i].x.bits(), p),
        words[i].state(p) == Logic::Zero,
{
    lemma_decoded_state(data, words, i, p);
    T::lemma_width();
    assert(decodes_word(data, words, i));
    let a = group(plane(data, false), i, T::width());
    let b = group(plane(data, true), i, T::width());
    lemma_group_bit(data, false, i, T::width(), p);
    lemma_group_bit(data, true, i, T::width(), p);
    lemma_bits_of_masks(a, b, p as u128);
}

/// When every b-plane bit of the input is clear, each decoded word holds the
/// a-plane bits of its group as its value and has no high-impedance or
/// unknown bit.
pub proof fn lemma_b_plane_clear<T: Payload>(data: Seq<u64>, words: Seq<Sv4State<T>>)
    requires
        decodes_to(data, words),
        forall|k: int| 0 <= k < data.len() ==> #[trigger] data[k] >> 32u64 == 0,
    ensures
        forall|i: int|
            0 <= i < words.len() ==> {
                &&& (#[trigger] words[i]).v.bits() == group(plane(data, false), i, T::width())
                &&& words[i].z.bits() == 0
                &&& words[i].x.bits() == 0
            },
{
    let b_plane = plane(data, true);
    assert forall|k: int| 0 <= k < b_plane.len() implies b_plane[k] == 0 by {
        lemma_clear_plane_byte(data[k / 4], (8 * (k % 4) + 32) as u64);
    }
    assert forall|i: int| 0 <= i < words.len() implies {
        &&& (#[trigger] words[i]).v.bits() == group(plane(data, false), i, T::width())
        &&& words[i].z.bits() == 0
        &&& words[i].x.bits() == 0
    } by {
        assert(decodes_word(data, words, i));
        lemma_le_value_of_zeros(b_plane, i * (T::width() / 8), T::width() / 8);
        lemma_masks_of_clear_plane(group(plane(data, false), i, T::width()));
    }
}

/// A logical bit whose b-plane bit is set and a-plane bit clear decodes to
/// high impedance: `z` in the binary rendering, and its nibble renders as
/// `z` or `Z` in hexadecimal.
pub proof fn lemma_high_z_renders<T: Payload>(
    data: Seq<u64>,
    words: Seq<Sv4State<T>>,
    q: int,
    alternate: bool,
)
    requires
        decodes_to(data, words),
        0 <= q < 32 * data.len(),
        !packed_bit(data, q, false),
        packed_bit(data, q, true),
    ensures
        q / (T::width() as int) < words.len(),
        words[q / (T::width() as int)].state(q % (T::width() as int)) == Logic::HighZ,
        words[q / (T::width() as int)].binary_view(alternate)[prefix(alternate, 'b').len() + T::width() - 1
            - q % (T::width() as int)] == 'z',
        words[q / (T::width() as int)].nibble_view((q % (T::width() as int)) / 4) == 'z' || words[q / (T::width() as int)].nibble_view((q % (T::width() as int)) / 4) == 'Z',
{
    T::lemma_width();
    let i = q / (T::width() as int);
    let p = q % (T::width() as int);
    lemma_bit_in_some_word(data.len(), T::width(), q);
    lemma_decoded_state(data, words, i, p);
    let w = words[i];
    assert(bit_set(w.z.bits(), p));
    assert(p as u128 == ((4 * (p / 4)) as u128 + (p % 4) as u128) as u128);
    lemma_bit_in_nibble(w.z.bits(), (4 * (p / 4)) as u128, (p % 4) as u128);
    assert(nibble(w.z.bits(), p / 4) != 0);
    assert(w.binary_view(alternate)[prefix(alternate, 'b').len() + T::width() - 1 - p]
        == logic_char(w.state(p)));
}

/// A logical bit whose a-plane and b-plane bits are both set decodes to an
/// unknown state: `x` in the binary rendering.
pub proof fn lemma_unknown_renders<T: Payload>(
    data: Seq<u64>,
    words: Seq<Sv4State<T>>,
    q: int,
    alternate: bool,
)
    requires
        decodes_to(data, words),
        0 <= q < 32 * data.len(),
        packed_bit(data, q, false),
        packed_bit(data, q, true),
    ensures
        q / (T::width() as int) < words.len(),
        words[q / (T::width() as int)].state(q % (T::width() as int)) == Logic::Unknown,
        words[q / (T::width() as int)].binary_view(alternate)[prefix(alternate, 'b').len() + T::width() - 1
            - q % (T::width() as int)] == 'x',
{
    T::lemma_width();
    let i = q / (T::width() as int);
    let p = q % (T::width() as int);
    lemma_bit_in_some_word(data.len(), T::width(), q);
    lemma_decoded_state(data, words, i, p);
    let w = words[i];
    assert(w.binary_view(alternate)[prefix(alternate, 'b').len() + T::width() - 1 - p]
        == logic_char(w.state(p)));
}

/// Rendering is a function of the word and the form alone: two renderings of
/// one word in one form are the same text.
pub proof fn lemma_rendering_deterministic<T: Payload>(
    w: Sv4State<T>,
    alternate: bool,
    r1: Seq<char>,
    r2: Seq<char>,
    hex: bool,
)
    requires
        r1 == if hex {
            w.hex_view(alternate)
        } else {
            w.binary_view(alternate)
        },
        r2 == if hex {
            w.hex_view(alternate)
        } else {
            w.binary_view(alternate)
        },
    ensures
        r1 == r2,
{
}

} // verus!

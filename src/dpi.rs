//! Decoding of the packed two-bitplane vector format into four-state words.
//!
//! Each 64-bit input word carries 32 logical bits: the low half is the
//! a-plane, the high half the b-plane, and the pair `(a, b)` of a bit reads
//! `(0, 0)` as 0, `(1, 0)` as 1, `(0, 1)` as Z and `(1, 1)` as X. Input words
//! are ordered least significant first.
use vstd::prelude::*;

use crate::payload::{lemma_pow256_16, lemma_pow256_monotonic, pow256, Payload};
use crate::word::Sv4State;

verus! {

/// Byte `k` (0 to 3) of the a-plane, or of the b-plane when `upper`, of `w`.
pub open spec fn plane_byte(w: u64, upper: bool, k: int) -> u8 {
    ((w >> ((8 * k + if upper {
        32int
    } else {
        0int
    }) as u64)) & 0xffu64) as u8
}

/// The byte stream of one plane: the four bytes of that plane of every input
/// word, least significant first, input words in order.
pub open spec fn plane(data: Seq<u64>, upper: bool) -> Seq<u8> {
    Seq::new(4 * data.len(), |k: int| plane_byte(data[k / 4], upper, k % 4))
}

/// Byte `k` of `s`, with zero past either end.
pub open spec fn byte_or_zero(s: Seq<u8>, k: int) -> u8 {
    if 0 <= k < s.len() {
        s[k]
    } else {
        0
    }
}

/// The little-endian number formed by the `n` bytes of `s` from `start` on,
/// the bytes past the end of `s` counting as zero.
pub open spec fn le_value(s: Seq<u8>, start: int, n: nat) -> nat
    decreases n,
{
    if n == 0 {
        0
    } else {
        (byte_or_zero(s, start) + 256 * le_value(s, start + 1, (n - 1) as nat)) as nat
    }
}

/// Group `i` of a plane's byte stream for words of `width` bits.
pub open spec fn group(s: Seq<u8>, i: int, width: nat) -> u128 {
    le_value(s, i * (width / 8), width / 8) as u128
}

/// The number of words of `width` bits that cover `32 * len` bits.
pub open spec fn word_count(len: nat, width: nat) -> nat {
    if (32 * len) % width == 0 {
        (32 * len) / width
    } else {
        (32 * len) / width + 1
    }
}

/// Word `i` of `words` combines group `i` of the two planes of `data`.
pub open spec fn decodes_word<T: Payload>(data: Seq<u64>, words: Seq<Sv4State<T>>, i: int) -> bool {
    let a = group(plane(data, false), i, T::width());
    let b = group(plane(data, true), i, T::width());
    &&& words[i].v.bits() == a & !b
    &&& words[i].z.bits() == b & !a
    &&& words[i].x.bits() == a & b
}

/// `words` is the decoding of `data`: one word per group, in order.
pub open spec fn decodes_to<T: Payload>(data: Seq<u64>, words: Seq<Sv4State<T>>) -> bool {
    &&& words.len() == word_count(data.len(), T::width())
    &&& forall|i: int| 0 <= i < words.len() ==> #[trigger] decodes_word(data, words, i)
}

/// A little-endian number of `n` bytes is below `256` to the `n`.
pub proof fn lemma_le_value_bound(s: Seq<u8>, start: int, n: nat)
    ensures
        le_value(s, start, n) < pow256(n),
    decreases n,
{
    if n > 0 {
        lemma_le_value_bound(s, start + 1, (n - 1) as nat);
    }
}

/// `4 * len` bytes take `i` groups of `gb` bytes exactly when the last group
/// starts inside them.
proof fn lemma_word_count(len: nat, gb: nat, i: nat)
    requires
        gb == 1 || gb == 2 || gb == 4 || gb == 8 || gb == 16,
        4 * len <= i * gb < 4 * len + gb,
    ensures
        i == word_count(len, 8 * gb),
{
}

/// The byte stream of the a-plane, or of the b-plane when `upper`.
pub fn plane_bytes(data: &[u64], upper: bool) -> (r: Vec<u8>)
    requires
        data@.len() * 8 <= isize::MAX,
    ensures
        r@ == plane(data@, upper),
{
    let off: u64 = if upper {
        32
    } else {
        0
    };
    let mut r: Vec<u8> = Vec::new();
    let mut i: usize = 0;
    while i < data.len()
        invariant
            data@.len() * 8 <= isize::MAX,
            i <= data@.len(),
            off == if upper {
                32int
            } else {
                0int
            },
            r@.len() == 4 * i,
            forall|k: int| 0 <= k < 4 * i ==> #[trigger] r@[k] == plane_byte(data@[k / 4], upper, k % 4),
        decreases data@.len() - i,
    {
        let w = data[i];
        let mut j: u64 = 0;
        while j < 4
            invariant
                i < data@.len(),
                w == data@[i as int],
                j <= 4,
                off == if upper {
                    32int
                } else {
                    0int
                },
                r@.len() == 4 * i + j,
                forall|k: int| 0 <= k < 4 * i + j ==> #[trigger] r@[k] == plane_byte(data@[k / 4], upper, k % 4),
            decreases 4 - j,
        {
            r.push(((w >> (8 * j + off)) & 0xff) as u8);
            assert((4 * i + j) / 4 == i as int && (4 * i + j) % 4 == j as int);
            j = j + 1;
        }
        i = i + 1;
    }
    assert(r@ =~= plane(data@, upper));
    r
}

/// The little-endian number formed by the `n` bytes of `s` from `start` on,
/// the bytes past the end of `s` counting as zero.
pub fn group_value(s: &Vec<u8>, start: usize, n: usize) -> (r: u128)
    requires
        n <= 16,
    ensures
        r as nat == le_value(s@, start as int, n as nat),
{
    let mut acc: u128 = 0;
    let mut j: usize = n;
    while j > 0
        invariant
            j <= n <= 16,
            acc as nat == le_value(s@, start + j, (n - j) as nat),
        decreases j,
    {
        j = j - 1;
        let b: u8 = if start < s.len() && j < s.len() - start {
            s[start + j]
        } else {
            0
        };
        proof {
            lemma_le_value_bound(s@, start + j + 1, (n - j - 1) as nat);
            lemma_pow256_monotonic((n - j - 1) as nat, 15);
            lemma_pow256_16();
            reveal_with_fuel(pow256, 2);
            assert(pow256(16) == 256 * pow256(15));
        }
        acc = acc * 256 + b as u128;
    }
    acc
}

impl<T: Payload> Sv4State<T> {
    /// Decodes a packed vector into words of `T`'s width, least significant
    /// first. A last word that reaches past the input is filled with zero bits.
    pub fn from_dpi(data: &[u64]) -> (r: Vec<Self>)
        requires
            data@.len() * 8 <= isize::MAX,
        ensures
            decodes_to(data@, r@),
    {
        let a = plane_bytes(data, false);
        let b = plane_bytes(data, true);
        proof {
            T::lemma_width();
        }
        let gb = (T::bit_width() / 8) as usize;
        let nbytes = a.len();
        let mut r: Vec<Self> = Vec::new();
        let mut i: usize = 0;
        let mut start: usize = 0;
        while start < nbytes
            invariant
                gb as nat == T::width() / 8,
                gb == 1 || gb == 2 || gb == 4 || gb == 8 || gb == 16,
                nbytes == 4 * data@.len(),
                data@.len() * 8 <= isize::MAX,
                a@ == plane(data@, false),
                b@ == plane(data@, true),
                start == i * gb,
                start < nbytes + gb,
                r@.len() == i,
                forall|k: int| 0 <= k < i ==> #[trigger] decodes_word(data@, r@, k),
            decreases nbytes + gb - start,
        {
            let ga = group_value(&a, start, gb);
            let gz = group_value(&b, start, gb);
            let v = ga & !gz;
            let z = gz & !ga;
            let x = ga & gz;
            proof {
                lemma_le_value_bound(a@, start as int, gb as nat);
                lemma_le_value_bound(b@, start as int, gb as nat);
                assert(v <= ga && z <= gz && x <= ga) by (bit_vector)
                    requires
                        v == ga & !gz,
                        z == gz & !ga,
                        x == ga & gz,
                ;
            }
            let word = Sv4State { v: T::from_bits(v), z: T::from_bits(z), x: T::from_bits(x) };
            let ghost before = r@;
            r.push(word);
            assert(decodes_word(data@, r@, i as int));
            assert forall|k: int| 0 <= k < i implies #[trigger] decodes_word(data@, r@, k) by {
                assert(decodes_word(data@, before, k));
                assert(r@[k] == before[k]);
            }
            i = i + 1;
            start = start + gb;
        }
        proof {
            lemma_word_count(data@.len(), gb as nat, i as nat);
        }
        r
    }
}

} // verus!

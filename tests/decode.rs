use sv4state::dpi::{group_value, plane_bytes};
use sv4state::Sv4State;

const INPUT: [u64; 2] = [0x00000000_01234567, 0xffffffff_89abcdef];

#[test]
fn from_dpi_u8() {
    let sv_u8 = Sv4State::<u8>::from_dpi(&[0x00000000_01234567, 0xffffffff_89abcdef]);

    assert_eq!(sv_u8[0].v, 0x67);
    assert_eq!(sv_u8[0].z, 0x00);
    assert_eq!(sv_u8[0].x, 0x00);
    assert_eq!(sv_u8[1].v, 0x45);
    assert_eq!(sv_u8[1].z, 0x00);
    assert_eq!(sv_u8[1].x, 0x00);
    assert_eq!(sv_u8[2].v, 0x23);
    assert_eq!(sv_u8[2].z, 0x00);
    assert_eq!(sv_u8[2].x, 0x00);
    assert_eq!(sv_u8[3].v, 0x01);
    assert_eq!(sv_u8[3].z, 0x00);
    assert_eq!(sv_u8[3].x, 0x00);
    assert_eq!(sv_u8[4].v, 0x00);
    assert_eq!(sv_u8[4].z, 0x10);
    assert_eq!(sv_u8[4].x, 0xef);
    assert_eq!(sv_u8[5].v, 0x00);
    assert_eq!(sv_u8[5].z, 0x32);
    assert_eq!(sv_u8[5].x, 0xcd);
    assert_eq!(sv_u8[6].v, 0x00);
    assert_eq!(sv_u8[6].z, 0x54);
    assert_eq!(sv_u8[6].x, 0xab);
    assert_eq!(sv_u8[7].v, 0x00);
    assert_eq!(sv_u8[7].z, 0x76);
    assert_eq!(sv_u8[7].x, 0x89);
}

#[test]
fn from_dpi_u16() {
    let sv_u16 = Sv4State::<u16>::from_dpi(&[0x00000000_01234567, 0xffffffff_89abcdef]);

    assert_eq!(sv_u16[0].v, 0x4567);
    assert_eq!(sv_u16[0].z, 0x0000);
    assert_eq!(sv_u16[0].x, 0x0000);
    assert_eq!(sv_u16[1].v, 0x0123);
    assert_eq!(sv_u16[1].z, 0x0000);
    assert_eq!(sv_u16[1].x, 0x0000);
    assert_eq!(sv_u16[2].v, 0x0000);
    assert_eq!(sv_u16[2].z, 0x3210);
    assert_eq!(sv_u16[2].x, 0xcdef);
    assert_eq!(sv_u16[3].v, 0x0000);
    assert_eq!(sv_u16[3].z, 0x7654);
    assert_eq!(sv_u16[3].x, 0x89ab);
}

#[test]
fn from_dpi_u32() {
    let sv_u32 = Sv4State::<u32>::from_dpi(&[0x00000000_01234567, 0xffffffff_89abcdef]);

    assert_eq!(sv_u32[0].v, 0x01234567);
    assert_eq!(sv_u32[0].z, 0x00000000);
    assert_eq!(sv_u32[0].x, 0x00000000);
    assert_eq!(sv_u32[1].v, 0x00000000);
    assert_eq!(sv_u32[1].z, 0x76543210);
    assert_eq!(sv_u32[1].x, 0x89abcdef);
}

#[test]
fn from_dpi_u64() {
    let sv_u64 = Sv4State::<u64>::from_dpi(&[0x00000000_01234567, 0xffffffff_89abcdef]);

    assert_eq!(sv_u64[0].v, 0x0000000001234567);
    assert_eq!(sv_u64[0].z, 0x7654321000000000);
    assert_eq!(sv_u64[0].x, 0x89abcdef00000000);
}

#[test]
fn from_dpi_u128() {
    let sv_u128 = Sv4State::<u128>::from_dpi(&[0x00000000_01234567, 0xffffffff_89abcdef]);

    assert_eq!(sv_u128[0].v, 0x0000000001234567);
    assert_eq!(sv_u128[0].z, 0x7654321000000000);
    assert_eq!(sv_u128[0].x, 0x89abcdef00000000);
}

#[test]
fn word_counts_round_up() {
    assert_eq!(Sv4State::<u8>::from_dpi(&INPUT).len(), 8);
    assert_eq!(Sv4State::<u16>::from_dpi(&INPUT).len(), 4);
    assert_eq!(Sv4State::<u32>::from_dpi(&INPUT).len(), 2);
    assert_eq!(Sv4State::<u64>::from_dpi(&INPUT).len(), 1);
    assert_eq!(Sv4State::<u128>::from_dpi(&INPUT).len(), 1);
    assert_eq!(Sv4State::<u64>::from_dpi(&[1, 2, 3]).len(), 2);
    assert_eq!(Sv4State::<u128>::from_dpi(&[1, 2, 3, 4, 5]).len(), 2);
}

#[test]
fn empty_input_gives_no_words() {
    assert!(Sv4State::<u8>::from_dpi(&[]).is_empty());
    assert!(Sv4State::<u128>::from_dpi(&[]).is_empty());
}

#[test]
fn tail_past_the_input_is_zero() {
    // Two input words at width 128: the upper 64 bits are padding.
    let w = Sv4State::<u128>::from_dpi(&[0xffffffff_ffffffff, 0xffffffff_00000000]);
    assert_eq!(w.len(), 1);
    assert_eq!(w[0].v, 0);
    assert_eq!(w[0].z, 0xffffffff_00000000);
    assert_eq!(w[0].x, 0x00000000_ffffffff);
    assert_eq!(w[0].v >> 64, 0);
    assert_eq!(w[0].z >> 64, 0);
    assert_eq!(w[0].x >> 64, 0);
    // Three input words at width 64: the last word's upper half is padding.
    let w = Sv4State::<u64>::from_dpi(&[0, 0, 0xffffffff_ffffffff]);
    assert_eq!(w.len(), 2);
    assert_eq!(w[1].v, 0);
    assert_eq!(w[1].z, 0);
    assert_eq!(w[1].x, 0x00000000_ffffffff);
}

#[test]
fn clear_b_plane_gives_plain_values() {
    let w = Sv4State::<u32>::from_dpi(&[0x00000000_deadbeef, 0x00000000_00c0ffee]);
    assert_eq!(w[0].v, 0xdeadbeef);
    assert_eq!(w[1].v, 0x00c0ffee);
    for word in &w {
        assert_eq!(word.z, 0);
        assert_eq!(word.x, 0);
    }
}

#[test]
fn plane_pairs_decode_to_each_state() {
    // Bits 0..3 take (a, b) = (0, 0), (1, 0), (0, 1), (1, 1).
    let w = Sv4State::<u8>::from_dpi(&[0x0000000c_0000000a]);
    assert_eq!(w[0].v, 0b0010);
    assert_eq!(w[0].z, 0b0100);
    assert_eq!(w[0].x, 0b1000);
    assert_eq!(w[0].to_binary(false), "0000xz10");
}

#[test]
fn planes_are_split_little_endian() {
    let a = plane_bytes(&INPUT, false);
    let b = plane_bytes(&INPUT, true);
    assert_eq!(a, vec![0x67, 0x45, 0x23, 0x01, 0xef, 0xcd, 0xab, 0x89]);
    assert_eq!(b, vec![0, 0, 0, 0, 0xff, 0xff, 0xff, 0xff]);
}

#[test]
fn groups_are_little_endian_and_zero_padded() {
    let s = vec![0x67, 0x45, 0x23, 0x01];
    assert_eq!(group_value(&s, 0, 2), 0x4567);
    assert_eq!(group_value(&s, 1, 2), 0x2345);
    assert_eq!(group_value(&s, 2, 4), 0x0123);
    assert_eq!(group_value(&s, 4, 4), 0);
    assert_eq!(group_value(&s, 0, 16), 0x01234567);
    assert_eq!(group_value(&s, 0, 0), 0);
}

use dst_reader::codec::{COLOR_CHANGE_MASK, END_MASK, JUMP_MASK, SEQUIN_MODE_MASK};
use dst_reader::{decode_dx, decode_dy, get_bit};

#[test]
fn test_decode_dx() {
    assert_eq!(decode_dx(0, 0, 0), 0);
    assert_eq!(decode_dx(0b00000001, 0, 0), 1);
    assert_eq!(decode_dx(0b00000010, 0, 0), -1);
}

#[test]
fn test_decode_dy() {
    assert_eq!(decode_dy(0, 0, 0), 0);
    assert_eq!(decode_dy(0b10000000, 0, 0), -1);
    assert_eq!(decode_dy(0b01000000, 0, 0), 1);
}

#[test]
fn test_get_bit() {
    assert_eq!(get_bit(0b00000001, 0), 1);
    assert_eq!(get_bit(0b00000010, 1), 1);
    assert_eq!(get_bit(0b00000001, 1), 0);
}

#[test]
fn zero_weighted_bits_give_no_displacement() {
    for b2 in [0x00u8, 0x03, 0xC3, 0xF3 & !0x3C, 0x83, 0x43] {
        assert_eq!(decode_dx(0, 0, b2), 0);
        assert_eq!(decode_dy(0, 0, b2), 0);
    }
}

#[test]
fn single_bits_give_their_weights() {
    // (byte, bit, dx weight, raw dy weight)
    let table: [(usize, u8, i32, i32); 20] = [
        (0, 0, 1, 0),
        (0, 1, -1, 0),
        (0, 2, 9, 0),
        (0, 3, -9, 0),
        (0, 4, 0, -9),
        (0, 5, 0, 9),
        (0, 6, 0, -1),
        (0, 7, 0, 1),
        (1, 0, 3, 0),
        (1, 1, -3, 0),
        (1, 2, 27, 0),
        (1, 3, -27, 0),
        (1, 4, 0, -27),
        (1, 5, 0, 27),
        (1, 6, 0, -3),
        (1, 7, 0, 3),
        (2, 2, 81, 0),
        (2, 3, -81, 0),
        (2, 4, 0, -81),
        (2, 5, 0, 81),
    ];
    for (k, i, wx, wy) in table {
        let mut b = [0u8; 3];
        b[k] = 1 << i;
        assert_eq!(decode_dx(b[0], b[1], b[2]), wx);
        assert_eq!(decode_dy(b[0], b[1], b[2]), -wy);
    }
}

#[test]
fn displacement_is_linear_in_bits() {
    // +81 +27 +9 +3 +1 on x gives the largest step.
    assert_eq!(decode_dx(0b0000_0101, 0b0000_0101, 0b0000_0100), 121);
    assert_eq!(decode_dx(0b0000_1010, 0b0000_1010, 0b0000_1000), -121);
    assert_eq!(decode_dy(0b1010_0000, 0b1010_0000, 0b0010_0000), -121);
    assert_eq!(decode_dx(0b0000_0001, 0b0000_0100, 0), 28);
}

#[test]
fn masks_overlap_in_order() {
    assert_eq!(END_MASK, 0xF3);
    assert_eq!(COLOR_CHANGE_MASK, 0xC3);
    assert_eq!(SEQUIN_MODE_MASK, 0x43);
    assert_eq!(JUMP_MASK, 0x83);
    assert_eq!(END_MASK & COLOR_CHANGE_MASK, COLOR_CHANGE_MASK);
    assert_eq!(COLOR_CHANGE_MASK & JUMP_MASK, JUMP_MASK);
}

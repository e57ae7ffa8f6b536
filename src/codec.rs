//! Bit-level decoding of one three-byte stitch record: the balanced base-3
//! displacement on each axis and the opcode carried by the third byte.
use crate::types::StitchCommand;
use vstd::prelude::*;

verus! {

/// Opcode mask of the end-of-pattern record.
pub const END_MASK: u8 = 0b1111_0011;

/// Opcode mask of a color change.
pub const COLOR_CHANGE_MASK: u8 = 0b1100_0011;

/// Opcode mask of the sequin-mode toggle.
pub const SEQUIN_MODE_MASK: u8 = 0b0100_0011;

/// Opcode mask shared by a jump and a sequin eject.
pub const JUMP_MASK: u8 = 0b1000_0011;

/// `b` has every bit of `mask` set.
pub open spec fn has_mask(b: u8, mask: u8) -> bool {
    b & mask == mask
}

/// The command of a record whose third byte is `b`, with sequin mode on or
/// off: masks are tried in a fixed order and the first that matches wins.
pub open spec fn command_of(b: u8, sequin_mode: bool) -> StitchCommand {
    if has_mask(b, END_MASK) {
        StitchCommand::End
    } else if has_mask(b, COLOR_CHANGE_MASK) {
        StitchCommand::ColorChange
    } else if has_mask(b, SEQUIN_MODE_MASK) {
        StitchCommand::SequinMode
    } else if has_mask(b, JUMP_MASK) {
        if sequin_mode {
            StitchCommand::SequinEject
        } else {
            StitchCommand::Move
        }
    } else {
        StitchCommand::Stitch
    }
}

/// Bit `i` of `b`, as 0 or 1.
pub open spec fn bit(b: u8, i: u8) -> int {
    ((b >> i) & 1u8) as int
}

/// Horizontal displacement of the record `(b0, b1, b2)`: each weight of
/// magnitude 1, 3, 9, 27 or 81 has one bit that adds it and one that subtracts it.
pub open spec fn dx_of(b0: u8, b1: u8, b2: u8) -> int {
    81 * bit(b2, 2) - 81 * bit(b2, 3)
        + 27 * bit(b1, 2) - 27 * bit(b1, 3)
        + 9 * bit(b0, 2) - 9 * bit(b0, 3)
        + 3 * bit(b1, 0) - 3 * bit(b1, 1)
        + bit(b0, 0) - bit(b0, 1)
}

/// Vertical displacement as the bits weigh it, before the axis is flipped.
pub open spec fn raw_dy_of(b0: u8, b1: u8, b2: u8) -> int {
    81 * bit(b2, 5) - 81 * bit(b2, 4)
        + 27 * bit(b1, 5) - 27 * bit(b1, 4)
        + 9 * bit(b0, 5) - 9 * bit(b0, 4)
        + 3 * bit(b1, 7) - 3 * bit(b1, 6)
        + bit(b0, 7) - bit(b0, 6)
}

/// Vertical displacement of the record: the file's vertical axis runs
/// opposite to the pattern's.
pub open spec fn dy_of(b0: u8, b1: u8, b2: u8) -> int {
    -raw_dy_of(b0, b1, b2)
}

pub proof fn lemma_bit_range(b: u8, i: u8)
    requires
        i < 8,
    ensures
        0 <= bit(b, i) <= 1,
{
    assert((b >> i) & 1u8 <= 1u8) by (bit_vector);
}

pub proof fn lemma_displacement_range(b0: u8, b1: u8, b2: u8)
    ensures
        -121 <= dx_of(b0, b1, b2) <= 121,
        -121 <= dy_of(b0, b1, b2) <= 121,
{
    assert forall|b: u8, i: u8| i < 8 implies 0 <= #[trigger] bit(b, i) <= 1 by {
        lemma_bit_range(b, i);
    }
}

/// Signed weight that bit `i` of byte `k` of a record adds to the
/// horizontal displacement (0 for a bit that carries none).
pub open spec fn dx_weight(k: int, i: u8) -> int {
    if k == 0 {
        if i == 0 { 1 } else if i == 1 { -1 } else if i == 2 { 9 } else if i == 3 { -9 } else { 0 }
    } else if k == 1 {
        if i == 0 { 3 } else if i == 1 { -3 } else if i == 2 { 27 } else if i == 3 { -27 } else { 0 }
    } else if k == 2 {
        if i == 2 { 81 } else if i == 3 { -81 } else { 0 }
    } else {
        0
    }
}

/// Signed weight that bit `i` of byte `k` of a record adds to the raw
/// vertical sum, before the axis is flipped.
pub open spec fn raw_dy_weight(k: int, i: u8) -> int {
    if k == 0 {
        if i == 7 { 1 } else if i == 6 { -1 } else if i == 5 { 9 } else if i == 4 { -9 } else { 0 }
    } else if k == 1 {
        if i == 7 { 3 } else if i == 6 { -3 } else if i == 5 { 27 } else if i == 4 { -27 } else { 0 }
    } else if k == 2 {
        if i == 5 { 81 } else if i == 4 { -81 } else { 0 }
    } else {
        0
    }
}

/// The record `(b0, b1, b2)` with bit `i` of byte `k` set.
pub open spec fn with_bit(b0: u8, b1: u8, b2: u8, k: int, i: u8) -> (u8, u8, u8) {
    if k == 0 {
        (b0 | (1u8 << i), b1, b2)
    } else if k == 1 {
        (b0, b1 | (1u8 << i), b2)
    } else {
        (b0, b1, b2 | (1u8 << i))
    }
}

proof fn lemma_bit_of_or(b: u8, i: u8, j: u8)
    requires
        i < 8,
        j < 8,
    ensures
        i == j ==> bit(b | (1u8 << i), j) == 1,
        i != j ==> bit(b | (1u8 << i), j) == bit(b, j),
{
    assert(i < 8 && j < 8 && i == j ==> ((b | (1u8 << i)) >> j) & 1u8 == 1u8) by (bit_vector);
    assert(i < 8 && j < 8 && i != j ==> ((b | (1u8 << i)) >> j) & 1u8 == (b >> j) & 1u8)
        by (bit_vector);
}

/// A record with no bit set at any weighted position has no displacement on
/// either axis.
pub proof fn lemma_zero_weighted_bits(b0: u8, b1: u8, b2: u8)
    requires
        b0 == 0,
        b1 == 0,
        b2 & 0b0011_1100u8 == 0,
    ensures
        dx_of(b0, b1, b2) == 0,
        dy_of(b0, b1, b2) == 0,
{
    assert(forall|i: u8| i < 8 ==> #[trigger] bit(0u8, i) == 0) by {
        assert(forall|i: u8| i < 8 ==> (0u8 >> i) & 1u8 == 0u8) by (bit_vector);
    }
    assert(b2 & 0b0011_1100u8 == 0 ==> (b2 >> 2u8) & 1u8 == 0 && (b2 >> 3u8) & 1u8 == 0
        && (b2 >> 4u8) & 1u8 == 0 && (b2 >> 5u8) & 1u8 == 0) by (bit_vector);
    assert(bit(b0, 0) == 0 && bit(b0, 1) == 0 && bit(b0, 2) == 0 && bit(b0, 3) == 0);
    assert(bit(b0, 4) == 0 && bit(b0, 5) == 0 && bit(b0, 6) == 0 && bit(b0, 7) == 0);
    assert(bit(b1, 0) == 0 && bit(b1, 1) == 0 && bit(b1, 2) == 0 && bit(b1, 3) == 0);
    assert(bit(b1, 4) == 0 && bit(b1, 5) == 0 && bit(b1, 6) == 0 && bit(b1, 7) == 0);
}

/// Displacement decoding is linear in the bits: setting one bit that was
/// clear adds that bit's weight to the horizontal displacement and subtracts
/// its raw vertical weight from the (flipped) vertical displacement, whatever
/// the other bits hold.
pub proof fn lemma_set_bit_adds_weight(b0: u8, b1: u8, b2: u8, k: int, i: u8)
    requires
        0 <= k < 3,
        i < 8,
        bit(if k == 0 { b0 } else if k == 1 { b1 } else { b2 }, i) == 0,
    ensures
        ({
            let (c0, c1, c2) = with_bit(b0, b1, b2, k, i);
            &&& dx_of(c0, c1, c2) == dx_of(b0, b1, b2) + dx_weight(k, i)
            &&& dy_of(c0, c1, c2) == dy_of(b0, b1, b2) - raw_dy_weight(k, i)
        }),
{
    let (c0, c1, c2) = with_bit(b0, b1, b2, k, i);
    let b = if k == 0 { b0 } else if k == 1 { b1 } else { b2 };
    assert forall|j: u8| j < 8 implies #[trigger] bit(b | (1u8 << i), j) == if i == j {
        1
    } else {
        bit(b, j)
    } by {
        lemma_bit_of_or(b, i, j);
    }
    assert(bit(b | (1u8 << i), 0) == if i == 0 { 1 } else { bit(b, 0) });
    assert(bit(b | (1u8 << i), 1) == if i == 1 { 1 } else { bit(b, 1) });
    assert(bit(b | (1u8 << i), 2) == if i == 2 { 1 } else { bit(b, 2) });
    assert(bit(b | (1u8 << i), 3) == if i == 3 { 1 } else { bit(b, 3) });
    assert(bit(b | (1u8 << i), 4) == if i == 4 { 1 } else { bit(b, 4) });
    assert(bit(b | (1u8 << i), 5) == if i == 5 { 1 } else { bit(b, 5) });
    assert(bit(b | (1u8 << i), 6) == if i == 6 { 1 } else { bit(b, 6) });
    assert(bit(b | (1u8 << i), 7) == if i == 7 { 1 } else { bit(b, 7) });
}

/// From an empty record, setting one bit gives exactly that bit's weight on
/// each axis; the vertical one comes out negated.
pub proof fn lemma_single_bit_weight(k: int, i: u8)
    requires
        0 <= k < 3,
        i < 8,
    ensures
        ({
            let (c0, c1, c2) = with_bit(0, 0, 0, k, i);
            &&& dx_of(c0, c1, c2) == dx_weight(k, i)
            &&& dy_of(c0, c1, c2) == -raw_dy_weight(k, i)
        }),
{
    assert((0u8 >> i) & 1u8 == 0u8) by (bit_vector);
    assert(0u8 & 0b0011_1100u8 == 0u8) by (bit_vector);
    lemma_zero_weighted_bits(0, 0, 0);
    lemma_set_bit_adds_weight(0, 0, 0, k, i);
}

/// Each weight comes in a pair of bits of opposite sign within one byte; the
/// third byte carries only the 81 weights.
pub proof fn lemma_weights_paired(k: int)
    requires
        0 <= k < 3,
    ensures
        dx_weight(k, 1) == -dx_weight(k, 0),
        dx_weight(k, 3) == -dx_weight(k, 2),
        raw_dy_weight(k, 6) == -raw_dy_weight(k, 7),
        raw_dy_weight(k, 4) == -raw_dy_weight(k, 5),
        k == 2 ==> dx_weight(k, 2) == 81 && raw_dy_weight(k, 5) == 81,
{
}

/// Opcode precedence: the masks overlap, and a byte resolves to the first
/// command in the order end, color change, sequin mode, jump or sequin
/// eject, stitch whose mask it matches.
pub proof fn lemma_opcode_precedence(b: u8, sequin_mode: bool)
    ensures
        has_mask(b, END_MASK) ==> has_mask(b, COLOR_CHANGE_MASK) && has_mask(b, SEQUIN_MODE_MASK)
            && has_mask(b, JUMP_MASK),
        has_mask(b, COLOR_CHANGE_MASK) ==> has_mask(b, SEQUIN_MODE_MASK) && has_mask(
            b,
            JUMP_MASK,
        ),
        command_of(b, sequin_mode) == StitchCommand::End <==> has_mask(b, END_MASK),
        command_of(b, sequin_mode) == StitchCommand::ColorChange <==> has_mask(
            b,
            COLOR_CHANGE_MASK,
        ) && !has_mask(b, END_MASK),
        command_of(b, sequin_mode) == StitchCommand::SequinMode <==> has_mask(b, SEQUIN_MODE_MASK)
            && !has_mask(b, COLOR_CHANGE_MASK),
        command_of(b, sequin_mode) == StitchCommand::SequinEject <==> sequin_mode && has_mask(
            b,
            JUMP_MASK,
        ) && !has_mask(b, COLOR_CHANGE_MASK),
        command_of(b, sequin_mode) == StitchCommand::Move <==> !sequin_mode && has_mask(
            b,
            JUMP_MASK,
        ) && !has_mask(b, COLOR_CHANGE_MASK),
        command_of(b, sequin_mode) == StitchCommand::Stitch <==> !has_mask(b, SEQUIN_MODE_MASK)
            && !has_mask(b, JUMP_MASK),
{
    assert(b & 0b1111_0011u8 == 0b1111_0011u8 ==> b & 0b1100_0011u8 == 0b1100_0011u8)
        by (bit_vector);
    assert(b & 0b1100_0011u8 == 0b1100_0011u8 ==> b & 0b0100_0011u8 == 0b0100_0011u8
        && b & 0b1000_0011u8 == 0b1000_0011u8) by (bit_vector);
    assert(b & 0b0100_0011u8 == 0b0100_0011u8 && b & 0b1000_0011u8 == 0b1000_0011u8 ==> b
        & 0b1100_0011u8 == 0b1100_0011u8) by (bit_vector);
}

/// Extracts bit `bit` of `byte` as 0 or 1.
pub fn get_bit(byte: u8, bit: u8) -> (r: i32)
    requires
        bit < 8,
    ensures
        r as int == crate::codec::bit(byte, bit),
        r == 0 || r == 1,
{
    proof {
        lemma_bit_range(byte, bit);
    }
    ((byte >> bit) & 1) as i32
}

/// Decodes the horizontal displacement of the record `(b0, b1, b2)`.
pub fn decode_dx(b0: u8, b1: u8, b2: u8) -> (r: i32)
    ensures
        r as int == dx_of(b0, b1, b2),
{
    let mut x: i32 = 0;
    x += get_bit(b2, 2) * 81;
    x += get_bit(b2, 3) * -81;
    x += get_bit(b1, 2) * 27;
    x += get_bit(b1, 3) * -27;
    x += get_bit(b0, 2) * 9;
    x += get_bit(b0, 3) * -9;
    x += get_bit(b1, 0) * 3;
    x += get_bit(b1, 1) * -3;
    x += get_bit(b0, 0) * 1;
    x += get_bit(b0, 1) * -1;
    x
}

/// Decodes the vertical displacement of the record `(b0, b1, b2)`, with the
/// vertical axis flipped.
pub fn decode_dy(b0: u8, b1: u8, b2: u8) -> (r: i32)
    ensures
        r as int == dy_of(b0, b1, b2),
{
    let mut y: i32 = 0;
    y += get_bit(b2, 5) * 81;
    y += get_bit(b2, 4) * -81;
    y += get_bit(b1, 5) * 27;
    y += get_bit(b1, 4) * -27;
    y += get_bit(b0, 5) * 9;
    y += get_bit(b0, 4) * -9;
    y += get_bit(b1, 7) * 3;
    y += get_bit(b1, 6) * -3;
    y += get_bit(b0, 7) * 1;
    y += get_bit(b0, 6) * -1;
    -y
}

} // verus!

//! The stitch decoder and the top-level entry point.
use crate::codec::{
    command_of, lemma_opcode_precedence, decode_dx, decode_dy, dx_of, dy_of, lemma_displacement_range, COLOR_CHANGE_MASK,
    END_MASK, JUMP_MASK, SEQUIN_MODE_MASK,
};
use crate::header::{header_matches, parse_header, HEADER_SIZE};
use crate::types::{
    bounds_valid_for, count_command, lemma_count_command_le_len, time_units, Pattern, Statistics,
    StitchCommand, Stitch, COLOR_CHANGE_PENALTY_SECONDS, MACHINE_SPEED_SPM,
};
use vstd::prelude::*;
use vstd::slice::slice_subrange;

verus! {

/// Why a buffer could not be decoded.
#[derive(Debug, Clone, Copy, PartialEq, Eq, Structural)]
pub enum DstError {
    /// The buffer is shorter than the header.
    InsufficientData,
    /// The buffer is not a DST file; the decoder itself never reports it.
    InvalidFormat,
}

/// Number of complete three-byte records in `body`.
pub open spec fn group_count(body: Seq<u8>) -> nat {
    body.len() / 3
}

/// Horizontal displacement of record `g` of `body`.
pub open spec fn group_dx(body: Seq<u8>, g: int) -> int {
    dx_of(body[3 * g], body[3 * g + 1], body[3 * g + 2])
}

/// Vertical displacement of record `g` of `body`.
pub open spec fn group_dy(body: Seq<u8>, g: int) -> int {
    dy_of(body[3 * g], body[3 * g + 1], body[3 * g + 2])
}

/// The opcode byte (the third) of record `g` of `body`.
pub open spec fn opcode_byte(body: Seq<u8>, g: int) -> u8 {
    body[3 * g + 2]
}

/// Absolute x after the first `n` records: the sum of their displacements.
pub open spec fn x_after(body: Seq<u8>, n: nat) -> int
    decreases n,
{
    if n == 0 {
        0
    } else {
        x_after(body, (n - 1) as nat) + group_dx(body, n - 1)
    }
}

/// Absolute y after the first `n` records.
pub open spec fn y_after(body: Seq<u8>, n: nat) -> int
    decreases n,
{
    if n == 0 {
        0
    } else {
        y_after(body, (n - 1) as nat) + group_dy(body, n - 1)
    }
}

/// Whether sequin mode is on when record `n` is read: each sequin-mode
/// record before it toggles it, starting from off.
pub open spec fn sequin_before(body: Seq<u8>, n: nat) -> bool
    decreases n,
{
    if n == 0 {
        false
    } else {
        let s = sequin_before(body, (n - 1) as nat);
        if command_of(opcode_byte(body, n - 1), s) == StitchCommand::SequinMode {
            !s
        } else {
            s
        }
    }
}

/// The command of record `g` of `body`.
pub open spec fn command_at(body: Seq<u8>, g: nat) -> StitchCommand {
    command_of(opcode_byte(body, g as int), sequin_before(body, g))
}

/// Record `g` ends the pattern.
pub open spec fn is_end_at(body: Seq<u8>, g: int) -> bool {
    opcode_byte(body, g) & END_MASK == END_MASK
}

/// Number of records read when reading starts at record `g`: up to and
/// including the first end record, else every complete record.
pub open spec fn records_from(body: Seq<u8>, g: nat) -> nat
    decreases group_count(body) - g,
{
    if g >= group_count(body) {
        g
    } else if is_end_at(body, g as int) {
        g + 1
    } else {
        records_from(body, g + 1)
    }
}

/// Number of records that the decoder reads from `body`.
pub open spec fn record_count(body: Seq<u8>) -> nat {
    records_from(body, 0)
}

/// `s` is the decoding of `body`: one record per group read, in order, at
/// the running sum of the displacements so far.
pub open spec fn decodes_to(body: Seq<u8>, s: Seq<Stitch>) -> bool {
    &&& s.len() == record_count(body)
    &&& forall|g: int|
        0 <= g < s.len() ==> {
            &&& (#[trigger] s[g]).x as int == x_after(body, (g + 1) as nat)
            &&& s[g].y as int == y_after(body, (g + 1) as nat)
            &&& s[g].command == command_at(body, g as nat)
        }
}

/// `st` holds the counts over `s` and the time estimate from them.
pub open spec fn statistics_of(st: Statistics, s: Seq<Stitch>) -> bool {
    &&& st.real_stitch_count as nat == count_command(s, StitchCommand::Stitch)
    &&& st.jump_count as nat == count_command(s, StitchCommand::Move)
    &&& st.color_change_count as nat == count_command(s, StitchCommand::ColorChange)
    &&& st.estimated_time_units as nat == time_units(
        st.real_stitch_count as nat,
        st.color_change_count as nat,
    )
}

proof fn lemma_position_bound(body: Seq<u8>, n: nat)
    requires
        3 * n <= body.len(),
    ensures
        -121 * n <= x_after(body, n) <= 121 * n,
        -121 * n <= y_after(body, n) <= 121 * n,
    decreases n,
{
    if n > 0 {
        lemma_position_bound(body, (n - 1) as nat);
        let g = n - 1;
        lemma_displacement_range(body[3 * g], body[3 * g + 1], body[3 * g + 2]);
    }
}

proof fn lemma_records_skip(body: Seq<u8>, g: nat, k: nat)
    requires
        g <= k <= group_count(body),
        forall|j: int| g <= j < k ==> !is_end_at(body, j),
    ensures
        records_from(body, g) == records_from(body, k),
    decreases k - g,
{
    if g < k {
        lemma_records_skip(body, g + 1, k);
    }
}

/// Decodes the records of `body` into the empty `pattern` and fills in its
/// statistics. Reading stops after an end record or when fewer than three
/// bytes are left; neither is an error.
fn parse_stitches(data: &[u8], pattern: &mut Pattern) -> (r: Result<(), DstError>)
    requires
        old(pattern).stitches@.len() == 0,
        old(pattern).color_changes == 0,
    ensures
        r is Ok,
        decodes_to(data@, final(pattern).stitches@),
        statistics_of(final(pattern).statistics, final(pattern).stitches@),
        final(pattern).color_changes as nat == count_command(
            final(pattern).stitches@,
            StitchCommand::ColorChange,
        ),
        final(pattern).metadata == old(pattern).metadata,
        final(pattern).bounds == old(pattern).bounds,
{
    let ghost body = data@;
    let n = data.len();
    let mut i: usize = 0;
    let mut k: usize = 0;
    let mut current_x: i128 = 0;
    let mut current_y: i128 = 0;
    let mut sequin_mode = false;
    let mut real_stitches: usize = 0;
    let mut jumps: usize = 0;
    let mut color_changes: usize = 0;
    let mut done = false;
    while !done && n - i >= 3
        invariant
            body == data@,
            n == body.len(),
            i == 3 * k,
            i <= n,
            pattern.stitches@.len() == k,
            forall|g: int|
                0 <= g < k ==> {
                    &&& (#[trigger] pattern.stitches@[g]).x as int == x_after(body, (g + 1) as nat)
                    &&& pattern.stitches@[g].y as int == y_after(body, (g + 1) as nat)
                    &&& pattern.stitches@[g].command == command_at(body, g as nat)
                },
            !done ==> forall|j: int| 0 <= j < k ==> !is_end_at(body, j),
            done ==> k > 0 && is_end_at(body, k - 1) && forall|j: int|
                0 <= j < k - 1 ==> !is_end_at(body, j),
            current_x as int == x_after(body, k as nat),
            current_y as int == y_after(body, k as nat),
            sequin_mode == sequin_before(body, k as nat),
            real_stitches as nat == count_command(pattern.stitches@, StitchCommand::Stitch),
            jumps as nat == count_command(pattern.stitches@, StitchCommand::Move),
            color_changes as nat == count_command(pattern.stitches@, StitchCommand::ColorChange),
            pattern.color_changes == color_changes,
            pattern.metadata == old(pattern).metadata,
            pattern.bounds == old(pattern).bounds,
            pattern.statistics == old(pattern).statistics,
        decreases n - i,
    {
        let b0 = data[i];
        let b1 = data[i + 1];
        let b2 = data[i + 2];
        let ghost prev = pattern.stitches@;
        proof {
            lemma_position_bound(body, (k + 1) as nat);
            lemma_count_command_le_len(prev, StitchCommand::Stitch);
            lemma_count_command_le_len(prev, StitchCommand::Move);
            lemma_count_command_le_len(prev, StitchCommand::ColorChange);
            assert(k + 1 <= n / 3);
            assert(k < 0x1_0000_0000_0000_0000);
        }
        let dx = decode_dx(b0, b1, b2) as i128;
        let dy = decode_dy(b0, b1, b2) as i128;
        current_x = current_x + dx;
        current_y = current_y + dy;
        let command;
        if b2 & END_MASK == END_MASK {
            command = StitchCommand::End;
            done = true;
        } else if b2 & COLOR_CHANGE_MASK == COLOR_CHANGE_MASK {
            command = StitchCommand::ColorChange;
            color_changes += 1;
        } else if b2 & SEQUIN_MODE_MASK == SEQUIN_MODE_MASK {
            command = StitchCommand::SequinMode;
            sequin_mode = !sequin_mode;
        } else if b2 & JUMP_MASK == JUMP_MASK {
            if sequin_mode {
                command = StitchCommand::SequinEject;
            } else {
                command = StitchCommand::Move;
                jumps += 1;
            }
        } else {
            command = StitchCommand::Stitch;
            real_stitches += 1;
        }
        pattern.add_stitch(current_x, current_y, command);
        proof {
            assert(pattern.stitches@.drop_last() == prev);
        }
        i += 3;
        k += 1;
    }
    proof {
        if done {
            lemma_records_skip(body, 0, (k - 1) as nat);
        } else {
            lemma_records_skip(body, 0, k as nat);
        }
    }
    pattern.statistics.real_stitch_count = real_stitches;
    pattern.statistics.jump_count = jumps;
    pattern.statistics.color_change_count = color_changes;
    pattern.statistics.estimated_time_units = real_stitches as u128 + color_changes as u128 * (
    COLOR_CHANGE_PENALTY_SECONDS * MACHINE_SPEED_SPM / 60);
    Ok(())
}

proof fn lemma_records_from_facts(body: Seq<u8>, g: nat)
    requires
        g <= group_count(body),
    ensures
        g <= records_from(body, g) <= group_count(body),
        forall|j: int| g <= j < records_from(body, g) - 1 ==> !is_end_at(body, j),
        records_from(body, g) < group_count(body) ==> records_from(body, g) > g && is_end_at(
            body,
            records_from(body, g) - 1,
        ),
    decreases group_count(body) - g,
{
    if g < group_count(body) && !is_end_at(body, g as int) {
        lemma_records_from_facts(body, g + 1);
    }
}

/// The absolute coordinates are a running sum: the first record sits at its
/// own displacement, and the difference between consecutive records gives
/// back the displacement of the later one.
pub proof fn lemma_displacements_from_differences(body: Seq<u8>, s: Seq<Stitch>)
    requires
        decodes_to(body, s),
    ensures
        3 * s.len() <= body.len(),
        s.len() > 0 ==> s[0].x as int == group_dx(body, 0) && s[0].y as int == group_dy(body, 0),
        forall|g: int|
            0 < g < s.len() ==> #[trigger] s[g].x - s[g - 1].x == group_dx(body, g) && s[g].y
                - s[g - 1].y == group_dy(body, g),
{
    lemma_records_from_facts(body, 0);
    assert(x_after(body, 0) == 0 && y_after(body, 0) == 0);
    if s.len() > 0 {
        assert(s[0].x as int == x_after(body, 1));
        assert(s[0].y as int == y_after(body, 1));
    }
    assert forall|g: int| 0 < g < s.len() implies #[trigger] s[g].x - s[g - 1].x == group_dx(
        body,
        g,
    ) && s[g].y - s[g - 1].y == group_dy(body, g) by {
        assert(s[g - 1].x as int == x_after(body, g as nat));
        assert(s[g].x as int == x_after(body, (g + 1) as nat));
        assert(s[g - 1].y as int == y_after(body, g as nat));
        assert(s[g].y as int == y_after(body, (g + 1) as nat));
    }
}

/// An end record is always the last one decoded.
pub proof fn lemma_end_is_last(body: Seq<u8>, s: Seq<Stitch>)
    requires
        decodes_to(body, s),
    ensures
        forall|g: int| 0 <= g < s.len() - 1 ==> (#[trigger] s[g]).command != StitchCommand::End,
{
    lemma_records_from_facts(body, 0);
    assert forall|g: int| 0 <= g < s.len() - 1 implies (#[trigger] s[g]).command
        != StitchCommand::End by {
        assert(!is_end_at(body, g));
    }
}

proof fn lemma_prefix_agrees(body: Seq<u8>, extra: Seq<u8>, n: nat)
    requires
        3 * n <= body.len(),
    ensures
        x_after(body + extra, n) == x_after(body, n),
        y_after(body + extra, n) == y_after(body, n),
        sequin_before(body + extra, n) == sequin_before(body, n),
    decreases n,
{
    if n > 0 {
        lemma_prefix_agrees(body, extra, (n - 1) as nat);
        let g = n - 1;
        assert((body + extra)[3 * g] == body[3 * g]);
        assert((body + extra)[3 * g + 1] == body[3 * g + 1]);
        assert((body + extra)[3 * g + 2] == body[3 * g + 2]);
    }
}

/// Once an end record is read nothing after it is: appending any bytes to a
/// body whose decoding ends with an end record leaves the decoding as it is.
pub proof fn lemma_bytes_after_end_ignored(body: Seq<u8>, extra: Seq<u8>, s: Seq<Stitch>)
    requires
        decodes_to(body, s),
        s.len() > 0,
        s.last().command == StitchCommand::End,
    ensures
        decodes_to(body + extra, s),
{
    let full = body + extra;
    let n = s.len();
    lemma_records_from_facts(body, 0);
    lemma_opcode_precedence(opcode_byte(body, n - 1), sequin_before(body, (n - 1) as nat));
    assert(s[n - 1].command == command_at(body, (n - 1) as nat));
    assert(is_end_at(body, n - 1));
    assert(3 * n <= body.len());
    assert forall|j: int| 0 <= j < n implies opcode_byte(full, j) == opcode_byte(body, j) by {
        assert(full[3 * j + 2] == body[3 * j + 2]);
    }
    assert forall|j: int| 0 <= j < n - 1 implies !is_end_at(full, j) by {
        assert(!is_end_at(body, j));
        assert(opcode_byte(full, j) == opcode_byte(body, j));
    }
    assert(group_count(full) >= group_count(body));
    lemma_records_skip(full, 0, (n - 1) as nat);
    assert(opcode_byte(full, n - 1) == opcode_byte(body, n - 1));
    assert(records_from(full, (n - 1) as nat) == n);
    assert forall|g: int| 0 <= g < n implies {
        &&& (#[trigger] s[g]).x as int == x_after(full, (g + 1) as nat)
        &&& s[g].y as int == y_after(full, (g + 1) as nat)
        &&& s[g].command == command_at(full, g as nat)
    } by {
        lemma_prefix_agrees(body, extra, (g + 1) as nat);
        lemma_prefix_agrees(body, extra, g as nat);
        assert(opcode_byte(full, g) == opcode_byte(body, g));
    }
}

/// `p` is the decoding of the whole file `data`: the header's fields, the
/// records after the header, their bounds and their statistics.
pub open spec fn pattern_of(p: Pattern, data: Seq<u8>) -> bool {
    let body = data.subrange(HEADER_SIZE as int, data.len() as int);
    &&& header_matches(p.metadata, data)
    &&& decodes_to(body, p.stitches@)
    &&& bounds_valid_for(p.bounds, p.stitches@)
    &&& statistics_of(p.statistics, p.stitches@)
    &&& p.color_changes as nat == count_command(p.stitches@, StitchCommand::ColorChange)
}

/// Decodes a whole DST file. Fails with `InsufficientData` exactly when the
/// buffer is shorter than the header; otherwise every malformation degrades
/// to absent fields or a shorter record sequence.
pub fn parse_dst(data: &[u8]) -> (r: Result<Pattern, DstError>)
    ensures
        data@.len() < HEADER_SIZE <==> r is Err,
        r matches Err(e) ==> e == DstError::InsufficientData,
        r matches Ok(p) ==> pattern_of(p, data@),
        data@.len() == HEADER_SIZE ==> (r matches Ok(p) && p.stitches@.len() == 0
            && p.bounds is None),
{
    if data.len() < HEADER_SIZE {
        return Err(DstError::InsufficientData);
    }
    let mut pattern = Pattern::new();
    pattern.metadata = parse_header(data);
    let body = slice_subrange(data, HEADER_SIZE, data.len());
    match parse_stitches(body, &mut pattern) {
        Ok(()) => {},
        Err(e) => {
            return Err(e);
        },
    }
    pattern.calculate_bounds();
    proof {
        if data@.len() == HEADER_SIZE {
            assert(group_count(body@) == 0);
            assert(record_count(body@) == 0);
        }
    }
    Ok(pattern)
}

} // verus!

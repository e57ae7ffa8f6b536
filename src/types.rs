//! The decoded pattern: stitch records, header metadata, bounds and statistics.
use vstd::prelude::*;

verus! {

/// What the machine does at a stitch record.
#[derive(Debug, Clone, Copy, PartialEq, Eq, Structural)]
pub enum StitchCommand {
    /// Regular stitch: the needle penetrates the fabric.
    Stitch,
    /// Jump to a new position without stitching.
    Move,
    /// Thread cut; never produced by the decoder.
    Trim,
    /// Switch to the next thread color.
    ColorChange,
    /// Toggle sequin mode.
    SequinMode,
    /// Eject a sequin.
    SequinEject,
    /// End of the pattern; always the last record.
    End,
}

/// One record at absolute coordinates, in machine units.
#[derive(Debug, Clone, Copy, PartialEq, Eq, Structural)]
pub struct Stitch {
    pub x: i128,
    pub y: i128,
    pub command: StitchCommand,
}

impl Stitch {
    pub fn new(x: i128, y: i128, command: StitchCommand) -> (r: Self)
        ensures
            r == (Stitch { x, y, command }),
    {
        Stitch { x, y, command }
    }
}

/// Fields read from the file header; each is absent where it could not be read.
#[derive(Debug, Clone)]
pub struct PatternMetadata {
    pub label: Option<String>,
    pub stitch_count: Option<u32>,
    pub color_count: Option<u32>,
}

impl PatternMetadata {
    /// The label as characters.
    pub open spec fn label_view(&self) -> Option<Seq<char>> {
        match self.label {
            Some(s) => Some(s@),
            None => None,
        }
    }
}

impl Default for PatternMetadata {
    fn default() -> (r: Self)
        ensures
            r.label.is_none(),
            r.stitch_count.is_none(),
            r.color_count.is_none(),
    {
        PatternMetadata { label: None, stitch_count: None, color_count: None }
    }
}

/// Axis-aligned bounding box of a set of points.
#[derive(Debug, Clone, Copy, PartialEq, Eq, Structural)]
pub struct Bounds {
    pub min_x: i128,
    pub min_y: i128,
    pub max_x: i128,
    pub max_y: i128,
}

impl Bounds {
    /// The empty box: minimums at the largest value, maximums at the smallest,
    /// so that the first `update` sets all four.
    pub fn new() -> (r: Self)
        ensures
            r.min_x == i128::MAX,
            r.min_y == i128::MAX,
            r.max_x == i128::MIN,
            r.max_y == i128::MIN,
    {
        Bounds { min_x: i128::MAX, min_y: i128::MAX, max_x: i128::MIN, max_y: i128::MIN }
    }

    /// Grows the box to hold the point `(x, y)`.
    pub fn update(&mut self, x: i128, y: i128)
        ensures
            final(self).min_x == if x < old(self).min_x { x } else { old(self).min_x },
            final(self).max_x == if x > old(self).max_x { x } else { old(self).max_x },
            final(self).min_y == if y < old(self).min_y { y } else { old(self).min_y },
            final(self).max_y == if y > old(self).max_y { y } else { old(self).max_y },
    {
        if x < self.min_x {
            self.min_x = x;
        }
        if x > self.max_x {
            self.max_x = x;
        }
        if y < self.min_y {
            self.min_y = y;
        }
        if y > self.max_y {
            self.max_y = y;
        }
    }

    pub fn width(&self) -> (r: i128)
        requires
            i128::MIN <= self.max_x - self.min_x <= i128::MAX,
        ensures
            r == self.max_x - self.min_x,
    {
        self.max_x - self.min_x
    }

    pub fn height(&self) -> (r: i128)
        requires
            i128::MIN <= self.max_y - self.min_y <= i128::MAX,
        ensures
            r == self.max_y - self.min_y,
    {
        self.max_y - self.min_y
    }
}

impl Default for Bounds {
    fn default() -> (r: Self)
        ensures
            r.min_x == i128::MAX,
            r.min_y == i128::MAX,
            r.max_x == i128::MIN,
            r.max_y == i128::MIN,
    {
        Bounds::new()
    }
}

/// `b` is the tightest box around the points of `s`: every point lies in it,
/// and each of its four sides touches a point.
pub open spec fn tight_bounds(b: Bounds, s: Seq<Stitch>) -> bool {
    &&& forall|i: int| 0 <= i < s.len() ==> b.min_x <= #[trigger] s[i].x <= b.max_x
    &&& forall|i: int| 0 <= i < s.len() ==> b.min_y <= #[trigger] s[i].y <= b.max_y
    &&& exists|i: int| 0 <= i < s.len() && #[trigger] s[i].x == b.min_x
    &&& exists|i: int| 0 <= i < s.len() && #[trigger] s[i].x == b.max_x
    &&& exists|i: int| 0 <= i < s.len() && #[trigger] s[i].y == b.min_y
    &&& exists|i: int| 0 <= i < s.len() && #[trigger] s[i].y == b.max_y
}

/// The bounds of a stitch sequence: absent when it is empty, else tight.
pub open spec fn bounds_valid_for(b: Option<Bounds>, s: Seq<Stitch>) -> bool {
    match b {
        None => s.len() == 0,
        Some(bb) => s.len() > 0 && tight_bounds(bb, s),
    }
}

/// Number of records of `s` that carry command `c`.
pub open spec fn count_command(s: Seq<Stitch>, c: StitchCommand) -> nat
    decreases s.len(),
{
    if s.len() == 0 {
        0
    } else {
        count_command(s.drop_last(), c) + if s.last().command == c { 1nat } else { 0nat }
    }
}

pub proof fn lemma_count_command_le_len(s: Seq<Stitch>, c: StitchCommand)
    ensures
        count_command(s, c) <= s.len(),
    decreases s.len(),
{
    if s.len() > 0 {
        lemma_count_command_le_len(s.drop_last(), c);
    }
}

/// Stitching speed of the modelled machine, in stitches per minute.
pub const MACHINE_SPEED_SPM: u128 = 800;

/// Time a color change costs the modelled machine, in seconds.
pub const COLOR_CHANGE_PENALTY_SECONDS: u128 = 15;

/// Estimated machine time, counted in units of 1/800 minute (one stitch
/// takes one unit, a color change 15 s): `real / 800 + colors * 15 / 60`
/// minutes is `time_units(real, colors) / 800` minutes.
pub open spec fn time_units(real_stitches: nat, color_changes: nat) -> nat {
    real_stitches + color_changes * (COLOR_CHANGE_PENALTY_SECONDS * MACHINE_SPEED_SPM / 60) as nat
}

/// The time estimate is exact: `time_units(real, colors) / 800` minutes is
/// `real / 800 + colors * 15 / 60` minutes, for any counts including zero
/// (both sides multiplied by 48000 = 800 * 60).
pub proof fn lemma_estimated_time_exact(real_stitches: nat, color_changes: nat)
    ensures
        60 * time_units(real_stitches, color_changes) == 60 * real_stitches + 800 * (color_changes
            * 15),
        time_units(0, 0) == 0,
{
    assert(COLOR_CHANGE_PENALTY_SECONDS * MACHINE_SPEED_SPM / 60 == 200);
    let t = time_units(real_stitches, color_changes);
    assert(t == real_stitches + color_changes * 200);
    assert(60 * t == 60 * real_stitches + 800 * (color_changes * 15)) by (nonlinear_arith)
        requires
            t == real_stitches + color_changes * 200,
    ;
}

/// Counts over the decoded sequence and the estimated machine time.
#[derive(Debug, Clone, Copy, PartialEq, Eq, Structural)]
pub struct Statistics {
    pub real_stitch_count: usize,
    pub jump_count: usize,
    pub color_change_count: usize,
    /// Estimated machine time in units of 1/800 minute (see `time_units`).
    pub estimated_time_units: u128,
}

impl Statistics {
    pub fn new() -> (r: Self)
        ensures
            r == (Statistics {
                real_stitch_count: 0,
                jump_count: 0,
                color_change_count: 0,
                estimated_time_units: 0,
            }),
    {
        Statistics { real_stitch_count: 0, jump_count: 0, color_change_count: 0, estimated_time_units: 0 }
    }
}

/// A decoded embroidery pattern.
#[derive(Debug, Clone)]
pub struct Pattern {
    pub stitches: Vec<Stitch>,
    pub metadata: PatternMetadata,
    pub bounds: Option<Bounds>,
    pub color_changes: usize,
    pub statistics: Statistics,
}

impl Pattern {
    /// An empty pattern with no metadata.
    pub fn new() -> (r: Self)
        ensures
            r.stitches@.len() == 0,
            r.metadata.label.is_none(),
            r.metadata.stitch_count.is_none(),
            r.metadata.color_count.is_none(),
            r.bounds.is_none(),
            r.color_changes == 0,
            r.statistics == (Statistics {
                real_stitch_count: 0,
                jump_count: 0,
                color_change_count: 0,
                estimated_time_units: 0,
            }),
    {
        Pattern {
            stitches: Vec::new(),
            metadata: PatternMetadata::default(),
            bounds: None,
            color_changes: 0,
            statistics: Statistics::new(),
        }
    }

    /// Appends a record at `(x, y)`; a color change is also counted.
    pub fn add_stitch(&mut self, x: i128, y: i128, command: StitchCommand)
        requires
            command == StitchCommand::ColorChange ==> old(self).color_changes < usize::MAX,
        ensures
            final(self).stitches@ == old(self).stitches@.push(Stitch { x, y, command }),
            final(self).color_changes == old(self).color_changes + if command
                == StitchCommand::ColorChange {
                1int
            } else {
                0int
            },
            final(self).metadata == old(self).metadata,
            final(self).bounds == old(self).bounds,
            final(self).statistics == old(self).statistics,
    {
        self.stitches.push(Stitch::new(x, y, command));
        if command == StitchCommand::ColorChange {
            self.color_changes += 1;
        }
    }

    /// Recomputes `bounds` from scratch: absent for an empty sequence, else
    /// the tightest box around every record's coordinates.
    pub fn calculate_bounds(&mut self)
        ensures
            bounds_valid_for(final(self).bounds, final(self).stitches@),
            final(self).stitches@ == old(self).stitches@,
            final(self).metadata == old(self).metadata,
            final(self).color_changes == old(self).color_changes,
            final(self).statistics == old(self).statistics,
    {
        let mut bounds = Bounds::new();
        let n = self.stitches.len();
        let ghost s = self.stitches@;
        let ghost mut lo_x: int = 0;
        let ghost mut hi_x: int = 0;
        let ghost mut lo_y: int = 0;
        let ghost mut hi_y: int = 0;
        let mut i: usize = 0;
        while i < n
            invariant
                n == s.len(),
                s == self.stitches@,
                0 <= i <= n,
                forall|j: int| 0 <= j < i ==> bounds.min_x <= #[trigger] s[j].x <= bounds.max_x,
                forall|j: int| 0 <= j < i ==> bounds.min_y <= #[trigger] s[j].y <= bounds.max_y,
                i > 0 ==> 0 <= lo_x < i && s[lo_x].x == bounds.min_x,
                i > 0 ==> 0 <= hi_x < i && s[hi_x].x == bounds.max_x,
                i > 0 ==> 0 <= lo_y < i && s[lo_y].y == bounds.min_y,
                i > 0 ==> 0 <= hi_y < i && s[hi_y].y == bounds.max_y,
                i == 0 ==> bounds == (Bounds {
                    min_x: i128::MAX,
                    min_y: i128::MAX,
                    max_x: i128::MIN,
                    max_y: i128::MIN,
                }),
            decreases n - i,
        {
            let st = self.stitches[i];
            let ghost prev = bounds;
            bounds.update(st.x, st.y);
            proof {
                let k = i as int;
                if i == 0 || st.x < prev.min_x {
                    lo_x = k;
                }
                if i == 0 || st.x > prev.max_x {
                    hi_x = k;
                }
                if i == 0 || st.y < prev.min_y {
                    lo_y = k;
                }
                if i == 0 || st.y > prev.max_y {
                    hi_y = k;
                }
            }
            i += 1;
        }
        if n > 0 {
            assert(s[lo_x].x == bounds.min_x);
            assert(s[hi_x].x == bounds.max_x);
            assert(s[lo_y].y == bounds.min_y);
            assert(s[hi_y].y == bounds.max_y);
            self.bounds = Some(bounds);
        } else {
            self.bounds = None;
        }
    }
}

} // verus!

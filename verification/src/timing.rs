//! Animation timing: the local time of a glyph and its eased offset.
//!
//! Time is an integer number of millionths. A frame is ten thousand of
//! them, so frame 100 is the time 1.

use vstd::prelude::*;
use vstd::arithmetic::div_mod::lemma_div_is_ordered;
use crate::layout::COLUMNS;

verus! {

/// The time 1, at which a glyph reaches its resting column.
pub const UNIT: u64 = 1_000_000;

/// The time that passes from one frame to the next: a hundredth.
pub const FRAME_STEP: u64 = 10_000;

/// How much later each line starts than the line above it: a half.
pub const LINE_DELAY: u64 = 500_000;

/// The cube of `UNIT`.
pub const UNIT_CUBED: u64 = 1_000_000_000_000_000_000;

/// The least time that a frame takes, in nanoseconds: ten milliseconds.
pub const FRAME_BUDGET: u64 = 10_000_000;

/// What a glyph does in a frame.
#[derive(Clone, Copy, Debug, PartialEq, Eq, Structural)]
pub enum Phase {
    /// Its local time is negative: it is not shown.
    Waiting,
    /// Its local time is between 0 and 1, both included: it is shown this
    /// many columns to the right of its resting column.
    Moving(usize),
    /// Its local time is beyond 1: it is shown at its resting column.
    Settled,
}

/// Local time of the glyph that rests at column `j` of line `l`, in frame
/// `i`, where each column starts `char_delay` later than the one before.
pub open spec fn local_time(i: int, j: int, l: int, char_delay: int) -> int {
    i * FRAME_STEP - j * char_delay - l * LINE_DELAY
}

/// Cubic ease-out: the whole number of columns in `(1 - t)^3 * COLUMNS`.
pub open spec fn eased_offset(t: int) -> int {
    ((UNIT - t) * (UNIT - t) * (UNIT - t) * COLUMNS) / (UNIT_CUBED as int)
}

/// The phase of a glyph at local time `t`.
pub open spec fn phase_at(t: int) -> Phase {
    if t > UNIT {
        Phase::Settled
    } else if t < 0 {
        Phase::Waiting
    } else {
        Phase::Moving(eased_offset(t) as usize)
    }
}

/// The column at which a glyph that rests at column `j` is shown at local
/// time `t`, if it is shown.
pub open spec fn column_at(j: int, t: int) -> Option<int> {
    match phase_at(t) {
        Phase::Waiting => None,
        Phase::Moving(n) => Some(j + n),
        Phase::Settled => Some(j),
    }
}

/// A glyph is pending until its local time has passed 1.
pub open spec fn pending_at(t: int) -> bool {
    t <= UNIT
}

/// The cube of a time's distance from 1 is within the cube of 1.
pub proof fn lemma_cube_bounds(r: int)
    requires
        0 <= r <= UNIT,
    ensures
        0 <= r * r <= 1_000_000_000_000,
        0 <= r * r * r <= UNIT_CUBED,
        0 <= r * r * r * COLUMNS <= UNIT_CUBED * COLUMNS,
{
    assert(0 <= r * r <= 1_000_000_000_000) by (nonlinear_arith)
        requires
            0 <= r <= 1_000_000,
    ;
    let sq = r * r;
    assert(0 <= sq * r <= 1_000_000_000_000_000_000) by (nonlinear_arith)
        requires
            0 <= r <= 1_000_000,
            0 <= sq <= 1_000_000_000_000,
    ;
    let cube = r * r * r;
    assert(0 <= cube * 80 <= 1_000_000_000_000_000_000 * 80) by (nonlinear_arith)
        requires
            0 <= cube <= 1_000_000_000_000_000_000,
    ;
}

/// The eased offset is a number of columns from 0 to `COLUMNS`: it is
/// `COLUMNS` at time 0 and 0 at time 1.
pub proof fn lemma_eased_offset_range(t: int)
    requires
        0 <= t <= UNIT,
    ensures
        0 <= eased_offset(t) <= COLUMNS,
        eased_offset(0) == COLUMNS,
        eased_offset(UNIT as int) == 0,
{
    let r = UNIT - t;
    lemma_cube_bounds(r);
    let scaled = r * r * r * COLUMNS;
    assert(0 <= scaled / 1_000_000_000_000_000_000 <= 80) by (nonlinear_arith)
        requires
            0 <= scaled <= 1_000_000_000_000_000_000 * 80,
    ;
    assert(1_000_000int * 1_000_000 * 1_000_000 * 80 == 80 * 1_000_000_000_000_000_000int)
        by (nonlinear_arith);
    assert((80 * 1_000_000_000_000_000_000int) / 1_000_000_000_000_000_000int == 80)
        by (nonlinear_arith);
    assert(eased_offset(0) == COLUMNS);
    assert(eased_offset(UNIT as int) == 0);
}

/// The eased offset never grows with time.
pub proof fn lemma_eased_offset_nonincreasing(t1: int, t2: int)
    requires
        0 <= t1 <= t2 <= UNIT,
    ensures
        eased_offset(t2) <= eased_offset(t1),
{
    let a = UNIT - t1;
    let b = UNIT - t2;
    assert(b * b <= a * a) by (nonlinear_arith)
        requires
            0 <= b <= a,
    ;
    let bb = b * b;
    let aa = a * a;
    assert(0 <= bb * b <= aa * a) by (nonlinear_arith)
        requires
            0 <= b <= a,
            0 <= bb <= aa,
            bb == b * b,
    ;
    let b3 = b * b * b;
    let a3 = a * a * a;
    assert(b3 * 80 <= a3 * 80) by (nonlinear_arith)
        requires
            b3 <= a3,
    ;
    lemma_div_is_ordered(b3 * 80, a3 * 80, UNIT_CUBED as int);
}

/// The phase of the glyph that rests at column `j` of line `l`, in frame `i`.
pub fn phase(i: usize, j: usize, l: usize, char_delay: u64) -> (p: Phase)
    ensures
        p == phase_at(local_time(i as int, j as int, l as int, char_delay as int)),
{
    let now: u128 = i as u128 * 10_000u128;
    let ghost t = local_time(i as int, j as int, l as int, char_delay as int);
    assert(0 <= j * char_delay <= 0xffff_ffff_ffff_ffff * 0xffff_ffff_ffff_ffff)
        by (nonlinear_arith)
        requires
            0 <= j <= 0xffff_ffff_ffff_ffff,
            0 <= char_delay <= 0xffff_ffff_ffff_ffff,
    ;
    let column_lag: u128 = j as u128 * char_delay as u128;
    if column_lag > now {
        return Phase::Waiting;
    }
    let line_lag: u128 = l as u128 * 500_000u128;
    let start: u128 = column_lag + line_lag;
    if start > now {
        return Phase::Waiting;
    }
    let elapsed: u128 = now - start;
    assert(elapsed == t);
    if elapsed > 1_000_000u128 {
        return Phase::Settled;
    }
    let rest: u128 = 1_000_000u128 - elapsed;
    proof {
        lemma_cube_bounds(rest as int);
        lemma_eased_offset_range(t);
    }
    let square: u128 = rest * rest;
    let cube: u128 = square * rest;
    let scaled: u128 = cube * 80u128;
    let offset: u128 = scaled / 1_000_000_000_000_000_000u128;
    assert(offset == eased_offset(t));
    Phase::Moving(offset as usize)
}

/// How long to pause after a frame that took `elapsed` nanoseconds to
/// compose and print: what is left of the frame budget, if anything is.
pub fn pause_after(elapsed: u128) -> (pause: u64)
    ensures
        pause == if elapsed < FRAME_BUDGET {
            FRAME_BUDGET - elapsed
        } else {
            0
        },
{
    if elapsed < 10_000_000u128 {
        (10_000_000u128 - elapsed) as u64
    } else {
        0
    }
}

/// Monotonic approach. From the frame in which a glyph has started, the
/// column at which it is shown never moves to the right in a later frame,
/// and it is the resting column from local time 1 on.
pub proof fn lemma_column_nonincreasing(i1: int, i2: int, j: int, l: int, char_delay: int)
    requires
        i1 <= i2,
        0 <= local_time(i1, j, l, char_delay),
    ensures
        column_at(j, local_time(i1, j, l, char_delay)) is Some,
        column_at(j, local_time(i2, j, l, char_delay)) is Some,
        column_at(j, local_time(i2, j, l, char_delay))->0 <= column_at(
            j,
            local_time(i1, j, l, char_delay),
        )->0,
        j <= column_at(j, local_time(i2, j, l, char_delay))->0,
        local_time(i2, j, l, char_delay) >= UNIT ==> column_at(
            j,
            local_time(i2, j, l, char_delay),
        ) == Some(j),
{
    let t1 = local_time(i1, j, l, char_delay);
    let t2 = local_time(i2, j, l, char_delay);
    if t1 <= UNIT {
        lemma_eased_offset_range(t1);
    }
    if t2 <= UNIT {
        lemma_eased_offset_range(t2);
        lemma_eased_offset_nonincreasing(t1, t2);
    }
}

/// Resting is stable. Once the local time of a glyph has reached 1, every
/// later frame shows it at its resting column, as that frame does.
pub proof fn lemma_resting_is_stable(i1: int, i2: int, j: int, l: int, char_delay: int)
    requires
        i1 <= i2,
        local_time(i1, j, l, char_delay) >= UNIT,
    ensures
        column_at(j, local_time(i1, j, l, char_delay)) == Some(j),
        column_at(j, local_time(i2, j, l, char_delay)) == Some(j),
{
    lemma_eased_offset_range(UNIT as int);
}

} // verus!

use vstd::prelude::*;
use crate::fixed::UNIT;
use crate::waveform::{WaveformView, wf};

verus! {

/// How far one press of an arrow key moves the position: a twentieth.
pub const KEY_STEP: u64 = 50_000;

/// Horizontal text direction of the host layout.
#[derive(Clone, Copy, Debug, PartialEq, Eq, Structural)]
pub enum TextDirection {
    LeftToRight,
    RightToLeft,
}

/// A horizontal arrow key, or a focus move in that direction.
#[derive(Clone, Copy, Debug, PartialEq, Eq, Structural)]
pub enum Arrow {
    Left,
    Right,
}

/// `x / width` in units of `UNIT`, truncated toward zero.
pub open spec fn coord_fraction(x: int, width: int) -> int {
    if x >= 0 {
        x * UNIT / width
    } else {
        -((-x) * UNIT / width)
    }
}

/// The playback position under pointer coordinate `x`: `x / width` from the
/// left edge, or `1 - x / width` in a right-to-left layout.
pub open spec fn coord_position(x: int, width: int, dir: TextDirection) -> int {
    match dir {
        TextDirection::LeftToRight => coord_fraction(x, width),
        TextDirection::RightToLeft => UNIT - coord_fraction(x, width),
    }
}

/// `x / width` in units of `UNIT`, truncated toward zero; `None` for a
/// widget of no width.
pub fn fraction_of_width(x: i32, width: u32) -> (r: Option<i64>)
    ensures
        width == 0 <==> r is None,
        r matches Some(f) ==> f == coord_fraction(x as int, width as int),
{
    if width == 0 {
        return None;
    }
    let xl = x as i64;
    let w = width as u64;
    proof {
        assert(0 <= (if xl >= 0 { xl as int } else { -xl }) <= 2147483648);
    }
    if xl >= 0 {
        let a: u64 = xl as u64;
        assert(a * UNIT <= 2147483648 * UNIT) by (nonlinear_arith)
            requires
                a <= 2147483648,
        ;
        proof {
            lemma_div_shrinks((a * UNIT) as int, w as int);
        }
        Some((a * UNIT / w) as i64)
    } else {
        let a: u64 = (-xl) as u64;
        assert(a * UNIT <= 2147483648 * UNIT) by (nonlinear_arith)
            requires
                a <= 2147483648,
        ;
        proof {
            lemma_div_shrinks((a * UNIT) as int, w as int);
        }
        Some(-((a * UNIT / w) as i64))
    }
}

proof fn lemma_div_shrinks(a: int, w: int)
    requires
        a >= 0,
        w >= 1,
    ensures
        0 <= a / w <= a,
{
    assert(0 <= a / w <= a) by (nonlinear_arith)
        requires
            a >= 0,
            w >= 1,
    ;
}

/// The same pointer coordinate maps to mirrored positions in the two
/// directions: `x / W` left to right, `1 - x / W` right to left.
pub proof fn lemma_direction_mirror(x: int, width: int)
    ensures
        coord_position(x, width, TextDirection::LeftToRight) == coord_fraction(x, width),
        coord_position(x, width, TextDirection::RightToLeft) == UNIT - coord_fraction(x, width),
        coord_position(x, width, TextDirection::RightToLeft) == UNIT - coord_position(
            x,
            width,
            TextDirection::LeftToRight,
        ),
{
}

/// Whether a focus move in `dir` stays inside a widget at `position`: it does
/// while there is room to move that way.
pub open spec fn focus_stays(position: int, dir: Arrow) -> bool {
    match dir {
        Arrow::Left => position > 0,
        Arrow::Right => position < UNIT,
    }
}

impl WaveformView {
    /// The position to announce for a drag to pointer coordinate `x` on a
    /// widget `width` pixels wide; `None` when the widget has no width.
    pub fn seek_to_coord(&self, x: i32, width: u32, dir: TextDirection) -> (r: Option<i64>)
        ensures
            width == 0 <==> r is None,
            r matches Some(p) ==> p == coord_position(x as int, width as int, dir),
    {
        let f = fraction_of_width(x, width);
        match f {
            None => None,
            Some(f) => {
                proof {
                    let a: int = if x >= 0 { x as int } else { -x };
                    assert(a * UNIT <= 2147483648 * UNIT) by (nonlinear_arith)
                        requires
                            0 <= a <= 2147483648,
                    ;
                    lemma_div_shrinks(a * UNIT, width as int);
                }
                match dir {
                    TextDirection::LeftToRight => Some(f),
                    TextDirection::RightToLeft => Some(UNIT as i64 - f),
                }
            },
        }
    }

    /// The position under pointer coordinate `x`, as a fraction of the width
    /// from the left edge whatever the direction, for the scrub cursor.
    pub fn hover_to_coord(&mut self, x: i32, width: u32)
        requires
            wf(old(self)@),
        ensures
            wf(final(self)@),
            final(self)@.position == old(self)@.position,
            final(self)@.peaks == old(self)@.peaks,
            final(self)@.ticking == old(self)@.ticking,
            width > 0 ==> final(self)@.hover == Some(
                crate::fixed::clamp_int(coord_fraction(x as int, width as int), 0, UNIT as int) as u64,
            ),
            width == 0 ==> final(self)@ == old(self)@,
    {
        let f = fraction_of_width(x, width);
        if f.is_some() {
            self.set_hover_position(f);
        }
    }

    /// The position to announce when an arrow key is released: one step back
    /// or forth from the current position, not clamped.
    pub fn key_seek(&self, key: Arrow) -> (r: i64)
        requires
            wf(self@),
        ensures
            r == match key {
                Arrow::Left => self@.position - KEY_STEP,
                Arrow::Right => self@.position + KEY_STEP,
            },
    {
        let p = self.position() as i64;
        match key {
            Arrow::Left => p - KEY_STEP as i64,
            Arrow::Right => p + KEY_STEP as i64,
        }
    }

    /// Whether keyboard focus, once on the widget, stays in it for a move in
    /// `dir`: it does while the position can still move that way.
    pub fn focus_move(&self, dir: Arrow) -> (r: bool)
        ensures
            r == focus_stays(self@.position as int, dir),
    {
        let p = self.position();
        match dir {
            Arrow::Left => p > 0,
            Arrow::Right => p < UNIT,
        }
    }
}

} // verus!

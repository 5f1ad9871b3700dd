//! Rectangles, DPI scaling and the small integer helpers every surface's layout
//! is built from.

use vstd::prelude::*;

verus! {

/// A rectangle in pixels. `right` and `bottom` are exclusive.
#[derive(Clone, Copy, PartialEq, Eq, Structural, Debug)]
pub struct Rect {
    pub left: i32,
    pub top: i32,
    pub right: i32,
    pub bottom: i32,
}

impl Rect {
    /// The points inside the rectangle.
    pub open spec fn has(self, x: int, y: int) -> bool {
        self.left <= x < self.right && self.top <= y < self.bottom
    }

    /// `(x, y)` is inside the rectangle.
    pub fn contains(&self, x: i32, y: i32) -> (r: bool)
        ensures
            r == self.has(x as int, y as int),
    {
        x >= self.left && x < self.right && y >= self.top && y < self.bottom
    }

    /// Far enough from the ends of the coordinate range that edges can be added.
    pub open spec fn near(self) -> bool {
        near(self.left as int) && near(self.top as int) && near(self.right as int) && near(
            self.bottom as int,
        )
    }
}

/// The rectangle with these four edges, for contracts.
pub open spec fn rect(left: int, top: int, right: int, bottom: int) -> Rect {
    Rect { left: left as i32, top: top as i32, right: right as i32, bottom: bottom as i32 }
}

/// A coordinate far from both ends of the range.
pub open spec fn near(v: int) -> bool {
    -0x3800_0000 <= v <= 0x3800_0000
}

pub open spec fn fits_i32(v: int) -> bool {
    i32::MIN <= v <= i32::MAX
}

/// Division that rounds toward zero, for a positive divisor.
pub open spec fn toward_zero(a: int, b: int) -> int {
    if a >= 0 {
        a / b
    } else {
        -((-a) / b)
    }
}

/// The larger of two numbers.
pub open spec fn max2(a: int, b: int) -> int {
    if a >= b {
        a
    } else {
        b
    }
}

/// The smaller of two numbers.
pub open spec fn min2(a: int, b: int) -> int {
    if a <= b {
        a
    } else {
        b
    }
}

/// `v` moved into `lo..=hi`.
pub open spec fn clamped(v: int, lo: int, hi: int) -> int {
    if v < lo {
        lo
    } else if v > hi {
        hi
    } else {
        v
    }
}

pub fn max_i32(a: i32, b: i32) -> (r: i32)
    ensures
        r == max2(a as int, b as int),
{
    if a >= b {
        a
    } else {
        b
    }
}

pub fn min_i32(a: i32, b: i32) -> (r: i32)
    ensures
        r == min2(a as int, b as int),
{
    if a <= b {
        a
    } else {
        b
    }
}

/// `v` moved into `lo..=hi`.
pub fn clamp_i32(v: i32, lo: i32, hi: i32) -> (r: i32)
    requires
        lo <= hi,
    ensures
        r == clamped(v as int, lo as int, hi as int),
{
    if v < lo {
        lo
    } else if v > hi {
        hi
    } else {
        v
    }
}

/// The vertical resolutions a layout can be asked for: anything up to several
/// hundred times the 96 dots per inch the metrics are written in.
pub open spec fn valid_dpi(dpi: i32) -> bool {
    0 <= dpi <= 32767
}

/// `v` pixels at 96 DPI, in pixels at `dpi`.
#[verifier::opaque]
pub open spec fn px(v: int, dpi: int) -> int {
    toward_zero(v * dpi, 96)
}

/// What `px` makes of a non-negative metric.
pub proof fn lemma_px(v: int, dpi: int)
    requires
        0 <= v,
        0 <= dpi <= 32767,
    ensures
        0 <= px(v, dpi) <= v * 342,
        px(v, dpi) == v * dpi / 96,
{
    reveal(px);
    assert(0 <= v * dpi <= v * 32767) by (nonlinear_arith)
        requires
            0 <= v,
            0 <= dpi <= 32767,
    ;
}

/// Two metrics scaled apart are no larger than their sum scaled.
pub proof fn lemma_px_sum(a: int, b: int, dpi: int)
    requires
        0 <= a,
        0 <= b,
        0 <= dpi <= 32767,
    ensures
        px(a, dpi) + px(b, dpi) <= px(a + b, dpi),
{
    reveal(px);
    assert((a + b) * dpi == a * dpi + b * dpi) by (nonlinear_arith);
    assert(0 <= a * dpi && 0 <= b * dpi) by (nonlinear_arith)
        requires
            0 <= a,
            0 <= b,
            0 <= dpi,
    ;
}

/// Scale a 96-DPI pixel value to a monitor's DPI.
pub fn scaled(v: i32, dpi: i32) -> (r: i32)
    requires
        fits_i32(v * dpi),
    ensures
        r == px(v as int, dpi as int),
        0 <= v && valid_dpi(dpi) ==> 0 <= r <= v * 342,
{
    proof {
        reveal(px);
        if 0 <= v && valid_dpi(dpi) {
            lemma_px(v as int, dpi as int);
        }
    }
    v * dpi / 96
}

/// A scroll after the wheel turned by `delta`, of which 120 are one notch and one notch
/// is `step` pixels.
pub open spec fn wheeled(scroll: int, delta: int, step: int, limit: int) -> int {
    clamped(scroll - toward_zero(step * delta, 120), 0, limit)
}

// ---- Laws ----

/// At 96 DPI a metric is its number of pixels, at 192 twice that, and in between the
/// next lower whole number.
pub proof fn metrics_grow_with_the_resolution(v: int, dpi: int)
    requires
        0 <= v,
        0 <= dpi <= 32767,
    ensures
        px(v, 96) == v,
        px(v, 192) == 2 * v,
        px(v, 0) == 0,
        96 * px(v, dpi) <= v * dpi < 96 * px(v, dpi) + 96,
        px(-v, dpi) == -px(v, dpi),
{
    reveal(px);
    assert(v * 96 / 96 == v && v * 192 / 96 == 2 * v && v * 0 == 0);
    assert(0 <= v * dpi) by (nonlinear_arith)
        requires
            0 <= v,
            0 <= dpi,
    ;
    assert((-v) * dpi == -(v * dpi)) by (nonlinear_arith);
}

/// A number moved into a range lies in it, and stays where it is if it lay in it.
pub proof fn clamping_keeps_what_fits(v: int, lo: int, hi: int)
    requires
        lo <= hi,
    ensures
        lo <= clamped(v, lo, hi) <= hi,
        lo <= v <= hi ==> clamped(v, lo, hi) == v,
        v < lo ==> clamped(v, lo, hi) == lo,
        v > hi ==> clamped(v, lo, hi) == hi,
{
}

/// A notch of the wheel scrolls one step, up for a turn forward and down for one back,
/// no further than the ends, and one the other way undoes it.
pub proof fn a_notch_scrolls_one_step(scroll: int, step: int, limit: int)
    requires
        0 <= step,
        0 <= scroll <= limit,
    ensures
        wheeled(scroll, 120, step, limit) == if scroll - step < 0 {
            0
        } else {
            scroll - step
        },
        wheeled(scroll, -120, step, limit) == if scroll + step > limit {
            limit
        } else {
            scroll + step
        },
        scroll + step <= limit ==> wheeled(
            wheeled(scroll, -120, step, limit),
            120,
            step,
            limit,
        ) == scroll,
        wheeled(scroll, 0, step, limit) == scroll,
{
    assert(step * 120 / 120 == step);
    assert(step * -120 == -(step * 120)) by (nonlinear_arith);
    assert(step * 0 == 0) by (nonlinear_arith);
}

} // verus!

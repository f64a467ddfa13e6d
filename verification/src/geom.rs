use vstd::prelude::*;

verus! {

/// Lengths and positions are kept in hundredths of a device pixel while the
/// layout pass works, and rounded to whole pixels for the final geometry.
/// Every stored length is clamped into `[0, MAX_LEN_H]`, so sums of two
/// stored lengths never overflow an `i64`.
pub const MAX_LEN_H: i64 = 1_000_000_000_000;

/// The largest whole-pixel coordinate the tree stores: `MAX_LEN_H / 100`.
pub const MAX_PX: i64 = 10_000_000_000;

/// A resolved box: a position in the coordinate space of the parent plus a
/// size.  The unrounded slot is in hundredths of a pixel, the final slot in
/// whole pixels.
#[derive(Clone, Copy, Debug, PartialEq, Eq, Structural)]
pub struct Geometry {
    pub x: i64,
    pub y: i64,
    pub width: i64,
    pub height: i64,
}

impl Geometry {
    /// Bounds under which hit-testing arithmetic cannot overflow.
    pub open spec fn wf(self) -> bool {
        &&& -MAX_LEN_H <= self.x <= MAX_LEN_H
        &&& -MAX_LEN_H <= self.y <= MAX_LEN_H
        &&& 0 <= self.width <= MAX_LEN_H
        &&& 0 <= self.height <= MAX_LEN_H
    }

    pub open spec fn spec_zero() -> Geometry {
        Geometry { x: 0, y: 0, width: 0, height: 0 }
    }

    pub fn zero() -> (r: Geometry)
        ensures
            r == Geometry::spec_zero(),
    {
        Geometry { x: 0, y: 0, width: 0, height: 0 }
    }
}

/// The definite space handed to the layout pass, in hundredths of a pixel.
#[derive(Clone, Copy, Debug, PartialEq, Eq, Structural)]
pub struct AvailableSpace {
    pub width: i64,
    pub height: i64,
}

/// The device description: viewport size in whole device pixels plus a
/// scale factor in hundredths (100 is a scale of one).
#[derive(Clone, Copy, Debug, PartialEq, Eq, Structural)]
pub struct Viewport {
    pub width: i64,
    pub height: i64,
    pub scale_hundredths: i64,
}

impl Viewport {
    pub open spec fn wf(self) -> bool {
        &&& 0 <= self.width <= MAX_PX
        &&& 0 <= self.height <= MAX_PX
        &&& 0 < self.scale_hundredths <= 10_000
    }
}

/// Addition of two clamped lengths, itself clamped to `MAX_LEN_H`.
pub open spec fn spec_add_clamp(a: i64, b: i64) -> i64
    recommends
        0 <= a <= MAX_LEN_H,
        0 <= b <= MAX_LEN_H,
{
    if a + b > MAX_LEN_H {
        MAX_LEN_H
    } else {
        (a + b) as i64
    }
}

pub fn add_clamp(a: i64, b: i64) -> (r: i64)
    requires
        0 <= a <= MAX_LEN_H,
        0 <= b <= MAX_LEN_H,
    ensures
        r == spec_add_clamp(a, b),
        0 <= r <= MAX_LEN_H,
{
    if a > MAX_LEN_H - b {
        MAX_LEN_H
    } else {
        a + b
    }
}

/// Rounding from hundredths of a pixel to whole pixels, halves up.
pub open spec fn spec_round_px(h: i64) -> i64
    recommends
        0 <= h <= MAX_LEN_H,
{
    ((h + 50) / 100) as i64
}

pub fn round_px(h: i64) -> (r: i64)
    requires
        0 <= h <= MAX_LEN_H,
    ensures
        r == spec_round_px(h),
        0 <= r <= MAX_PX,
{
    (h + 50) / 100
}

/// Pixel-rounding of a whole unrounded box.
pub open spec fn spec_round_geom(g: Geometry) -> Geometry
    recommends
        0 <= g.x <= MAX_LEN_H,
        0 <= g.y <= MAX_LEN_H,
        g.wf(),
{
    Geometry {
        x: spec_round_px(g.x),
        y: spec_round_px(g.y),
        width: spec_round_px(g.width),
        height: spec_round_px(g.height),
    }
}

pub fn round_geom(g: Geometry) -> (r: Geometry)
    requires
        0 <= g.x <= MAX_LEN_H,
        0 <= g.y <= MAX_LEN_H,
        g.wf(),
    ensures
        r == spec_round_geom(g),
        r.wf(),
{
    Geometry {
        x: round_px(g.x),
        y: round_px(g.y),
        width: round_px(g.width),
        height: round_px(g.height),
    }
}

} // verus!

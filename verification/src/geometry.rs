//! Positions, sizes, rotations, and the axis-aligned bounding box of a
//! rotated rectangle.
//!
//! All lengths are fixed-point millimeters ([`crate::Mm`], thousandths of a
//! millimeter). Trigonometric values enter as fixed-point samples scaled by
//! [`TRIG_ONE`]; the caller evaluates sine and cosine of the single
//! reference angle that [`reference_angle_millidegrees`] reports for the
//! rotation's quadrant.

use vstd::prelude::*;
use crate::Mm;

verus! {

/// Denominator of the fixed-point trigonometric samples: a sample of
/// `TRIG_ONE` stands for the real value one.
pub const TRIG_ONE: i64 = 1000000;

/// Largest extent (width plus height) of a rectangle handed to the
/// bounding-box computation, in thousandths of a millimeter. Keeps every
/// intermediate product inside `i64`.
pub const MAX_EXTENT: i64 = 4000000000000;

/// An offset in document length units; the origin sits at the lower-left
/// corner of the available area and y grows upward.
#[derive(Clone, Copy, PartialEq, Eq, Structural, Debug)]
pub struct Position {
    pub x: Mm,
    pub y: Mm,
}

impl Position {
    pub fn new(x: Mm, y: Mm) -> (r: Position)
        ensures
            r.x == x && r.y == y,
    {
        Position { x, y }
    }

    /// Translation by addition, the only operation positions support.
    pub fn translate(self, other: Position) -> (r: Position)
        requires
            self.x.thousandths + other.x.thousandths <= i64::MAX,
            self.x.thousandths + other.x.thousandths >= i64::MIN,
            self.y.thousandths + other.y.thousandths <= i64::MAX,
            self.y.thousandths + other.y.thousandths >= i64::MIN,
        ensures
            r.x.thousandths == self.x.thousandths + other.x.thousandths,
            r.y.thousandths == self.y.thousandths + other.y.thousandths,
    {
        Position {
            x: Mm { thousandths: self.x.thousandths + other.x.thousandths },
            y: Mm { thousandths: self.y.thousandths + other.y.thousandths },
        }
    }
}

/// A width and height in document length units; always non-negative.
#[derive(Clone, Copy, PartialEq, Eq, Structural, Debug)]
pub struct Size {
    pub width: Mm,
    pub height: Mm,
}

impl Size {
    pub open spec fn wf(self) -> bool {
        self.width.thousandths >= 0 && self.height.thousandths >= 0
    }

    pub fn new(width: Mm, height: Mm) -> (r: Size)
        requires
            width.thousandths >= 0,
            height.thousandths >= 0,
        ensures
            r.width == width && r.height == height,
            r.wf(),
    {
        Size { width, height }
    }
}

/// A clockwise rotation in millidegrees, constrained to the inclusive
/// range from -180 degrees to 180 degrees.
#[derive(Clone, Copy, PartialEq, Eq, Structural, Debug)]
pub struct Rotation {
    pub millidegrees: i64,
}

impl Rotation {
    pub open spec fn wf(self) -> bool {
        -180000 <= self.millidegrees <= 180000
    }

    /// A rotation outside the contractual range is rejected here, at the
    /// API boundary, rather than silently normalized.
    pub fn new(millidegrees: i64) -> (r: Option<Rotation>)
        ensures
            -180000 <= millidegrees <= 180000 ==> r == Some(Rotation { millidegrees }),
            !(-180000 <= millidegrees <= 180000) ==> r is None,
    {
        if -180000 <= millidegrees && millidegrees <= 180000 {
            Some(Rotation { millidegrees })
        } else {
            None
        }
    }
}

impl Default for Rotation {
    /// No rotation.
    fn default() -> (r: Rotation)
        ensures
            r.millidegrees == 0,
    {
        Rotation { millidegrees: 0 }
    }
}

/// Fixed-point sine and cosine of the quadrant's reference angle, each
/// scaled by [`TRIG_ONE`]. The reference angle always lies between 0 and
/// 90 degrees, so both samples are non-negative.
#[derive(Clone, Copy, PartialEq, Eq, Structural, Debug)]
pub struct TrigSamples {
    pub sin: i64,
    pub cos: i64,
}

impl TrigSamples {
    pub open spec fn wf(self) -> bool {
        0 <= self.sin <= TRIG_ONE && 0 <= self.cos <= TRIG_ONE
    }

    pub fn new(sin: i64, cos: i64) -> (r: Option<TrigSamples>)
        ensures
            0 <= sin <= TRIG_ONE && 0 <= cos <= TRIG_ONE ==> r == Some(TrigSamples { sin, cos }),
            !(0 <= sin <= TRIG_ONE && 0 <= cos <= TRIG_ONE) ==> r is None,
    {
        if 0 <= sin && sin <= TRIG_ONE && 0 <= cos && cos <= TRIG_ONE {
            Some(TrigSamples { sin, cos })
        } else {
            None
        }
    }
}

/// The angle, between 0 and 90 degrees, whose sine and cosine the
/// bounding-box computation consumes for the given rotation.
pub open spec fn spec_reference_angle(d: int) -> int {
    if d == 0 {
        0
    } else if 0 < d <= 90000 {
        d
    } else if d > 90000 {
        d - 90000
    } else if -90000 < d < 0 {
        -d
    } else {
        180000 + d
    }
}

pub fn reference_angle_millidegrees(rotation: &Rotation) -> (r: i64)
    requires
        rotation.wf(),
    ensures
        r == spec_reference_angle(rotation.millidegrees as int),
        0 <= r <= 90000,
{
    let d = rotation.millidegrees;
    if d == 0 {
        0
    } else if 0 < d && d <= 90000 {
        d
    } else if d > 90000 {
        d - 90000
    } else if -90000 < d && d < 0 {
        -d
    } else {
        180000 + d
    }
}

/// `(a * s + b * c) / TRIG_ONE`: a linear combination of two lengths with
/// two trigonometric samples, brought back to length units.
pub open spec fn trig_comb(a: int, s: int, b: int, c: int) -> int {
    (a * s + b * c) / (TRIG_ONE as int)
}

/// One length scaled by one trigonometric sample.
pub open spec fn trig_scale(a: int, t: int) -> int {
    (a * t) / (TRIG_ONE as int)
}

/// Width of the axis-aligned bounding box, by quadrant of the rotation
/// `d` (millidegrees). `s` and `c` are the samples of the quadrant's
/// reference angle.
pub open spec fn spec_bbox_width(d: int, w: int, h: int, s: int, c: int) -> int {
    if d == 0 {
        w
    } else if 0 < d <= 90000 {
        trig_comb(h, s, w, c)
    } else if d > 90000 {
        trig_comb(w, s, h, c)
    } else {
        trig_comb(h, s, w, c)
    }
}

/// Height of the axis-aligned bounding box, by quadrant.
pub open spec fn spec_bbox_height(d: int, w: int, h: int, s: int, c: int) -> int {
    if d == 0 {
        h
    } else if 0 < d <= 90000 {
        trig_comb(w, s, h, c)
    } else if d > 90000 {
        trig_comb(h, s, w, c)
    } else {
        trig_comb(w, s, h, c)
    }
}

/// Horizontal offset of the rectangle's own lower-left corner within the
/// bounding box, by quadrant.
pub open spec fn spec_bbox_offset_x(d: int, w: int, h: int, s: int, c: int) -> int {
    if d == 0 {
        0
    } else if 0 < d <= 90000 {
        trig_scale(h, s)
    } else if d > 90000 {
        spec_bbox_width(d, w, h, s, c)
    } else if -90000 < d < 0 {
        0
    } else {
        trig_scale(w, c)
    }
}

/// Vertical offset of the rectangle's own lower-left corner within the
/// bounding box, by quadrant.
pub open spec fn spec_bbox_offset_y(d: int, w: int, h: int, s: int, c: int) -> int {
    if d == 0 {
        h
    } else if 0 < d <= 90000 {
        spec_bbox_height(d, w, h, s, c)
    } else if d > 90000 {
        trig_scale(w, c)
    } else if -90000 < d < 0 {
        trig_scale(h, c)
    } else {
        0
    }
}

/// `(a * s + b * c) / TRIG_ONE` in executable form; all operands are
/// non-negative and small enough that nothing overflows.
fn comb(a: i64, s: i64, b: i64, c: i64) -> (r: i64)
    requires
        0 <= a,
        0 <= b,
        a + b <= MAX_EXTENT,
        0 <= s <= TRIG_ONE,
        0 <= c <= TRIG_ONE,
    ensures
        r == trig_comb(a as int, s as int, b as int, c as int),
        0 <= r <= a + b,
{
    proof {
        assert(a * s <= a * (TRIG_ONE as int) && 0 <= a * s) by (nonlinear_arith)
            requires 0 <= a && 0 <= s <= TRIG_ONE;
        assert(b * c <= b * (TRIG_ONE as int) && 0 <= b * c) by (nonlinear_arith)
            requires 0 <= b && 0 <= c <= TRIG_ONE;
        assert((a + b) * (TRIG_ONE as int) == a * (TRIG_ONE as int) + b * (TRIG_ONE as int))
            by (nonlinear_arith);
        assert((a + b) * (TRIG_ONE as int) <= (MAX_EXTENT as int) * (TRIG_ONE as int))
            by (nonlinear_arith)
            requires a + b <= MAX_EXTENT && 0 <= TRIG_ONE as int;
        assert((a * s + b * c) / (TRIG_ONE as int) <= (a + b)
            && 0 <= (a * s + b * c) / (TRIG_ONE as int)) by (nonlinear_arith)
            requires
                0 <= a * s,
                0 <= b * c,
                a * s + b * c <= (a + b) * (TRIG_ONE as int),
                0 <= a + b,
                TRIG_ONE as int == 1000000;
    }
    let num = a * s + b * c;
    num / TRIG_ONE
}

/// Computes the size of the axis-aligned bounding box of a `size`-large
/// rectangle rotated clockwise by `rotation`, and the offset of the
/// rectangle's own lower-left corner within that box.
///
/// `trig` holds the sine and cosine of the reference angle reported by
/// [`reference_angle_millidegrees`] for this rotation, scaled by
/// [`TRIG_ONE`]; the formulas per quadrant are exact integer arithmetic
/// over those samples.
pub fn bounding_box_offset_and_size(rotation: &Rotation, size: &Size, trig: &TrigSamples)
    -> (r: (Position, Size))
    requires
        rotation.wf(),
        size.wf(),
        size.width.thousandths + size.height.thousandths <= MAX_EXTENT,
        trig.wf(),
    ensures
        ({
            let d = rotation.millidegrees as int;
            let w = size.width.thousandths as int;
            let h = size.height.thousandths as int;
            let s = trig.sin as int;
            let c = trig.cos as int;
            &&& r.0.x.thousandths == spec_bbox_offset_x(d, w, h, s, c)
            &&& r.0.y.thousandths == spec_bbox_offset_y(d, w, h, s, c)
            &&& r.1.width.thousandths == spec_bbox_width(d, w, h, s, c)
            &&& r.1.height.thousandths == spec_bbox_height(d, w, h, s, c)
            &&& r.1.wf()
            &&& r.1.width.thousandths <= MAX_EXTENT
            &&& r.1.height.thousandths <= MAX_EXTENT
            &&& 0 <= r.0.x.thousandths <= MAX_EXTENT
            &&& 0 <= r.0.y.thousandths <= MAX_EXTENT
        }),
{
    let d = rotation.millidegrees;
    let w = size.width.thousandths;
    let h = size.height.thousandths;
    let s = trig.sin;
    let c = trig.cos;
    if d == 0 {
        (Position::new(Mm::new(0), Mm::new(h)), *size)
    } else if 0 < d && d <= 90000 {
        let bb_w = comb(h, s, w, c);
        let bb_h = comb(w, s, h, c);
        let off_x = comb(h, s, 0, c);
        proof {
            assert(h * s + 0 * c == h * s) by (nonlinear_arith);
        }
        (
            Position::new(Mm::new(off_x), Mm::new(bb_h)),
            Size::new(Mm::new(bb_w), Mm::new(bb_h)),
        )
    } else if d > 90000 {
        let bb_w = comb(w, s, h, c);
        let bb_h = comb(h, s, w, c);
        let off_y = comb(0, s, w, c);
        proof {
            assert(0 * s + w * c == w * c) by (nonlinear_arith);
        }
        (
            Position::new(Mm::new(bb_w), Mm::new(off_y)),
            Size::new(Mm::new(bb_w), Mm::new(bb_h)),
        )
    } else if -90000 < d && d < 0 {
        let bb_w = comb(h, s, w, c);
        let bb_h = comb(w, s, h, c);
        let off_y = comb(0, s, h, c);
        proof {
            assert(0 * s + h * c == h * c) by (nonlinear_arith);
        }
        (
            Position::new(Mm::new(0), Mm::new(off_y)),
            Size::new(Mm::new(bb_w), Mm::new(bb_h)),
        )
    } else {
        let bb_w = comb(h, s, w, c);
        let bb_h = comb(w, s, h, c);
        let off_x = comb(0, s, w, c);
        proof {
            assert(0 * s + w * c == w * c) by (nonlinear_arith);
        }
        (
            Position::new(Mm::new(off_x), Mm::new(0)),
            Size::new(Mm::new(bb_w), Mm::new(bb_h)),
        )
    }
}

/// An unrotated rectangle is its own bounding box, and the offset of its
/// origin is `(0, h)`: y grows upward, so the rectangle's own origin sits
/// at height `h` within the box.
pub proof fn lemma_bbox_unrotated(w: int, h: int, s: int, c: int)
    ensures
        spec_bbox_width(0, w, h, s, c) == w,
        spec_bbox_height(0, w, h, s, c) == h,
        spec_bbox_offset_x(0, w, h, s, c) == 0,
        spec_bbox_offset_y(0, w, h, s, c) == h,
{
}

/// At quarter and half turns the trigonometric samples are exact, and the
/// bounding box is exactly the rectangle with (for quarter turns) width
/// and height swapped: rotating by 90 or -90 degrees yields a box of size
/// `(h, w)`, rotating by 180 or -180 degrees one of size `(w, h)`.
pub proof fn lemma_bbox_quarter_turns(w: int, h: int)
    requires
        0 <= w,
        0 <= h,
    ensures
        spec_bbox_width(90000, w, h, TRIG_ONE as int, 0) == h,
        spec_bbox_height(90000, w, h, TRIG_ONE as int, 0) == w,
        spec_bbox_width(-90000, w, h, TRIG_ONE as int, 0) == h,
        spec_bbox_height(-90000, w, h, TRIG_ONE as int, 0) == w,
        spec_bbox_width(180000, w, h, TRIG_ONE as int, 0) == w,
        spec_bbox_height(180000, w, h, TRIG_ONE as int, 0) == h,
        spec_bbox_width(-180000, w, h, 0, TRIG_ONE as int) == w,
        spec_bbox_height(-180000, w, h, 0, TRIG_ONE as int) == h,
{
    let t = TRIG_ONE as int;
    vstd::arithmetic::div_mod::lemma_div_multiples_vanish(w, t);
    vstd::arithmetic::div_mod::lemma_div_multiples_vanish(h, t);
    assert(w * t == t * w);
    assert(h * t == t * h);
}

/// Rotating by `d` and by `d - 180` degrees produces bounding boxes of
/// the same size. For `d` at most a quarter turn the two rotations share
/// one reference angle; past a quarter turn the reference angles are
/// complementary, so the second box takes the samples swapped; at the
/// half turn itself the samples are exact and both boxes are the
/// rectangle.
pub proof fn lemma_bbox_opposite_rotation_size(d: int, w: int, h: int, s: int, c: int)
    requires
        0 < d <= 180000,
    ensures
        0 < d <= 90000 ==> {
            &&& spec_reference_angle(d - 180000) == spec_reference_angle(d)
            &&& spec_bbox_width(d - 180000, w, h, s, c) == spec_bbox_width(d, w, h, s, c)
            &&& spec_bbox_height(d - 180000, w, h, s, c) == spec_bbox_height(d, w, h, s, c)
        },
        90000 < d < 180000 ==> {
            &&& spec_reference_angle(d - 180000) == 90000 - spec_reference_angle(d)
            &&& spec_bbox_width(d - 180000, w, h, c, s) == spec_bbox_width(d, w, h, s, c)
            &&& spec_bbox_height(d - 180000, w, h, c, s) == spec_bbox_height(d, w, h, s, c)
        },
        d == 180000 ==> {
            &&& spec_reference_angle(d - 180000) == 0
            &&& spec_bbox_width(d - 180000, w, h, s, c)
                == spec_bbox_width(d, w, h, TRIG_ONE as int, 0)
            &&& spec_bbox_height(d - 180000, w, h, s, c)
                == spec_bbox_height(d, w, h, TRIG_ONE as int, 0)
        },
{
    if d == 180000 {
        let t = TRIG_ONE as int;
        vstd::arithmetic::div_mod::lemma_div_multiples_vanish(w, t);
        vstd::arithmetic::div_mod::lemma_div_multiples_vanish(h, t);
        assert(w * t == t * w);
        assert(h * t == t * h);
    }
}

} // verus!

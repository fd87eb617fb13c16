//! A placeable rectangular element: intrinsic pixel dimensions plus the
//! builder-style layout configuration (scale, position, alignment,
//! rotation, DPI), and the placement computation that combines them.
//!
//! The pixel data itself lives with the caller; this model holds what the
//! layout reads: the dimensions and the configuration.

use vstd::prelude::*;
use crate::Mm;
use crate::geometry::MAX_EXTENT;
use crate::geometry::Position;
use crate::geometry::Rotation;
use crate::geometry::Size;
use crate::geometry::TrigSamples;
use crate::geometry::bounding_box_offset_and_size;
use crate::geometry::spec_bbox_height;
use crate::geometry::spec_bbox_offset_x;
use crate::geometry::spec_bbox_offset_y;
use crate::geometry::spec_bbox_width;

verus! {

/// Horizontal placement policy within an available width, used when no
/// absolute position is set.
#[derive(Clone, Copy, PartialEq, Eq, Structural, Debug)]
pub enum Alignment {
    Left,
    Center,
    Right,
}

impl Default for Alignment {
    fn default() -> (r: Alignment)
        ensures
            r == Alignment::Left,
    {
        Alignment::Left
    }
}

/// Largest scale multiplier, in thousandths: a million-fold enlargement.
pub const MAX_SCALE_THOUSANDTHS: i64 = 1000000000;

/// Independent horizontal and vertical multipliers applied to the
/// intrinsic size before geometry is computed, in thousandths.
#[derive(Clone, Copy, PartialEq, Eq, Structural, Debug)]
pub struct Scale {
    pub x_thousandths: i64,
    pub y_thousandths: i64,
}

impl Scale {
    pub open spec fn wf(self) -> bool {
        &&& 0 <= self.x_thousandths <= MAX_SCALE_THOUSANDTHS
        &&& 0 <= self.y_thousandths <= MAX_SCALE_THOUSANDTHS
    }

    pub fn new(x_thousandths: i64, y_thousandths: i64) -> (r: Option<Scale>)
        ensures
            0 <= x_thousandths <= MAX_SCALE_THOUSANDTHS && 0 <= y_thousandths
                <= MAX_SCALE_THOUSANDTHS ==> r == Some(Scale { x_thousandths, y_thousandths }),
            !(0 <= x_thousandths <= MAX_SCALE_THOUSANDTHS && 0 <= y_thousandths
                <= MAX_SCALE_THOUSANDTHS) ==> r is None,
    {
        if 0 <= x_thousandths && x_thousandths <= MAX_SCALE_THOUSANDTHS && 0 <= y_thousandths
            && y_thousandths <= MAX_SCALE_THOUSANDTHS {
            Some(Scale { x_thousandths, y_thousandths })
        } else {
            None
        }
    }
}

impl Default for Scale {
    /// The identity scale, one to one.
    fn default() -> (r: Scale)
        ensures
            r.x_thousandths == 1000 && r.y_thousandths == 1000,
            r.wf(),
    {
        Scale { x_thousandths: 1000, y_thousandths: 1000 }
    }
}

/// What a placement reports back: the space the element consumed, and
/// whether it needs another attempt with more space (never, here:
/// partial placement of one element is not supported).
#[derive(Clone, Copy, PartialEq, Eq, Structural, Debug)]
pub struct RenderResult {
    pub size: Size,
    pub has_more: bool,
}

/// The three distinct failure points of constructing displayable content
/// from a byte source: each is surfaced to the caller as its own value,
/// never silently defaulted.
#[derive(Clone, Copy, PartialEq, Eq, Structural, Debug)]
pub enum ImageLoadError {
    /// The content source (path or stream) could not be accessed.
    InputOpen,
    /// The byte stream's encoding could not be determined.
    FormatDetection,
    /// The bytes were read but do not form valid content of the
    /// detected format.
    Decode,
}

impl ImageLoadError {
    pub fn description(&self) -> (r: &'static str)
        ensures
            *self == ImageLoadError::InputOpen ==> r@ == "Unable to open path."@,
            *self == ImageLoadError::FormatDetection ==> r@
                == "Unable to determine image format."@,
            *self == ImageLoadError::Decode ==> r@ == "Unable to decode image."@,
    {
        match self {
            ImageLoadError::InputOpen => "Unable to open path.",
            ImageLoadError::FormatDetection => "Unable to determine image format.",
            ImageLoadError::Decode => "Unable to decode image.",
        }
    }
}

/// One scaled dimension in layout units: `25.4 * (scale * pixels) / dpi`
/// millimeters, expressed over thousandths.
pub open spec fn spec_scaled_dimension(px: u32, scale_thousandths: i64, dpi: int) -> int {
    (25400 * scale_thousandths * px) / (1000 * dpi)
}

/// Truncating halving, the rounding the alignment offset uses.
pub open spec fn half_toward_zero(d: int) -> int {
    if d >= 0 {
        d / 2
    } else {
        -((-d) / 2)
    }
}

/// The horizontal offset an alignment policy yields for an element of
/// width `width` in an available width `max_width`.
pub open spec fn spec_alignment_offset(a: Alignment, width: int, max_width: int) -> int {
    match a {
        Alignment::Left => 0,
        Alignment::Center => half_toward_zero(max_width - width),
        Alignment::Right => max_width - width,
    }
}

/// A placeable element: intrinsic pixel dimensions plus layout
/// configuration. Every configuration step is a functional update; a
/// value is never mutated after the placement that consumes it.
#[derive(Clone, Copy, PartialEq, Eq, Structural, Debug)]
pub struct Image {
    pub px_width: u32,
    pub px_height: u32,
    /// Used for positioning if no absolute position is given.
    pub alignment: Alignment,
    /// The absolute position within the given area; when absent, the
    /// alignment decides.
    pub position: Option<Position>,
    /// Scaling of the element, default one to one.
    pub scale: Scale,
    /// Clockwise rotation around the lower-left corner.
    pub rotation: Rotation,
    /// DPI override; 300 when absent.
    pub dpi: Option<u32>,
}

impl Image {
    pub open spec fn wf(self) -> bool {
        &&& self.scale.wf()
        &&& self.rotation.wf()
        &&& (self.dpi is Some ==> self.dpi.unwrap() >= 1)
        &&& (self.position is Some ==> {
            let p = self.position.unwrap();
            &&& -MAX_EXTENT <= p.x.thousandths <= MAX_EXTENT
            &&& -MAX_EXTENT <= p.y.thousandths <= MAX_EXTENT
        })
    }

    /// The effective DPI: the override, or 300.
    pub open spec fn spec_dpi(self) -> int {
        match self.dpi {
            Some(d) => d as int,
            None => 300,
        }
    }

    /// The element's scaled intrinsic width and height in layout units.
    pub open spec fn spec_size(self) -> (int, int) {
        (
            spec_scaled_dimension(self.px_width, self.scale.x_thousandths, self.spec_dpi()),
            spec_scaled_dimension(self.px_height, self.scale.y_thousandths, self.spec_dpi()),
        )
    }

    /// A freshly constructed element from intrinsic pixel dimensions:
    /// aligned left, unscaled, unrotated, without absolute position or
    /// DPI override.
    pub fn new(px_width: u32, px_height: u32) -> (r: Image)
        ensures
            r.px_width == px_width,
            r.px_height == px_height,
            r.alignment == Alignment::Left,
            r.position is None,
            r.scale.x_thousandths == 1000 && r.scale.y_thousandths == 1000,
            r.rotation.millidegrees == 0,
            r.dpi is None,
            r.wf(),
    {
        Image {
            px_width,
            px_height,
            alignment: Alignment::default(),
            position: None,
            scale: Scale::default(),
            rotation: Rotation::default(),
            dpi: None,
        }
    }

    /// Translate the element over to an absolute position.
    pub fn set_position(&mut self, position: Position)
        requires
            -MAX_EXTENT <= position.x.thousandths <= MAX_EXTENT,
            -MAX_EXTENT <= position.y.thousandths <= MAX_EXTENT,
        ensures
            *final(self) == (Image { position: Some(position), ..*old(self) }),
    {
        self.position = Some(position);
    }

    /// Translate the element over to an absolute position and return it
    /// for chaining.
    pub fn with_position(self, position: Position) -> (r: Image)
        requires
            -MAX_EXTENT <= position.x.thousandths <= MAX_EXTENT,
            -MAX_EXTENT <= position.y.thousandths <= MAX_EXTENT,
        ensures
            r == (Image { position: Some(position), ..self }),
    {
        Image { position: Some(position), ..self }
    }

    /// Scale the element.
    pub fn set_scale(&mut self, scale: Scale)
        requires
            scale.wf(),
        ensures
            *final(self) == (Image { scale, ..*old(self) }),
    {
        self.scale = scale;
    }

    /// Scale the element and return it for chaining.
    pub fn with_scale(self, scale: Scale) -> (r: Image)
        requires
            scale.wf(),
        ensures
            r == (Image { scale, ..self }),
    {
        Image { scale, ..self }
    }

    /// Choose the alignment used when no absolute position is set.
    pub fn set_alignment(&mut self, alignment: Alignment)
        ensures
            *final(self) == (Image { alignment, ..*old(self) }),
    {
        self.alignment = alignment;
    }

    /// Choose the alignment and return the element for chaining.
    pub fn with_alignment(self, alignment: Alignment) -> (r: Image)
        ensures
            r == (Image { alignment, ..self }),
    {
        Image { alignment, ..self }
    }

    /// Set the clockwise rotation around the lower-left corner. A
    /// rotation outside the contractual range is rejected at
    /// [`Rotation::new`], the API boundary.
    pub fn set_clockwise_rotation(&mut self, rotation: Rotation)
        requires
            rotation.wf(),
        ensures
            *final(self) == (Image { rotation, ..*old(self) }),
    {
        self.rotation = rotation;
    }

    /// Set the clockwise rotation and return the element for chaining.
    pub fn with_clockwise_rotation(self, rotation: Rotation) -> (r: Image)
        requires
            rotation.wf(),
        ensures
            r == (Image { rotation, ..self }),
    {
        Image { rotation, ..self }
    }

    /// Override the expected DPI of the element.
    pub fn set_dpi(&mut self, dpi: u32)
        requires
            dpi >= 1,
        ensures
            *final(self) == (Image { dpi: Some(dpi), ..*old(self) }),
    {
        self.dpi = Some(dpi);
    }

    /// Override the expected DPI and return the element for chaining.
    pub fn with_dpi(self, dpi: u32) -> (r: Image)
        requires
            dpi >= 1,
        ensures
            r == (Image { dpi: Some(dpi), ..self }),
    {
        Image { dpi: Some(dpi), ..self }
    }

    /// The effective DPI value.
    pub fn dpi_value(&self) -> (r: u32)
        requires
            self.wf(),
        ensures
            r as int == self.spec_dpi(),
            r >= 1,
    {
        match self.dpi {
            Some(d) => d,
            None => 300,
        }
    }

    /// Whether the scaled size is small enough for the bounding-box
    /// geometry; placement requires it, and a caller tests it here.
    pub fn size_within_limits(&self) -> (r: bool)
        requires
            self.wf(),
        ensures
            r == (self.spec_size().0 + self.spec_size().1 <= MAX_EXTENT),
    {
        let (w, h) = self.size_dimensions();
        let m: u128 = MAX_EXTENT as u128;
        w <= m && h <= m - w
    }

    /// Both scaled dimensions in layout units.
    fn size_dimensions(&self) -> (r: (u128, u128))
        requires
            self.wf(),
        ensures
            r.0 as int == self.spec_size().0,
            r.1 as int == self.spec_size().1,
    {
        let dpi = self.dpi_value();
        let w = scaled_dimension(self.px_width, self.scale.x_thousandths, dpi);
        let h = scaled_dimension(self.px_height, self.scale.y_thousandths, dpi);
        (w, h)
    }

    /// A guess for the size of the element from its pixel dimensions,
    /// DPI and scale: `25.4 * (scale * pixels) / dpi` millimeters per
    /// dimension, truncated to layout units.
    pub fn get_size(&self) -> (r: Size)
        requires
            self.wf(),
            self.spec_size().0 + self.spec_size().1 <= MAX_EXTENT,
        ensures
            r.width.thousandths as int == self.spec_size().0,
            r.height.thousandths as int == self.spec_size().1,
            r.wf(),
            r.width.thousandths + r.height.thousandths <= MAX_EXTENT,
    {
        let (w, h) = self.size_dimensions();
        Size::new(Mm::new(w as i64), Mm::new(h as i64))
    }

    /// The offset from the left side that the alignment policy yields
    /// for an element `width` wide in an available `max_width`.
    pub fn get_offset(&self, width: Mm, max_width: Mm) -> (r: Position)
        requires
            -MAX_EXTENT <= width.thousandths <= MAX_EXTENT,
            -MAX_EXTENT <= max_width.thousandths <= MAX_EXTENT,
        ensures
            r.x.thousandths as int == spec_alignment_offset(
                self.alignment,
                width.thousandths as int,
                max_width.thousandths as int,
            ),
            r.y.thousandths == 0,
            -2 * MAX_EXTENT <= r.x.thousandths <= 2 * MAX_EXTENT,
    {
        let horizontal: i64 = match self.alignment {
            Alignment::Left => 0,
            Alignment::Center => {
                let diff = max_width.thousandths - width.thousandths;
                if diff >= 0 {
                    diff / 2
                } else {
                    -((-diff) / 2)
                }
            },
            Alignment::Right => max_width.thousandths - width.thousandths,
        };
        Position::new(Mm::new(horizontal), Mm::new(0))
    }

    /// The placement computation: scaled size, bounding box under the
    /// element's rotation, then the draw position from the absolute
    /// position if one is set, else from the alignment against the
    /// available width. Reports the bounding-box size as the space
    /// consumed when the alignment decided the position; an absolutely
    /// positioned element consumes no layout space. Never asks for more
    /// space.
    ///
    /// `trig` holds the samples of the rotation's reference angle, as
    /// for [`bounding_box_offset_and_size`].
    pub fn place(&self, area_width: Mm, trig: &TrigSamples) -> (r: (Position, RenderResult))
        requires
            self.wf(),
            trig.wf(),
            self.spec_size().0 + self.spec_size().1 <= MAX_EXTENT,
            -MAX_EXTENT <= area_width.thousandths <= MAX_EXTENT,
        ensures
            ({
                let d = self.rotation.millidegrees as int;
                let w = self.spec_size().0;
                let h = self.spec_size().1;
                let s = trig.sin as int;
                let c = trig.cos as int;
                let bw = spec_bbox_width(d, w, h, s, c);
                let bh = spec_bbox_height(d, w, h, s, c);
                let ox = spec_bbox_offset_x(d, w, h, s, c);
                let oy = spec_bbox_offset_y(d, w, h, s, c);
                &&& (self.position matches Some(p) ==> {
                    &&& r.0.x.thousandths == p.x.thousandths + ox
                    &&& r.0.y.thousandths == p.y.thousandths + oy
                    &&& r.1.size.width.thousandths == 0
                    &&& r.1.size.height.thousandths == 0
                })
                &&& (self.position is None ==> {
                    &&& r.0.x.thousandths == spec_alignment_offset(
                        self.alignment,
                        bw,
                        area_width.thousandths as int,
                    ) + ox
                    &&& r.0.y.thousandths == oy
                    &&& r.1.size.width.thousandths == bw
                    &&& r.1.size.height.thousandths == bh
                })
                &&& r.1.has_more == false
            }),
    {
        let true_size = self.get_size();
        let (bb_origin, bb_size) = bounding_box_offset_and_size(&self.rotation, &true_size, trig);
        let (position, consumed): (Position, Size) = match self.position {
            Some(p) => (p, Size::new(Mm::new(0), Mm::new(0))),
            None => (self.get_offset(bb_size.width, area_width), bb_size),
        };
        let final_position = position.translate(bb_origin);
        (final_position, RenderResult { size: consumed, has_more: false })
    }
}

/// `25.4 * (scale * pixels) / dpi` millimeters in layout units,
/// truncated toward zero; exact integer arithmetic.
fn scaled_dimension(px: u32, scale_thousandths: i64, dpi: u32) -> (r: u128)
    requires
        0 <= scale_thousandths <= MAX_SCALE_THOUSANDTHS,
        dpi >= 1,
    ensures
        r as int == spec_scaled_dimension(px, scale_thousandths, dpi as int),
{
    proof {
        assert(0 <= 25400 * (scale_thousandths as int) <= 25400000000000) by (nonlinear_arith)
            requires
                0 <= scale_thousandths <= 1000000000,
        ;
        assert(0 <= 25400 * (scale_thousandths as int) * (px as int)
            <= 110000000000000000000000) by (nonlinear_arith)
            requires
                0 <= 25400 * (scale_thousandths as int) <= 25400000000000,
                px <= 4294967295,
        ;
    }
    let num: u128 = 25400u128 * (scale_thousandths as u128) * (px as u128);
    let den: u128 = 1000u128 * (dpi as u128);
    let q: u128 = num / den;
    proof {
        assert(num == 25400 * (scale_thousandths as int) * (px as int));
        assert(den == 1000 * (dpi as int) && den > 0);
        assert(q == spec_scaled_dimension(px, scale_thousandths, dpi as int));
    }
    q
}

} // verus!

//! Styled text and the font-metric lookup that measures it.
//!
//! A [`Style`] is an opaque formatting handle; the engine never interprets
//! it, it only hands it to the [`FontMetrics`] table when measuring a
//! character. Widths are layout units: thousandths of a millimeter.

use vstd::prelude::*;

verus! {

/// An opaque formatting handle, resolved only by the font-metric lookup.
#[derive(Clone, Copy, PartialEq, Eq, Structural, Debug)]
pub struct Style {
    pub id: u64,
}

/// The style a fragment falls back to when it holds no spans.
pub open spec fn spec_default_style() -> Style {
    Style { id: 0 }
}

impl Style {
    pub fn new(id: u64) -> (r: Style)
        ensures
            r.id == id,
    {
        Style { id }
    }
}

impl Default for Style {
    fn default() -> (r: Style)
        ensures
            r == spec_default_style(),
    {
        Style { id: 0 }
    }
}

/// An immutable run of text under one style. Order of runs is significant
/// and preserved end-to-end by the layout pass.
#[derive(Debug)]
pub struct StyledString {
    pub s: Vec<char>,
    pub style: Style,
}

impl StyledString {
    pub fn new(s: Vec<char>, style: Style) -> (r: StyledString)
        ensures
            r.s == s,
            r.style == style,
    {
        StyledString { s, style }
    }
}

/// A read-only font-metric source: the rendered width of a character under
/// a style, in layout units. Lookup is by (style, character); a pair
/// without an entry measures `default_width`. Deterministic and
/// non-negative by construction.
#[derive(Debug)]
pub struct FontMetrics {
    pub default_width: u32,
    pub widths: Vec<(u64, char, u32)>,
}

/// First matching entry for (style, c) in the table suffix starting at
/// `i`, or the default width.
pub open spec fn spec_char_width_from(
    ws: Seq<(u64, char, u32)>,
    default_width: u32,
    style: Style,
    c: char,
    i: int,
) -> u32
    decreases ws.len() - i,
{
    if i < 0 || i >= ws.len() {
        default_width
    } else if ws[i].0 == style.id && ws[i].1 == c {
        ws[i].2
    } else {
        spec_char_width_from(ws, default_width, style, c, i + 1)
    }
}

impl FontMetrics {
    /// The measured width of `c` under `style`.
    pub open spec fn spec_char_width(self, style: Style, c: char) -> u32 {
        spec_char_width_from(self.widths@, self.default_width, style, c, 0)
    }

    pub fn new(default_width: u32, widths: Vec<(u64, char, u32)>) -> (r: FontMetrics)
        ensures
            r.default_width == default_width,
            r.widths == widths,
    {
        FontMetrics { default_width, widths }
    }

    /// Measurement contract: `width(style, character)` in layout units,
    /// deterministic for a given (style, character, table) triple.
    pub fn char_width(&self, style: Style, c: char) -> (r: u32)
        ensures
            r == self.spec_char_width(style, c),
    {
        let mut i: usize = 0;
        while i < self.widths.len()
            invariant
                0 <= i <= self.widths@.len(),
                spec_char_width_from(self.widths@, self.default_width, style, c, 0)
                    == spec_char_width_from(self.widths@, self.default_width, style, c, i as int),
            decreases self.widths@.len() - i,
        {
            let (sid, ch, wd) = self.widths[i];
            if sid == style.id && ch == c {
                return wd;
            }
            i = i + 1;
        }
        self.default_width
    }
}

} // verus!

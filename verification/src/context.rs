//! The services a layout pass reads: a font-metric table and an optional
//! hyphenation dictionary. Both are read-only; the engine works correctly
//! with the dictionary absent.

use vstd::prelude::*;
use hyphenation::Hyphenator;
use crate::style::FontMetrics;

verus! {

/// An external hyphenation dictionary; opaque to the layout engine, which
/// only asks it for the hyphenation segments of a word.
#[verifier::external_type_specification]
#[verifier::external_body]
pub struct ExStandard(hyphenation::Standard);

/// The caller-supplied context of a layout pass: font metrics and an
/// optional hyphenation capability.
pub struct Context {
    pub font_metrics: FontMetrics,
    pub hyphenator: Option<hyphenation::Standard>,
}

impl Context {
    pub fn new(font_metrics: FontMetrics, hyphenator: Option<hyphenation::Standard>)
        -> (r: Context)
        ensures
            r.font_metrics == font_metrics,
            r.hyphenator == hyphenator,
    {
        Context { font_metrics, hyphenator }
    }

    pub fn has_hyphenator(&self) -> (r: bool)
        ensures
            r == (self.hyphenator is Some),
    {
        self.hyphenator.is_some()
    }
}

/// Relies on `hyphenation::Hyphenator::hyphenate` for `Standard`
/// dictionaries only to return: it hands back the break points the
/// dictionary reports for the word, as byte offsets into the word's
/// UTF-8 form. Nothing is promised of their values; the verified
/// splitter keeps only offsets that fall on character boundaries, so a
/// dictionary reporting misaligned or out-of-range offsets (as happens
/// with some case-folded words, or with hand-extended exception lists)
/// can never make the layout pass fail.
///
/// The guard on the dictionary's word-boundary minima is part of the
/// trusted surface: the boundary computation inside `hyphenate` is
/// total only when both minima are positive, as they are in every
/// dictionary the crate bundles, but a `Standard` deserialized from a
/// stream can carry a zero. Such a degenerate dictionary reports no
/// breaks, so the word stays unsplit.
#[verifier::external_body]
pub(crate) fn hyphenation_breaks(dict: &hyphenation::Standard, word: &Vec<char>)
    -> (r: Vec<usize>)
{
    if dict.minima.0 == 0 || dict.minima.1 == 0 {
        return Vec::new();
    }
    let s: String = word.iter().collect();
    dict.hyphenate(&s).breaks
}

} // verus!

//! Text wrapping: fragmenting styled runs, breaking fragments into
//! width-constrained lines, and reassembling a line into styled spans.
//!
//! A [`Fragment`] is the smallest unit that may end a line. Its two flags
//! say what separates it from what follows: `add_whitespace` inserts a
//! space after it when it is not line-final, `add_hyphen` inserts a hyphen
//! when it ends a line mid-word. At most one of the two is set.

use vstd::prelude::*;
use crate::Mm;
use crate::context::Context;
use crate::context::hyphenation_breaks;
use crate::seqs::concat_elems;
use crate::seqs::lemma_concat_elems_concat;
use crate::seqs::lemma_concat_elems_push;
use crate::seqs::lemma_sum_ints_concat;
use crate::seqs::lemma_sum_ints_nonneg;
use crate::seqs::lemma_sum_ints_push;
use crate::seqs::sum_ints;
use crate::style::FontMetrics;
use crate::style::Style;
use crate::style::StyledString;
use crate::style::spec_default_style;

verus! {

/// Every character of `text` paired with one style.
pub open spec fn styled_chars(text: Seq<char>, style: Style) -> Seq<(char, Style)> {
    text.map_values(|c: char| (c, style))
}

/// The styled characters of one span.
pub open spec fn span_chars(s: StyledString) -> Seq<(char, Style)> {
    styled_chars(s.s@, s.style)
}

/// The styled characters of a sequence of spans, in order.
pub open spec fn spans_chars(ss: Seq<StyledString>) -> Seq<(char, Style)> {
    concat_elems(ss.map_values(|s: StyledString| span_chars(s)))
}

/// An indivisible layout unit: one or more styled spans that must never be
/// split across a line break, plus the trailing-separator flags.
#[derive(Debug)]
pub struct Fragment {
    pub strings: Vec<StyledString>,
    pub add_whitespace: bool,
    pub add_hyphen: bool,
}

/// The styled characters a fragment holds.
pub open spec fn frag_chars(f: Fragment) -> Seq<(char, Style)> {
    spans_chars(f.strings@)
}

/// The style of a fragment's last span; separators inserted after the
/// fragment take this style.
pub open spec fn frag_style(f: Fragment) -> Style {
    if f.strings@.len() == 0 {
        spec_default_style()
    } else {
        f.strings@.last().style
    }
}

/// A well-formed fragment holds at least one span and never asks for a
/// space and a hyphen at once.
pub open spec fn frag_wf(f: Fragment) -> bool {
    &&& f.strings@.len() >= 1
    &&& !(f.add_whitespace && f.add_hyphen)
}

/// No character of a fragment's own text is a space: after
/// fragmentation, spaces live only in the whitespace flags.
pub open spec fn frag_space_free(f: Fragment) -> bool {
    forall|j: int| 0 <= j < frag_chars(f).len() ==> (#[trigger] frag_chars(f)[j]).0 != ' '
}

/// A fragment's characters together with the space its whitespace flag
/// stands for: the exact piece of the original text the fragment encodes.
pub open spec fn recon_frag(f: Fragment) -> Seq<(char, Style)> {
    frag_chars(f) + if f.add_whitespace {
        seq![(' ', frag_style(f))]
    } else {
        Seq::<(char, Style)>::empty()
    }
}

/// The original styled text a fragment sequence encodes.
pub open spec fn recon_frags(fs: Seq<Fragment>) -> Seq<(char, Style)> {
    concat_elems(fs.map_values(|f: Fragment| recon_frag(f)))
}

/// Width of one character, as an integer.
pub open spec fn spec_char_w(fm: FontMetrics, style: Style, c: char) -> int {
    fm.spec_char_width(style, c) as int
}

/// Measured width of a character sequence under one style.
pub open spec fn text_width(fm: FontMetrics, style: Style, text: Seq<char>) -> int {
    sum_ints(text.map_values(|c: char| spec_char_w(fm, style, c)))
}

/// Measured width of one span.
pub open spec fn span_width(fm: FontMetrics, s: StyledString) -> int {
    text_width(fm, s.style, s.s@)
}

/// Measured width of a sequence of spans.
pub open spec fn spans_width(fm: FontMetrics, ss: Seq<StyledString>) -> int {
    sum_ints(ss.map_values(|s: StyledString| span_width(fm, s)))
}

/// Aggregate width of a fragment: the sum of the widths of every
/// character in every span it holds.
pub open spec fn frag_width(fm: FontMetrics, f: Fragment) -> int {
    spans_width(fm, f.strings@)
}

/// Width of the space that follows the fragment when it is not
/// line-final; zero when the fragment asks for no space.
pub open spec fn frag_ws_width(fm: FontMetrics, f: Fragment) -> int {
    if f.add_whitespace {
        spec_char_w(fm, frag_style(f), ' ')
    } else {
        0
    }
}

/// Width of the hyphen inserted when the fragment ends a line mid-word;
/// zero when the fragment asks for no hyphen.
pub open spec fn frag_pen_width(fm: FontMetrics, f: Fragment) -> int {
    if f.add_hyphen {
        spec_char_w(fm, frag_style(f), '-')
    } else {
        0
    }
}

/// A fragment's width plus both potential separators; bounding this
/// bounds every quantity the line breaker accumulates.
pub open spec fn frag_total_width(fm: FontMetrics, f: Fragment) -> int {
    frag_width(fm, f) + frag_ws_width(fm, f) + frag_pen_width(fm, f)
}

pub proof fn lemma_text_width_nonneg(fm: FontMetrics, style: Style, text: Seq<char>)
    ensures
        text_width(fm, style, text) >= 0,
{
    let mapped = text.map_values(|c: char| spec_char_w(fm, style, c));
    assert forall|i: int| 0 <= i < mapped.len() implies mapped[i] >= 0 by {
        assert(mapped[i] == spec_char_w(fm, style, text[i]));
    }
    lemma_sum_ints_nonneg(mapped);
}

pub proof fn lemma_spans_width_nonneg(fm: FontMetrics, ss: Seq<StyledString>)
    ensures
        spans_width(fm, ss) >= 0,
{
    let mapped = ss.map_values(|s: StyledString| span_width(fm, s));
    assert forall|i: int| 0 <= i < mapped.len() implies mapped[i] >= 0 by {
        assert(mapped[i] == span_width(fm, ss[i]));
        lemma_text_width_nonneg(fm, ss[i].style, ss[i].s@);
    }
    lemma_sum_ints_nonneg(mapped);
}

pub proof fn lemma_frag_width_nonneg(fm: FontMetrics, f: Fragment)
    ensures
        frag_width(fm, f) >= 0,
        frag_ws_width(fm, f) >= 0,
        frag_pen_width(fm, f) >= 0,
{
    lemma_spans_width_nonneg(fm, f.strings@);
}

proof fn lemma_text_width_split(fm: FontMetrics, style: Style, text: Seq<char>, k: int)
    requires
        0 <= k <= text.len(),
    ensures
        text_width(fm, style, text) == text_width(fm, style, text.take(k))
            + text_width(fm, style, text.skip(k)),
{
    let f = |c: char| spec_char_w(fm, style, c);
    assert(text.map_values(f) =~= text.take(k).map_values(f) + text.skip(k).map_values(f));
    lemma_sum_ints_concat(text.take(k).map_values(f), text.skip(k).map_values(f));
}

proof fn lemma_spans_width_split(fm: FontMetrics, ss: Seq<StyledString>, k: int)
    requires
        0 <= k <= ss.len(),
    ensures
        spans_width(fm, ss) == spans_width(fm, ss.take(k)) + spans_width(fm, ss.skip(k)),
{
    let f = |s: StyledString| span_width(fm, s);
    assert(ss.map_values(f) =~= ss.take(k).map_values(f) + ss.skip(k).map_values(f));
    lemma_sum_ints_concat(ss.take(k).map_values(f), ss.skip(k).map_values(f));
}

/// Measured width of `s` under `style`, in layout units.
fn measure_text(fm: &FontMetrics, style: Style, s: &Vec<char>) -> (r: u64)
    requires
        text_width(*fm, style, s@) <= u64::MAX,
    ensures
        r == text_width(*fm, style, s@),
{
    let mut acc: u64 = 0;
    let mut i: usize = 0;
    while i < s.len()
        invariant
            0 <= i <= s@.len(),
            text_width(*fm, style, s@) <= u64::MAX,
            acc == text_width(*fm, style, s@.take(i as int)),
        decreases s@.len() - i,
    {
        let w = fm.char_width(style, s[i]);
        proof {
            lemma_text_width_split(*fm, style, s@, i + 1);
            lemma_text_width_nonneg(*fm, style, s@.skip(i + 1));
            let g = |c: char| spec_char_w(*fm, style, c);
            assert(s@.take(i + 1).map_values(g) =~= s@.take(i as int).map_values(g).push(
                g(s@[i as int]),
            ));
            lemma_sum_ints_push(s@.take(i as int).map_values(g), g(s@[i as int]));
            assert(text_width(*fm, style, s@.take(i + 1)) == acc + w);
        }
        acc = acc + (w as u64);
        i = i + 1;
    }
    proof {
        assert(s@.take(i as int) =~= s@);
    }
    acc
}

impl Fragment {
    /// The style of the fragment's last span, or the default style for a
    /// fragment without spans.
    pub fn style(&self) -> (r: Style)
        ensures
            r == frag_style(*self),
    {
        if self.strings.len() == 0 {
            Style::default()
        } else {
            self.strings[self.strings.len() - 1].style
        }
    }

    /// Aggregate measured width of the fragment.
    pub fn width(&self, metrics: &FontMetrics) -> (r: u64)
        requires
            frag_width(*metrics, *self) <= u64::MAX,
        ensures
            r == frag_width(*metrics, *self),
    {
        let mut acc: u64 = 0;
        let mut j: usize = 0;
        while j < self.strings.len()
            invariant
                0 <= j <= self.strings@.len(),
                frag_width(*metrics, *self) <= u64::MAX,
                acc == spans_width(*metrics, self.strings@.take(j as int)),
            decreases self.strings@.len() - j,
        {
            proof {
                lemma_spans_width_split(*metrics, self.strings@, j + 1);
                lemma_spans_width_nonneg(*metrics, self.strings@.skip(j + 1));
                let g = |s: StyledString| span_width(*metrics, s);
                assert(self.strings@.take(j + 1).map_values(g) =~= self.strings@.take(
                    j as int,
                ).map_values(g).push(g(self.strings@[j as int])));
                lemma_sum_ints_push(
                    self.strings@.take(j as int).map_values(g),
                    g(self.strings@[j as int]),
                );
                lemma_text_width_nonneg(
                    *metrics,
                    self.strings@[j as int].style,
                    self.strings@[j as int].s@,
                );
            }
            let sp = &self.strings[j];
            let w = measure_text(metrics, sp.style, &sp.s);
            acc = acc + w;
            j = j + 1;
        }
        proof {
            assert(self.strings@.take(j as int) =~= self.strings@);
        }
        acc
    }

    /// Width of the space that follows this fragment when it is not the
    /// last fragment of its line.
    pub fn whitespace_width(&self, metrics: &FontMetrics) -> (r: u64)
        ensures
            r == frag_ws_width(*metrics, *self),
    {
        if self.add_whitespace {
            metrics.char_width(self.style(), ' ') as u64
        } else {
            0
        }
    }

    /// Width of the hyphen inserted when this fragment ends a line
    /// mid-word.
    pub fn penalty_width(&self, metrics: &FontMetrics) -> (r: u64)
        ensures
            r == frag_pen_width(*metrics, *self),
    {
        if self.add_hyphen {
            metrics.char_width(self.style(), '-') as u64
        } else {
            0
        }
    }
}

fn copy_chars(v: &Vec<char>) -> (r: Vec<char>)
    ensures
        r@ == v@,
{
    let mut r: Vec<char> = Vec::new();
    let mut i: usize = 0;
    while i < v.len()
        invariant
            0 <= i <= v@.len(),
            r@ == v@.take(i as int),
        decreases v@.len() - i,
    {
        r.push(v[i]);
        proof {
            assert(v@.take(i + 1) =~= v@.take(i as int).push(v@[i as int]));
        }
        i = i + 1;
    }
    proof {
        assert(v@.take(i as int) =~= v@);
    }
    r
}

/// The number of bytes a character occupies in UTF-8.
pub open spec fn spec_char_utf8_len(c: char) -> int {
    if (c as u32) < 0x80 {
        1
    } else if (c as u32) < 0x800 {
        2
    } else if (c as u32) < 0x10000 {
        3
    } else {
        4
    }
}

fn char_utf8_len(c: char) -> (r: u64)
    ensures
        r == spec_char_utf8_len(c),
        1 <= r <= 4,
{
    let v = c as u32;
    if v < 0x80 {
        1
    } else if v < 0x800 {
        2
    } else if v < 0x10000 {
        3
    } else {
        4
    }
}

/// The byte offset of the boundary before the `i`-th character of
/// `word` in its UTF-8 form.
pub open spec fn spec_byte_offset(word: Seq<char>, i: int) -> int
    decreases i,
{
    if i <= 0 {
        0
    } else {
        spec_byte_offset(word, i - 1) + spec_char_utf8_len(word[i - 1])
    }
}

/// Whether the reported breaks ask for a split at the boundary before
/// the `i`-th character.
pub open spec fn spec_is_break(word: Seq<char>, breaks: Seq<usize>, i: int) -> bool {
    exists|k: int| 0 <= k < breaks.len() && breaks[k] as int == spec_byte_offset(word, i)
}

/// The segmentation state over the first `i` characters: the segments
/// closed so far, followed by the one still open. A new segment opens
/// exactly at each boundary strictly inside the word whose byte offset
/// the breaks name.
pub open spec fn spec_split_at_state(word: Seq<char>, breaks: Seq<usize>, i: int)
    -> Seq<Seq<char>>
    decreases i,
{
    if i <= 0 {
        seq![Seq::<char>::empty()]
    } else {
        let prev = spec_split_at_state(word, breaks, i - 1);
        let c = word[i - 1];
        if i - 1 > 0 && spec_is_break(word, breaks, i - 1) {
            prev.push(seq![c])
        } else {
            prev.drop_last().push(prev.last().push(c))
        }
    }
}

/// The segmentation of `word` at exactly those reported byte offsets
/// that fall on a character boundary strictly inside the word; any
/// other offset is ignored.
pub open spec fn spec_split_at(word: Seq<char>, breaks: Seq<usize>) -> Seq<Seq<char>> {
    spec_split_at_state(word, breaks, word.len() as int)
}

/// Whether any reported break equals this byte offset.
fn has_break_at(breaks: &Vec<usize>, offset: u128) -> (r: bool)
    ensures
        r == exists|k: int| 0 <= k < breaks@.len() && breaks@[k] as int == offset as int,
{
    let mut k: usize = 0;
    while k < breaks.len()
        invariant
            0 <= k <= breaks@.len(),
            forall|j: int| 0 <= j < k ==> (#[trigger] breaks@[j]) as int != offset as int,
        decreases breaks@.len() - k,
    {
        if breaks[k] as u128 == offset {
            proof {
                assert(breaks@[k as int] as int == offset as int);
            }
            return true;
        }
        k = k + 1;
    }
    false
}

/// Splits the word at the reported byte offsets: exactly the offsets
/// that fall on a character boundary strictly inside the word become
/// segment boundaries, any other offset is ignored, and whatever the
/// offsets hold, the segments concatenate to exactly the word.
pub fn split_at_breaks(word: &Vec<char>, breaks: &Vec<usize>) -> (r: Vec<Vec<char>>)
    ensures
        r@.map_values(|seg: Vec<char>| seg@) == spec_split_at(word@, breaks@),
        concat_elems(r@.map_values(|seg: Vec<char>| seg@)) == word@,
        r@.len() >= 1,
        forall|i: int, j: int|
            #![trigger r@[i]@[j]]
            0 <= i < r@.len() && 0 <= j < r@[i]@.len() ==> word@.contains(r@[i]@[j]),
{
    let mut out: Vec<Vec<char>> = Vec::new();
    let mut cur: Vec<char> = Vec::new();
    let mut offset: u128 = 0;
    let mut i: usize = 0;
    proof {
        assert(out@.map_values(|s: Vec<char>| s@) =~= Seq::<Seq<char>>::empty());
        assert(concat_elems(out@.map_values(|s: Vec<char>| s@)) + cur@ =~= word@.take(0));
        assert(out@.map_values(|s: Vec<char>| s@).push(cur@)
            =~= spec_split_at_state(word@, breaks@, 0));
    }
    while i < word.len()
        invariant
            0 <= i <= word@.len(),
            offset <= 4 * (i as int),
            offset as int == spec_byte_offset(word@, i as int),
            out@.map_values(|s: Vec<char>| s@).push(cur@) == spec_split_at_state(
                word@,
                breaks@,
                i as int,
            ),
            concat_elems(out@.map_values(|s: Vec<char>| s@)) + cur@ == word@.take(i as int),
            forall|a: int, b: int|
                #![trigger out@[a]@[b]]
                0 <= a < out@.len() && 0 <= b < out@[a]@.len() ==> word@.contains(out@[a]@[b]),
            forall|b: int| 0 <= b < cur@.len() ==> word@.contains(#[trigger] cur@[b]),
        decreases word@.len() - i,
    {
        let ghost prevstate = out@.map_values(|s: Vec<char>| s@).push(cur@);
        let breaking = i > 0 && has_break_at(breaks, offset);
        proof {
            assert(breaking == (i > 0 && spec_is_break(word@, breaks@, i as int)));
        }
        if breaking {
            let ghost oldmap = out@.map_values(|s: Vec<char>| s@);
            let ghost oldout = out@;
            let ghost oldcur = cur@;
            out.push(cur);
            cur = Vec::new();
            proof {
                assert(out@.map_values(|s: Vec<char>| s@) =~= oldmap.push(oldcur));
                lemma_concat_elems_push(oldmap, oldcur);
                assert(concat_elems(out@.map_values(|s: Vec<char>| s@)) + cur@
                    =~= concat_elems(oldmap) + oldcur);
                assert forall|a: int, b: int|
                    #![trigger out@[a]@[b]]
                    0 <= a < out@.len() && 0 <= b < out@[a]@.len() implies word@.contains(
                    out@[a]@[b],
                ) by {
                    if a < out@.len() - 1 {
                        assert(out@[a] == oldout[a]);
                    } else {
                        assert(out@[a]@ == oldcur);
                    }
                }
            }
        }
        let c = word[i];
        let ghost oldmap2 = out@.map_values(|s: Vec<char>| s@);
        let ghost oldcur = cur@;
        cur.push(c);
        let l = char_utf8_len(c);
        offset = offset + (l as u128);
        proof {
            let m = out@.map_values(|s: Vec<char>| s@);
            assert(concat_elems(m) + cur@ =~= (concat_elems(m) + oldcur).push(c));
            assert(word@.take(i + 1) =~= word@.take(i as int).push(word@[i as int]));
            assert(word@.contains(c)) by {
                assert(word@[i as int] == c);
            }
            // the state transition matches the specification's recursion
            let newstate = spec_split_at_state(word@, breaks@, i + 1);
            assert(c == word@[i as int]);
            if breaking {
                assert(newstate == prevstate.push(seq![c]));
                assert(m.push(cur@) =~= prevstate.push(seq![c]));
            } else {
                assert(newstate == prevstate.drop_last().push(prevstate.last().push(c)));
                assert(prevstate.drop_last() =~= oldmap2);
                assert(prevstate.last() == oldcur);
                assert(m.push(cur@) =~= prevstate.drop_last().push(prevstate.last().push(c)));
            }
        }
        i = i + 1;
    }
    let ghost finmap = out@.map_values(|s: Vec<char>| s@);
    let ghost finout = out@;
    let ghost fincur = cur@;
    out.push(cur);
    proof {
        let m = out@.map_values(|s: Vec<char>| s@);
        assert(m =~= finmap.push(fincur));
        lemma_concat_elems_push(finmap, fincur);
        assert(word@.take(word@.len() as int) =~= word@);
        assert(m == spec_split_at(word@, breaks@));
        assert forall|a: int, b: int|
            #![trigger out@[a]@[b]]
            0 <= a < out@.len() && 0 <= b < out@[a]@.len() implies word@.contains(
            out@[a]@[b],
        ) by {
            if a < out@.len() - 1 {
                assert(out@[a] == finout[a]);
            } else {
                assert(out@[a]@ == fincur);
            }
        }
    }
    out
}

/// Splits a word into hyphenation-eligible segments whose concatenation
/// is the word. Without a configured dictionary the word comes back
/// unsplit, as a single segment; with one, the word is split at the
/// dictionary's break points that fall on character boundaries. Either
/// way every segment character is a character of the word.
pub fn split(context: &Context, word: &Vec<char>) -> (r: Vec<Vec<char>>)
    ensures
        concat_elems(r@.map_values(|seg: Vec<char>| seg@)) == word@,
        r@.len() >= 1,
        context.hyphenator is None ==> r@.len() == 1 && r@[0]@ == word@,
        forall|i: int, j: int|
            #![trigger r@[i]@[j]]
            0 <= i < r@.len() && 0 <= j < r@[i]@.len() ==> word@.contains(r@[i]@[j]),
{
    match &context.hyphenator {
        None => {
            let c = copy_chars(word);
            let mut r: Vec<Vec<char>> = Vec::new();
            r.push(c);
            proof {
                let m = r@.map_values(|seg: Vec<char>| seg@);
                assert(m =~= seq![word@]);
                assert(m.drop_last() =~= Seq::<Seq<char>>::empty());
                assert(m.last() == word@);
                assert(concat_elems(Seq::<Seq<char>>::empty()) == Seq::<char>::empty());
                assert(concat_elems(m) == concat_elems(m.drop_last()) + m.last());
                assert(Seq::<char>::empty() + word@ =~= word@);
                assert forall|i: int, j: int|
                    #![trigger r@[i]@[j]]
                    0 <= i < r@.len() && 0 <= j < r@[i]@.len() implies word@.contains(
                    r@[i]@[j],
                ) by {
                    assert(r@[i]@ == word@);
                }
            }
            r
        },
        Some(dict) => {
            let breaks = hyphenation_breaks(dict, word);
            split_at_breaks(word, &breaks)
        },
    }
}

/// Each word followed by one space: the shape of every non-final word of
/// a tokenized text.
pub open spec fn words_sp(ws: Seq<Seq<char>>) -> Seq<char> {
    concat_elems(ws.map_values(|w: Seq<char>| w.push(' ')))
}

/// The text the word list came from: every word but the last followed by
/// one space.
pub open spec fn joined_words(ws: Seq<Seq<char>>) -> Seq<char> {
    if ws.len() == 0 {
        Seq::empty()
    } else {
        words_sp(ws.drop_last()) + ws.last()
    }
}

/// Tokenizes on the space character, the only whitespace delimiter
/// recognized at this layer. Splitting is lossless: rejoining the words
/// with single spaces reproduces the text.
fn split_words(text: &Vec<char>) -> (r: Vec<Vec<char>>)
    ensures
        joined_words(r@.map_values(|w: Vec<char>| w@)) == text@,
        r@.len() >= 1,
        forall|i: int, j: int|
            #![trigger r@[i]@[j]]
            0 <= i < r@.len() && 0 <= j < r@[i]@.len() ==> r@[i]@[j] != ' ',
{
    let mut out: Vec<Vec<char>> = Vec::new();
    let mut cur: Vec<char> = Vec::new();
    let mut i: usize = 0;
    while i < text.len()
        invariant
            0 <= i <= text@.len(),
            words_sp(out@.map_values(|w: Vec<char>| w@)) + cur@ == text@.take(i as int),
            forall|a: int, b: int|
                #![trigger out@[a]@[b]]
                0 <= a < out@.len() && 0 <= b < out@[a]@.len() ==> out@[a]@[b] != ' ',
            forall|b: int| 0 <= b < cur@.len() ==> #[trigger] cur@[b] != ' ',
        decreases text@.len() - i,
    {
        let c = text[i];
        if c == ' ' {
            let ghost oldmap = out@.map_values(|w: Vec<char>| w@);
            let ghost oldout = out@;
            let ghost oldcur = cur@;
            out.push(cur);
            cur = Vec::new();
            proof {
                assert forall|a: int, b: int|
                    #![trigger out@[a]@[b]]
                    0 <= a < out@.len() && 0 <= b < out@[a]@.len() implies out@[a]@[b]
                    != ' ' by {
                    if a < out@.len() - 1 {
                        assert(out@[a] == oldout[a]);
                    } else {
                        assert(out@[a]@ == oldcur);
                    }
                }
                let newmap = out@.map_values(|w: Vec<char>| w@);
                let g = |w: Seq<char>| w.push(' ');
                assert(newmap =~= oldmap.push(oldcur));
                assert(newmap.map_values(g) =~= oldmap.map_values(g).push(g(oldcur)));
                lemma_concat_elems_push(oldmap.map_values(g), g(oldcur));
                assert(words_sp(newmap) + cur@ =~= (words_sp(oldmap) + oldcur).push(' '));
                assert(text@.take(i + 1) =~= text@.take(i as int).push(text@[i as int]));
            }
        } else {
            let ghost oldcur = cur@;
            cur.push(c);
            proof {
                let m = out@.map_values(|w: Vec<char>| w@);
                assert(words_sp(m) + cur@ =~= (words_sp(m) + oldcur).push(c));
                assert(text@.take(i + 1) =~= text@.take(i as int).push(text@[i as int]));
            }
        }
        i = i + 1;
    }
    let ghost finmap = out@.map_values(|w: Vec<char>| w@);
    let ghost finout = out@;
    let ghost fincur = cur@;
    out.push(cur);
    proof {
        let m = out@.map_values(|w: Vec<char>| w@);
        assert(m =~= finmap.push(fincur));
        assert(m.drop_last() =~= finmap);
        assert(m.last() == fincur);
        assert(text@.take(text@.len() as int) =~= text@);
        assert forall|a: int, b: int|
            #![trigger out@[a]@[b]]
            0 <= a < out@.len() && 0 <= b < out@[a]@.len() implies out@[a]@[b] != ' ' by {
            if a < out@.len() - 1 {
                assert(out@[a] == finout[a]);
            } else {
                assert(out@[a]@ == fincur);
            }
        }
    }
    out
}

proof fn lemma_styled_chars_concat(a: Seq<char>, b: Seq<char>, st: Style)
    ensures
        styled_chars(a + b, st) == styled_chars(a, st) + styled_chars(b, st),
{
    assert(styled_chars(a + b, st) =~= styled_chars(a, st) + styled_chars(b, st));
}

proof fn lemma_recon_frags_push(fs: Seq<Fragment>, f: Fragment)
    ensures
        recon_frags(fs.push(f)) == recon_frags(fs) + recon_frag(f),
{
    let g = |x: Fragment| recon_frag(x);
    assert(fs.push(f).map_values(g) =~= fs.map_values(g).push(g(f)));
    lemma_concat_elems_push(fs.map_values(g), g(f));
}

proof fn lemma_recon_frags_first(fs: Seq<Fragment>)
    requires
        fs.len() > 0,
    ensures
        recon_frags(fs) == recon_frag(fs[0]) + recon_frags(fs.skip(1)),
{
    let g = |x: Fragment| recon_frag(x);
    crate::seqs::lemma_concat_elems_first(fs.map_values(g));
    assert(fs.map_values(g).skip(1) =~= fs.skip(1).map_values(g));
}

proof fn lemma_spans_chars_concat(a: Seq<StyledString>, b: Seq<StyledString>)
    ensures
        spans_chars(a + b) == spans_chars(a) + spans_chars(b),
{
    let g = |s: StyledString| span_chars(s);
    assert((a + b).map_values(g) =~= a.map_values(g) + b.map_values(g));
    lemma_concat_elems_concat(a.map_values(g), b.map_values(g));
}

proof fn lemma_spans_chars_push(ss: Seq<StyledString>, s: StyledString)
    ensures
        spans_chars(ss.push(s)) == spans_chars(ss) + span_chars(s),
{
    let g = |x: StyledString| span_chars(x);
    assert(ss.push(s).map_values(g) =~= ss.map_values(g).push(g(s)));
    lemma_concat_elems_push(ss.map_values(g), g(s));
}

/// The characters and the trailing style of a fragment holding exactly
/// one span.
proof fn lemma_single_span_frag(f: Fragment)
    requires
        f.strings@.len() == 1,
    ensures
        frag_chars(f) == span_chars(f.strings@[0]),
        frag_style(f) == f.strings@[0].style,
{
    let m = f.strings@.map_values(|s: StyledString| span_chars(s));
    assert(m.drop_last() =~= Seq::<Seq<(char, Style)>>::empty());
    assert(concat_elems(m) == concat_elems(m.drop_last()) + m.last());
    assert(Seq::<(char, Style)>::empty() + m.last() =~= m.last());
    assert(m.last() == span_chars(f.strings@[0]));
}

proof fn lemma_words_sp_push(ws: Seq<Seq<char>>, w: Seq<char>)
    ensures
        words_sp(ws.push(w)) == words_sp(ws) + w + seq![' '],
{
    let g = |x: Seq<char>| x.push(' ');
    assert(ws.push(w).map_values(g) =~= ws.map_values(g).push(g(w)));
    lemma_concat_elems_push(ws.map_values(g), g(w));
    assert(g(w) =~= w + seq![' ']);
    assert(words_sp(ws) + (w + seq![' ']) =~= words_sp(ws) + w + seq![' ']);
}

/// The text encoded by the first `k` words of a word list of `total`
/// words: every word of a text but its last is followed by one space.
spec fn partial_words(ws: Seq<Seq<char>>, k: int) -> Seq<char> {
    if k == ws.len() {
        joined_words(ws)
    } else {
        words_sp(ws.take(k))
    }
}

/// Turns ordered styled runs into the ordered fragment sequence of the
/// layout pass: each run is tokenized on spaces, each word split into
/// hyphenation segments, and adjacent pieces that can never end a line
/// are folded into one indivisible fragment.
///
/// Fragmentation is lossless: the fragments, read back with the spaces
/// their whitespace flags stand for, are exactly the styled characters of
/// the input runs, in order.
pub fn prepare(context: &Context, strings: &Vec<StyledString>) -> (r: Vec<Fragment>)
    ensures
        recon_frags(r@) == spans_chars(strings@),
        forall|i: int| 0 <= i < r@.len() ==> frag_wf(#[trigger] r@[i]),
        forall|i: int|
            0 <= i < r@.len() - 1 ==> (#[trigger] r@[i]).add_whitespace || r@[i].add_hyphen,
        r@.len() > 0 ==> !r@.last().add_whitespace && !r@.last().add_hyphen,
        forall|i: int| 0 <= i < r@.len() ==> frag_space_free(#[trigger] r@[i]),
        context.hyphenator is None ==> forall|i: int|
            0 <= i < r@.len() ==> !(#[trigger] r@[i]).add_hyphen,
{
    let mut raw: Vec<Fragment> = Vec::new();
    let mut ri: usize = 0;
    while ri < strings.len()
        invariant
            0 <= ri <= strings@.len(),
            recon_frags(raw@) == spans_chars(strings@.take(ri as int)),
            forall|i: int| 0 <= i < raw@.len() ==> frag_wf(#[trigger] raw@[i]),
            raw@.len() > 0 ==> !raw@.last().add_whitespace && !raw@.last().add_hyphen,
            forall|i: int| 0 <= i < raw@.len() ==> frag_space_free(#[trigger] raw@[i]),
            context.hyphenator is None ==> forall|i: int|
                0 <= i < raw@.len() ==> !(#[trigger] raw@[i]).add_hyphen,
        decreases strings@.len() - ri,
    {
        let run = &strings[ri];
        let stl = run.style;
        let words = split_words(&run.s);
        let ghost wseq = words@.map_values(|w: Vec<char>| w@);
        let total = words.len();
        let ghost base = spans_chars(strings@.take(ri as int));
        let mut wi: usize = 0;
        proof {
            assert forall|a: int, b: int|
                #![trigger wseq[a][b]]
                0 <= a < wseq.len() && 0 <= b < wseq[a].len() implies wseq[a][b] != ' ' by {
                assert(wseq[a] == words@[a]@);
            }
            assert(wseq.take(0) =~= Seq::<Seq<char>>::empty());
            assert(Seq::<Seq<char>>::empty().map_values(|x: Seq<char>| x.push(' '))
                =~= Seq::<Seq<char>>::empty());
            assert(styled_chars(words_sp(wseq.take(0)), stl)
                =~= Seq::<(char, Style)>::empty());
            assert(recon_frags(raw@) + Seq::<(char, Style)>::empty() =~= recon_frags(raw@));
        }
        while wi < total
            invariant
                0 <= wi <= total,
                total == wseq.len(),
                total == words@.len(),
                wseq == words@.map_values(|w: Vec<char>| w@),
                base == spans_chars(strings@.take(ri as int)),
                recon_frags(raw@) == base + styled_chars(partial_words(wseq, wi as int), stl),
                forall|i: int| 0 <= i < raw@.len() ==> frag_wf(#[trigger] raw@[i]),
                forall|a: int, b: int|
                    #![trigger wseq[a][b]]
                    0 <= a < wseq.len() && 0 <= b < wseq[a].len() ==> wseq[a][b] != ' ',
                raw@.len() > 0 ==> !raw@.last().add_hyphen && (raw@.last().add_whitespace
                    ==> wi < total),
                forall|i: int| 0 <= i < raw@.len() ==> frag_space_free(#[trigger] raw@[i]),
                context.hyphenator is None ==> forall|i: int|
                    0 <= i < raw@.len() ==> !(#[trigger] raw@[i]).add_hyphen,
            decreases total - wi,
        {
            let is_last_word = wi + 1 == total;
            let mut segs = split(context, &words[wi]);
            let ghost sseq = segs@.map_values(|s: Vec<char>| s@);
            let nsegs = segs.len();
            let mut si: usize = 0;
            proof {
                assert forall|a: int, b: int|
                    #![trigger sseq[a][b]]
                    0 <= a < sseq.len() && 0 <= b < sseq[a].len() implies sseq[a][b]
                    != ' ' by {
                    assert(sseq[a] == segs@[a]@);
                    assert(words@[wi as int]@.contains(segs@[a]@[b]));
                    assert(wseq[wi as int] == words@[wi as int]@);
                    let k = choose|k: int|
                        0 <= k < wseq[wi as int].len() && wseq[wi as int][k] == sseq[a][b];
                    assert(wseq[wi as int][k] != ' ');
                }
                assert(concat_elems(sseq) == wseq[wi as int]);
                assert(sseq.take(0) =~= Seq::<Seq<char>>::empty());
                assert(styled_chars(concat_elems(sseq.take(0)), stl)
                    =~= Seq::<(char, Style)>::empty());
                assert(recon_frags(raw@) + Seq::<(char, Style)>::empty()
                    =~= recon_frags(raw@));
            }
            while segs.len() > 0
                invariant
                    si + segs@.len() == nsegs,
                    nsegs == sseq.len(),
                    nsegs >= 1,
                    is_last_word == (wi + 1 == total),
                    segs@.map_values(|s: Vec<char>| s@) == sseq.skip(si as int),
                    concat_elems(sseq) == wseq[wi as int],
                    0 <= wi < total,
                    total == wseq.len(),
                    base == spans_chars(strings@.take(ri as int)),
                    forall|a: int, b: int|
                        #![trigger sseq[a][b]]
                        0 <= a < sseq.len() && 0 <= b < sseq[a].len() ==> sseq[a][b] != ' ',
                    context.hyphenator is None ==> nsegs == 1,
                    si > 0 ==> raw@.len() > 0 && raw@.last().add_hyphen == (si < nsegs)
                        && raw@.last().add_whitespace == (si == nsegs && wi + 1 != total),
                    si == 0 && raw@.len() > 0 ==> !raw@.last().add_hyphen && (
                    raw@.last().add_whitespace ==> wi < total),
                    forall|i: int| 0 <= i < raw@.len() ==> frag_space_free(#[trigger] raw@[i]),
                    context.hyphenator is None ==> forall|i: int|
                        0 <= i < raw@.len() ==> !(#[trigger] raw@[i]).add_hyphen,
                    recon_frags(raw@) == base
                        + styled_chars(words_sp(wseq.take(wi as int)), stl)
                        + styled_chars(concat_elems(sseq.take(si as int)), stl)
                        + (if si == nsegs && wi + 1 != total {
                            seq![(' ', stl)]
                        } else {
                            Seq::<(char, Style)>::empty()
                        }),
                    forall|i: int| 0 <= i < raw@.len() ==> frag_wf(#[trigger] raw@[i]),
                decreases segs@.len(),
            {
                let ghost oldsegs = segs@;
                let seg = segs.remove(0);
                let is_last_seg = segs.len() == 0;
                proof {
                    let gm = |s: Vec<char>| s@;
                    assert(seg@ == oldsegs.map_values(gm)[0]);
                    assert(seg@ == sseq[si as int]);
                    assert forall|j: int| 0 <= j < segs@.len() implies #[trigger] segs@.map_values(
                        gm,
                    )[j] == sseq.skip(si as int + 1)[j] by {
                        assert(segs@[j] == oldsegs[j + 1]);
                        assert(oldsegs.map_values(gm)[j + 1] == gm(oldsegs[j + 1]));
                        assert(sseq.skip(si as int)[j + 1] == sseq[si as int + 1 + j]);
                    }
                    assert(segs@.map_values(gm) =~= sseq.skip(si as int + 1));
                }
                let span = StyledString { s: seg, style: stl };
                let mut spanvec: Vec<StyledString> = Vec::new();
                spanvec.push(span);
                let f = Fragment {
                    strings: spanvec,
                    add_whitespace: !is_last_word && is_last_seg,
                    add_hyphen: !is_last_seg,
                };
                let ghost oldraw = raw@;
                raw.push(f);
                proof {
                    lemma_recon_frags_push(oldraw, f);
                    lemma_single_span_frag(f);
                    let a = base + styled_chars(words_sp(wseq.take(wi as int)), stl);
                    let b = styled_chars(concat_elems(sseq.take(si as int)), stl);
                    let c = styled_chars(sseq[si as int], stl);
                    let sp = seq![(' ', stl)];
                    let emp = Seq::<(char, Style)>::empty();
                    assert(frag_chars(f) == c);
                    assert(frag_style(f) == stl);
                    assert(sseq.take(si as int + 1)
                        =~= sseq.take(si as int).push(sseq[si as int]));
                    lemma_concat_elems_push(sseq.take(si as int), sseq[si as int]);
                    lemma_styled_chars_concat(
                        concat_elems(sseq.take(si as int)),
                        sseq[si as int],
                        stl,
                    );
                    assert(styled_chars(concat_elems(sseq.take(si as int + 1)), stl)
                        == b + c);
                    assert(recon_frags(oldraw) == a + b + emp);
                    let s1 = styled_chars(concat_elems(sseq.take(si as int + 1)), stl);
                    assert(s1 == b + c);
                    if f.add_whitespace {
                        assert(si + 1 == nsegs && wi + 1 != total);
                        assert(recon_frag(f) == c + sp);
                        assert((a + b + emp) + (c + sp) =~= a + (b + c) + sp);
                        assert(recon_frags(raw@) == a + (b + c) + sp);
                        assert(a + s1 + sp == a + (b + c) + sp);
                        assert(recon_frags(raw@) == base
                            + styled_chars(words_sp(wseq.take(wi as int)), stl)
                            + styled_chars(concat_elems(sseq.take(si as int + 1)), stl)
                            + (if si + 1 == nsegs && wi + 1 != total {
                                seq![(' ', stl)]
                            } else {
                                Seq::<(char, Style)>::empty()
                            }));
                    } else {
                        assert(!(si + 1 == nsegs && wi + 1 != total));
                        assert(recon_frag(f) == c + emp);
                        assert((a + b + emp) + (c + emp) =~= a + (b + c) + emp);
                        assert(recon_frags(raw@) == a + (b + c) + emp);
                        assert(a + s1 + emp == a + (b + c) + emp);
                        assert(recon_frags(raw@) == base
                            + styled_chars(words_sp(wseq.take(wi as int)), stl)
                            + styled_chars(concat_elems(sseq.take(si as int + 1)), stl)
                            + (if si + 1 == nsegs && wi + 1 != total {
                                seq![(' ', stl)]
                            } else {
                                Seq::<(char, Style)>::empty()
                            }));
                    }
                    assert(raw@.last() == f);
                    assert(is_last_seg == (si + 1 == nsegs));
                    assert(frag_space_free(f)) by {
                        assert forall|j: int|
                            0 <= j < frag_chars(f).len() implies (#[trigger] frag_chars(
                            f,
                        )[j]).0 != ' ' by {
                            assert(frag_chars(f)[j] == (sseq[si as int][j], stl));
                        }
                    }
                    assert forall|i: int|
                        0 <= i < raw@.len() implies frag_space_free(#[trigger] raw@[i]) by {
                        if i < raw@.len() - 1 {
                            assert(raw@[i] == oldraw[i]);
                        }
                    }
                    if context.hyphenator is None {
                        assert(nsegs == 1);
                        assert(!f.add_hyphen);
                        assert forall|i: int|
                            0 <= i < raw@.len() implies !(#[trigger] raw@[i]).add_hyphen by {
                            if i < raw@.len() - 1 {
                                assert(raw@[i] == oldraw[i]);
                            }
                        }
                    }
                }
                si = si + 1;
            }
            proof {
                assert(si == nsegs);
                assert(sseq.take(si as int) =~= sseq);
                let wordchars = wseq[wi as int];
                if wi + 1 != total {
                    lemma_words_sp_push(wseq.take(wi as int), wordchars);
                    assert(wseq.take(wi as int + 1)
                        =~= wseq.take(wi as int).push(wordchars));
                    lemma_styled_chars_concat(words_sp(wseq.take(wi as int)), wordchars, stl);
                    lemma_styled_chars_concat(
                        words_sp(wseq.take(wi as int)) + wordchars,
                        seq![' '],
                        stl,
                    );
                    assert(styled_chars(seq![' '], stl) =~= seq![(' ', stl)]);
                    assert(partial_words(wseq, wi as int + 1)
                        == words_sp(wseq.take(wi as int + 1)));
                    assert(base + styled_chars(words_sp(wseq.take(wi as int)), stl)
                        + styled_chars(wordchars, stl) + seq![(' ', stl)]
                        =~= base + (styled_chars(words_sp(wseq.take(wi as int)), stl)
                            + styled_chars(wordchars, stl) + seq![(' ', stl)]));
                    assert(recon_frags(raw@)
                        == base + styled_chars(partial_words(wseq, wi as int + 1), stl));
                } else {
                    assert(wseq.drop_last() =~= wseq.take(wi as int));
                    assert(wseq.last() == wordchars);
                    assert(joined_words(wseq) == words_sp(wseq.take(wi as int)) + wordchars);
                    lemma_styled_chars_concat(words_sp(wseq.take(wi as int)), wordchars, stl);
                    assert(recon_frags(raw@) + Seq::<(char, Style)>::empty()
                        =~= recon_frags(raw@));
                    assert(base + styled_chars(words_sp(wseq.take(wi as int)), stl)
                        + styled_chars(wordchars, stl)
                        =~= base + (styled_chars(words_sp(wseq.take(wi as int)), stl)
                            + styled_chars(wordchars, stl)));
                    assert(recon_frags(raw@)
                        == base + styled_chars(partial_words(wseq, wi as int + 1), stl));
                }
            }
            wi = wi + 1;
        }
        proof {
            assert(partial_words(wseq, total as int) == joined_words(wseq));
            assert(joined_words(wseq) == run.s@);
            assert(styled_chars(run.s@, stl) == span_chars(strings@[ri as int]));
            assert(strings@.take(ri as int + 1)
                =~= strings@.take(ri as int).push(strings@[ri as int]));
            lemma_spans_chars_push(strings@.take(ri as int), strings@[ri as int]);
        }
        ri = ri + 1;
    }
    proof {
        assert(strings@.take(ri as int) =~= strings@);
    }

    // Fold adjacent fragments where the earlier one can never legally end
    // a line (neither flag set) into one indivisible fragment.
    let mut out: Vec<Fragment> = Vec::new();
    proof {
        assert(Seq::<(char, Style)>::empty() + recon_frags(raw@) =~= recon_frags(raw@));
        assert(out@.map_values(|x: Fragment| recon_frag(x))
            =~= Seq::<Seq<(char, Style)>>::empty());
    }
    while raw.len() > 0
        invariant
            recon_frags(out@) + recon_frags(raw@) == spans_chars(strings@),
            forall|i: int| 0 <= i < raw@.len() ==> frag_wf(#[trigger] raw@[i]),
            forall|i: int| 0 <= i < out@.len() ==> frag_wf(#[trigger] out@[i]),
            forall|i: int|
                0 <= i < out@.len() - 1 ==> (#[trigger] out@[i]).add_whitespace
                    || out@[i].add_hyphen,
            raw@.len() > 0 ==> !raw@.last().add_whitespace && !raw@.last().add_hyphen,
            raw@.len() == 0 && out@.len() > 0 ==> !out@.last().add_whitespace
                && !out@.last().add_hyphen,
            forall|i: int| 0 <= i < raw@.len() ==> frag_space_free(#[trigger] raw@[i]),
            forall|i: int| 0 <= i < out@.len() ==> frag_space_free(#[trigger] out@[i]),
            context.hyphenator is None ==> forall|i: int|
                0 <= i < raw@.len() ==> !(#[trigger] raw@[i]).add_hyphen,
            context.hyphenator is None ==> forall|i: int|
                0 <= i < out@.len() ==> !(#[trigger] out@[i]).add_hyphen,
        decreases raw@.len(),
    {
        let ghost oldrawseq = raw@;
        let f = raw.remove(0);
        proof {
            lemma_recon_frags_first(oldrawseq);
            assert(raw@ =~= oldrawseq.skip(1));
            assert(f == oldrawseq[0]);
            assert(frag_space_free(f));
            if raw@.len() > 0 {
                assert(raw@.last() == oldrawseq.last());
            } else {
                assert(f == oldrawseq.last());
                assert(!f.add_whitespace && !f.add_hyphen);
            }
        }
        let n = out.len();
        if n > 0 && !out[n - 1].add_whitespace && !out[n - 1].add_hyphen {
            {
                let ghost oldout = out@;
                let lastopt = out.pop();
                let mut lastf = match lastopt {
                    Some(x) => x,
                    None => {
                        proof {
                            assert(false);
                        }
                        Fragment { strings: Vec::new(), add_whitespace: false, add_hyphen: false }
                    },
                };
                let Fragment { strings: mut fstr, add_whitespace: fw, add_hyphen: fh } = f;
                let ghost aseq = lastf.strings@;
                let ghost bseq = fstr@;
                lastf.strings.append(&mut fstr);
                lastf.add_whitespace = fw;
                lastf.add_hyphen = fh;
                let ghost popped = out@;
                out.push(lastf);
                proof {
                    let oldlast = oldout.last();
                    assert(popped =~= oldout.drop_last());
                    lemma_recon_frags_drop_last(oldout);
                    lemma_recon_frags_push(popped, lastf);
                    lemma_spans_chars_concat(aseq, bseq);
                    assert(lastf.strings@ == aseq + bseq);
                    assert(bseq.len() >= 1);
                    assert((aseq + bseq).last() == bseq.last());
                    assert(frag_style(lastf) == frag_style(oldrawseq[0]));
                    assert(frag_chars(oldlast) + Seq::<(char, Style)>::empty()
                        =~= frag_chars(oldlast));
                    if lastf.add_whitespace {
                        assert(recon_frag(lastf) =~= frag_chars(oldlast)
                            + recon_frag(oldrawseq[0]));
                    } else {
                        assert(recon_frag(lastf) =~= frag_chars(oldlast)
                            + recon_frag(oldrawseq[0]));
                    }
                    assert(recon_frags(out@) =~= recon_frags(oldout)
                        + recon_frag(oldrawseq[0]));
                    assert(recon_frags(out@) + recon_frags(raw@)
                        =~= recon_frags(oldout) + (recon_frag(oldrawseq[0])
                            + recon_frags(oldrawseq.skip(1))));
                    assert(out@.last() == lastf);
                    assert(lastf.add_whitespace == f.add_whitespace
                        && lastf.add_hyphen == f.add_hyphen);
                    assert(frag_chars(lastf) == frag_chars(oldlast) + frag_chars(f));
                    assert(frag_space_free(lastf)) by {
                        assert forall|j: int|
                            0 <= j < frag_chars(lastf).len() implies (#[trigger] frag_chars(
                            lastf,
                        )[j]).0 != ' ' by {
                            if j < frag_chars(oldlast).len() {
                                assert(frag_chars(lastf)[j] == frag_chars(oldlast)[j]);
                                assert(frag_space_free(oldlast));
                            } else {
                                assert(frag_chars(lastf)[j] == frag_chars(f)[j
                                    - frag_chars(oldlast).len()]);
                            }
                        }
                    }
                    assert forall|i: int|
                        0 <= i < out@.len() implies frag_space_free(#[trigger] out@[i]) by {
                        if i < out@.len() - 1 {
                            assert(out@[i] == oldout[i]);
                        }
                    }
                }
            }
        } else {
            let ghost oldout = out@;
            out.push(f);
            proof {
                lemma_recon_frags_push(oldout, f);
                assert(recon_frags(out@) + recon_frags(raw@)
                    =~= recon_frags(oldout) + (recon_frag(oldrawseq[0])
                        + recon_frags(oldrawseq.skip(1))));
                assert(out@.last() == f);
                assert forall|i: int|
                    0 <= i < out@.len() implies frag_space_free(#[trigger] out@[i]) by {
                    if i < out@.len() - 1 {
                        assert(out@[i] == oldout[i]);
                    }
                }
            }
        }
    }
    proof {
        assert(raw@.map_values(|x: Fragment| recon_frag(x))
            =~= Seq::<Seq<(char, Style)>>::empty());
        assert(recon_frags(out@) + Seq::<(char, Style)>::empty() =~= recon_frags(out@));
    }
    out
}

proof fn lemma_recon_frags_drop_last(fs: Seq<Fragment>)
    requires
        fs.len() > 0,
    ensures
        recon_frags(fs) == recon_frags(fs.drop_last()) + recon_frag(fs.last()),
{
    let g = |x: Fragment| recon_frag(x);
    assert(fs.map_values(g).drop_last() =~= fs.drop_last().map_values(g));
    assert(fs.map_values(g).last() == g(fs.last()));
}

proof fn lemma_recon_frags_concat(a: Seq<Fragment>, b: Seq<Fragment>)
    ensures
        recon_frags(a + b) == recon_frags(a) + recon_frags(b),
{
    let g = |x: Fragment| recon_frag(x);
    assert((a + b).map_values(g) =~= a.map_values(g) + b.map_values(g));
    lemma_concat_elems_concat(a.map_values(g), b.map_values(g));
}

proof fn lemma_spans_chars_drop_last(ss: Seq<StyledString>)
    requires
        ss.len() > 0,
    ensures
        spans_chars(ss) == spans_chars(ss.drop_last()) + span_chars(ss.last()),
{
    let g = |x: StyledString| span_chars(x);
    assert(ss.map_values(g).drop_last() =~= ss.drop_last().map_values(g));
    assert(ss.map_values(g).last() == g(ss.last()));
}

/// Ceiling on the target width and on any fragment's total width, chosen
/// so that the line breaker's running sums can never overflow: a quarter
/// of the largest layout unit value.
pub const MAX_FRAG_UNITS: u64 = 4611686018427387903;

/// The target width in the non-negative layout-unit domain.
pub open spec fn layout_width(width: Mm) -> int {
    if width.thousandths >= 0 {
        width.thousandths as int
    } else {
        0
    }
}

/// Width a line under construction accumulates: every fragment's width
/// plus its whitespace width.
pub open spec fn line_full_width(fm: FontMetrics, l: Seq<Fragment>) -> int {
    sum_ints(l.map_values(|f: Fragment| frag_width(fm, f) + frag_ws_width(fm, f)))
}

/// Committed width of a line: fragments plus interior whitespace,
/// excluding the line-final fragment's own trailing separator.
pub open spec fn line_committed_width(fm: FontMetrics, l: Seq<Fragment>) -> int {
    if l.len() == 0 {
        0
    } else {
        line_full_width(fm, l.drop_last()) + frag_width(fm, l.last())
    }
}

/// All fragments of a line sequence, in order.
pub open spec fn lines_frags(lines: Seq<Vec<Fragment>>) -> Seq<Fragment> {
    concat_elems(lines.map_values(|l: Vec<Fragment>| l@))
}

proof fn lemma_line_full_width_push(fm: FontMetrics, l: Seq<Fragment>, f: Fragment)
    ensures
        line_full_width(fm, l.push(f)) == line_full_width(fm, l) + frag_width(fm, f)
            + frag_ws_width(fm, f),
{
    let g = |x: Fragment| frag_width(fm, x) + frag_ws_width(fm, x);
    assert(l.push(f).map_values(g) =~= l.map_values(g).push(g(f)));
    lemma_sum_ints_push(l.map_values(g), g(f));
}

proof fn lemma_lines_frags_push(lines: Seq<Vec<Fragment>>, l: Vec<Fragment>)
    ensures
        lines_frags(lines.push(l)) == lines_frags(lines) + l@,
{
    let g = |x: Vec<Fragment>| x@;
    assert(lines.push(l).map_values(g) =~= lines.map_values(g).push(g(l)));
    lemma_concat_elems_push(lines.map_values(g), g(l));
}

/// Partitions the fragment sequence into width-constrained lines.
///
/// Greedy first fit with the penalty taken into account: a fragment
/// starts a new line exactly when placing it (with the hyphen it would
/// need there) would push the current line past the target width. The
/// contract pins the output down: the lines concatenate to the input,
/// every line is non-empty, no line's committed width exceeds the target
/// unless the line is one single over-wide fragment (forced placement),
/// and no line could have taken the following fragment as well.
pub fn wrap(fragments: Vec<Fragment>, width: Mm, metrics: &FontMetrics)
    -> (r: Vec<Vec<Fragment>>)
    requires
        layout_width(width) <= MAX_FRAG_UNITS,
        forall|i: int|
            0 <= i < fragments@.len() ==> frag_total_width(*metrics, #[trigger] fragments@[i])
                <= MAX_FRAG_UNITS,
    ensures
        lines_frags(r@) == fragments@,
        forall|k: int| 0 <= k < r@.len() ==> (#[trigger] r@[k])@.len() >= 1,
        forall|k: int|
            0 <= k < r@.len() ==> line_committed_width(*metrics, (#[trigger] r@[k])@)
                <= layout_width(width) || r@[k]@.len() == 1,
        forall|k: int|
            #![trigger r@[k]]
            0 <= k < r@.len() - 1 ==> line_full_width(*metrics, r@[k]@) + frag_width(
                *metrics,
                r@[k + 1]@[0],
            ) + frag_pen_width(*metrics, r@[k + 1]@[0]) > layout_width(width),
{
    let w: u64 = crate::get_width(width);
    let ghost orig = fragments@;
    let mut fragments = fragments;
    let mut lines: Vec<Vec<Fragment>> = Vec::new();
    let mut cur: Vec<Fragment> = Vec::new();
    let mut acc: u64 = 0;
    proof {
        assert(lines@.map_values(|x: Vec<Fragment>| x@) =~= Seq::<Seq<Fragment>>::empty());
        assert(lines_frags(lines@) + cur@ =~= Seq::<Fragment>::empty());
        assert(Seq::<Fragment>::empty() + fragments@ =~= fragments@);
        assert(cur@.map_values(|x: Fragment| frag_width(*metrics, x) + frag_ws_width(*metrics, x))
            =~= Seq::<int>::empty());
    }
    while fragments.len() > 0
        invariant
            w as int == layout_width(width),
            w <= MAX_FRAG_UNITS,
            forall|i: int|
                0 <= i < fragments@.len() ==> frag_total_width(*metrics, #[trigger] fragments@[i])
                    <= MAX_FRAG_UNITS,
            acc as int == line_full_width(*metrics, cur@),
            acc <= w + MAX_FRAG_UNITS,
            lines_frags(lines@) + cur@ + fragments@ == orig,
            cur@.len() == 0 ==> acc == 0 && lines@.len() == 0 && fragments@ == orig,
            line_committed_width(*metrics, cur@) <= w as int || cur@.len() == 1,
            forall|k: int| 0 <= k < lines@.len() ==> (#[trigger] lines@[k])@.len() >= 1,
            forall|k: int|
                0 <= k < lines@.len() ==> line_committed_width(*metrics, (#[trigger] lines@[k])@)
                    <= w as int || lines@[k]@.len() == 1,
            forall|k: int|
                #![trigger lines@[k]]
                0 <= k < lines@.len() - 1 ==> line_full_width(*metrics, lines@[k]@) + frag_width(
                    *metrics,
                    lines@[k + 1]@[0],
                ) + frag_pen_width(*metrics, lines@[k + 1]@[0]) > w as int,
            lines@.len() > 0 && cur@.len() > 0 ==> line_full_width(
                *metrics,
                lines@.last()@,
            ) + frag_width(*metrics, cur@[0]) + frag_pen_width(*metrics, cur@[0]) > w as int,
        decreases fragments@.len(),
    {
        let ghost oldfrags = fragments@;
        let f = fragments.remove(0);
        proof {
            assert(f == oldfrags[0]);
            assert(oldfrags =~= seq![f] + fragments@);
            lemma_frag_width_nonneg(*metrics, f);
        }
        let fw = f.width(metrics);
        let pw = f.penalty_width(metrics);
        let wsw = f.whitespace_width(metrics);
        if cur.len() > 0 && acc + fw + pw > w {
            let ghost oldlines = lines@;
            let ghost closed = cur@;
            lines.push(cur);
            cur = Vec::new();
            acc = 0;
            proof {
                lemma_lines_frags_push(oldlines, lines@.last());
                assert(lines@.last()@ == closed);
                assert(cur@.map_values(
                    |x: Fragment| frag_width(*metrics, x) + frag_ws_width(*metrics, x),
                ) =~= Seq::<int>::empty());
            }
        }
        let ghost beforepush = cur@;
        let ghost lineschk = lines@;
        cur.push(f);
        acc = acc + fw + wsw;
        proof {
            lemma_line_full_width_push(*metrics, beforepush, f);
            assert(cur@.drop_last() =~= beforepush);
            assert(line_committed_width(*metrics, cur@) == line_full_width(*metrics, beforepush)
                + frag_width(*metrics, f));
            // the partition: lines + cur + fragments covers the input
            assert(cur@ =~= beforepush + seq![f]);
            assert(lines_frags(lines@) + (beforepush + seq![f]) + fragments@
                =~= lines_frags(lines@) + beforepush + (seq![f] + fragments@));
        }
    }
    if cur.len() > 0 {
        let ghost oldlines = lines@;
        let ghost closed = cur@;
        lines.push(cur);
        proof {
            lemma_lines_frags_push(oldlines, lines@.last());
            assert(lines@.last()@ == closed);
            assert(lines_frags(lines@) + fragments@ =~= lines_frags(lines@));
            assert(lines_frags(oldlines) + closed + fragments@ == orig);
            assert(lines_frags(oldlines) + closed =~= lines_frags(oldlines) + closed
                + fragments@);
        }
    }
    proof {
        if cur@.len() == 0 {
            assert(lines_frags(lines@) + cur@ + fragments@ =~= lines_frags(lines@));
        }
    }
    lines
}

/// The characters a fragment shows when it ends a line: its own text,
/// plus the hyphen its hyphen flag asks for.
pub open spec fn frag_end_render(f: Fragment) -> Seq<(char, Style)> {
    frag_chars(f) + if f.add_hyphen {
        seq![('-', frag_style(f))]
    } else {
        Seq::<(char, Style)>::empty()
    }
}

/// The styled spans a line's fragments hold, in order.
pub open spec fn line_spans(l: Seq<Fragment>) -> Seq<StyledString> {
    concat_elems(l.map_values(|f: Fragment| f.strings@))
}

/// `s` is `base`, possibly extended by the one separator character the
/// finalizer may append to a fragment's final span.
pub open spec fn span_extended(base: StyledString, s: StyledString) -> bool {
    &&& s.style == base.style
    &&& (s.s@ == base.s@ || s.s@ == base.s@.push(' ') || s.s@ == base.s@.push('-'))
}

/// Whether span index `k` of the line's flattened span list is the
/// last span of the fragment it belongs to: the only place a line
/// separator may be appended.
pub open spec fn spec_is_fragment_final_span(l: Seq<Fragment>, k: int) -> bool
    decreases l.len(),
{
    if l.len() == 0 {
        false
    } else if k < l[0].strings@.len() {
        k == l[0].strings@.len() - 1
    } else {
        spec_is_fragment_final_span(l.skip(1), k - l[0].strings@.len())
    }
}

proof fn lemma_line_spans_head(l: Seq<Fragment>)
    requires
        l.len() > 0,
    ensures
        line_spans(l) == l[0].strings@ + line_spans(l.skip(1)),
{
    let g = |x: Fragment| x.strings@;
    crate::seqs::lemma_concat_elems_first(l.map_values(g));
    assert(l.map_values(g).skip(1) =~= l.skip(1).map_values(g));
}

/// Within the span range of the line's `m`-th fragment, exactly the
/// range's last index is a fragment-final span.
proof fn lemma_fragment_final_span(l: Seq<Fragment>, m: int, j: int)
    requires
        0 <= m < l.len(),
        line_spans(l.take(m)).len() <= j < line_spans(l.take(m + 1)).len(),
    ensures
        spec_is_fragment_final_span(l, j) == (j == line_spans(l.take(m + 1)).len() - 1),
    decreases m,
{
    assert(l.take(m + 1) =~= l.take(m).push(l[m]));
    lemma_line_spans_push(l.take(m), l[m]);
    if m == 0 {
        assert(l.take(0).map_values(|f: Fragment| f.strings@)
            =~= Seq::<Seq<StyledString>>::empty());
        assert(line_spans(l.take(0)).len() == 0);
        assert(0 <= j < l[0].strings@.len());
    } else {
        let tail = l.skip(1);
        let head_count = l[0].strings@.len() as int;
        lemma_line_spans_head(l.take(m));
        assert(l.take(m)[0] == l[0]);
        assert(l.take(m).skip(1) =~= tail.take(m - 1));
        lemma_line_spans_head(l.take(m + 1));
        assert(l.take(m + 1)[0] == l[0]);
        assert(l.take(m + 1).skip(1) =~= tail.take(m));
        assert(tail.take(m) =~= tail.take(m - 1).push(tail[m - 1]));
        assert(tail[m - 1] == l[m]);
        lemma_line_spans_push(tail.take(m - 1), tail[m - 1]);
        assert(j >= head_count);
        lemma_fragment_final_span(tail, m - 1, j - head_count);
    }
}

proof fn lemma_line_spans_push(l: Seq<Fragment>, f: Fragment)
    ensures
        line_spans(l.push(f)) == line_spans(l) + f.strings@,
{
    let g = |x: Fragment| x.strings@;
    assert(l.push(f).map_values(g) =~= l.map_values(g).push(g(f)));
    lemma_concat_elems_push(l.map_values(g), g(f));
}

proof fn lemma_line_spans_split(l: Seq<Fragment>, k: int)
    requires
        0 <= k <= l.len(),
    ensures
        line_spans(l) == line_spans(l.take(k)) + line_spans(l.skip(k)),
{
    let g = |x: Fragment| x.strings@;
    assert(l.map_values(g) =~= l.take(k).map_values(g) + l.skip(k).map_values(g));
    lemma_concat_elems_concat(l.take(k).map_values(g), l.skip(k).map_values(g));
}

/// The styled text a finalized line shows: every fragment but the last
/// followed by the space its whitespace flag asks for, the last fragment
/// followed by the hyphen its hyphen flag asks for.
pub open spec fn line_render(l: Seq<Fragment>) -> Seq<(char, Style)> {
    if l.len() == 0 {
        Seq::empty()
    } else {
        recon_frags(l.drop_last()) + frag_end_render(l.last())
    }
}

/// Appends one character to the line's last span; the inserted separator
/// takes the style of the text it follows.
fn push_char_to_last(out: &mut Vec<StyledString>, c: char)
    requires
        old(out)@.len() > 0,
    ensures
        spans_chars(final(out)@) == spans_chars(old(out)@) + seq![(c, old(out)@.last().style)],
        final(out)@.len() == old(out)@.len(),
        final(out)@.drop_last() == old(out)@.drop_last(),
        final(out)@.last().style == old(out)@.last().style,
        final(out)@.last().s@ == old(out)@.last().s@.push(c),
{
    let ghost before = out@;
    let lastopt = out.pop();
    let mut lasts = match lastopt {
        Some(x) => x,
        None => {
            proof {
                assert(false);
            }
            StyledString { s: Vec::new(), style: Style { id: 0 } }
        },
    };
    let ghost oldspan = lasts;
    lasts.s.push(c);
    let ghost popped = out@;
    out.push(lasts);
    proof {
        assert(popped =~= before.drop_last());
        lemma_spans_chars_drop_last(before);
        lemma_spans_chars_push(popped, lasts);
        assert(lasts.s@ =~= oldspan.s@.push(c));
        assert(span_chars(lasts) =~= span_chars(oldspan).push((c, oldspan.style)));
        assert(span_chars(oldspan).push((c, oldspan.style)) =~= span_chars(oldspan)
            + seq![(c, oldspan.style)]);
        assert(spans_chars(out@) =~= spans_chars(before) + seq![(c, before.last().style)]);
        assert(out@.drop_last() =~= before.drop_last());
        assert(out@.last() == lasts);
    }
}

/// Reassembles one line of fragments into styled spans: the rendered
/// content of the line, separators included, style boundaries preserved.
pub fn finalize(line: Vec<Fragment>) -> (r: Vec<StyledString>)
    requires
        forall|i: int| 0 <= i < line@.len() ==> frag_wf(#[trigger] line@[i]),
    ensures
        spans_chars(r@) == line_render(line@),
        r@.len() == line_spans(line@).len(),
        forall|k: int|
            0 <= k < r@.len() ==> span_extended(line_spans(line@)[k], #[trigger] r@[k]),
        forall|k: int|
            0 <= k < r@.len() && !spec_is_fragment_final_span(line@, k) ==> (#[trigger] r@[
                k
            ]).s@ == line_spans(line@)[k].s@,
{
    let ghost orig = line@;
    let mut line = line;
    let mut out: Vec<StyledString> = Vec::new();
    proof {
        assert(out@.map_values(|s: StyledString| span_chars(s))
            =~= Seq::<Seq<(char, Style)>>::empty());
        assert(orig.take(0) =~= Seq::<Fragment>::empty());
        assert(recon_frags(orig.take(0)).len() == 0);
        assert(spans_chars(out@) =~= recon_frags(orig.take(0)));
        assert(orig.take(0).map_values(|f: Fragment| f.strings@)
            =~= Seq::<Seq<StyledString>>::empty());
        assert(line_spans(orig.take(0)).len() == 0);
    }
    while line.len() > 1
        invariant
            line@.len() >= 1 || orig.len() == 0,
            orig.len() >= line@.len(),
            line@ == orig.skip(orig.len() - line@.len()),
            forall|i: int| 0 <= i < orig.len() ==> frag_wf(#[trigger] orig[i]),
            spans_chars(out@) == recon_frags(orig.take(orig.len() - line@.len())),
            out@.len() == line_spans(orig.take(orig.len() - line@.len())).len(),
            forall|j: int|
                0 <= j < out@.len() ==> span_extended(line_spans(orig)[j], #[trigger] out@[j]),
            forall|j: int|
                0 <= j < out@.len() && !spec_is_fragment_final_span(orig, j) ==> (
                #[trigger] out@[j]).s@ == line_spans(orig)[j].s@,
        decreases line@.len(),
    {
        let ghost k = orig.len() - line@.len();
        let ghost oldline = line@;
        let f = line.remove(0);
        proof {
            assert(f == oldline[0]);
            assert(oldline[0] == orig[k]);
            assert(line@ =~= orig.skip(orig.len() - line@.len()));
            assert(frag_wf(f));
        }
        let ghost outbefore = out@;
        let Fragment { strings: mut fstr, add_whitespace: fws, add_hyphen: _ } = f;
        let ghost fspans = fstr@;
        out.append(&mut fstr);
        proof {
            lemma_spans_chars_concat(outbefore, fspans);
            assert(out@ == outbefore + fspans);
            assert(orig.take(k + 1) =~= orig.take(k).push(orig[k]));
            lemma_line_spans_push(orig.take(k), orig[k]);
            assert(line_spans(orig.take(k + 1)) == line_spans(orig.take(k)) + fspans);
            lemma_line_spans_split(orig, k + 1);
            assert forall|j: int|
                0 <= j < out@.len() implies span_extended(
                line_spans(orig)[j],
                #[trigger] out@[j],
            ) by {
                if j < outbefore.len() {
                    assert(out@[j] == outbefore[j]);
                } else {
                    assert(out@[j] == fspans[j - outbefore.len()]);
                    assert(line_spans(orig)[j] == line_spans(orig.take(k + 1))[j]);
                    assert(line_spans(orig.take(k + 1))[j] == fspans[j - outbefore.len()]);
                }
            }
            assert(fspans.len() >= 1);
            assert(out@.last() == fspans.last());
            assert(line_spans(orig)[out@.len() - 1] == out@.last());
            assert forall|j: int|
                0 <= j < out@.len() && !spec_is_fragment_final_span(orig, j) implies (
            #[trigger] out@[j]).s@ == line_spans(orig)[j].s@ by {
                if j < outbefore.len() {
                    assert(out@[j] == outbefore[j]);
                } else {
                    assert(out@[j] == fspans[j - outbefore.len()]);
                    assert(line_spans(orig)[j] == fspans[j - outbefore.len()]);
                }
            }
            lemma_fragment_final_span(orig, k, line_spans(orig.take(k + 1)).len() - 1);
            assert(spec_is_fragment_final_span(orig, out@.len() - 1));
        }
        if fws {
            proof {
                assert(fspans.len() >= 1);
                assert(out@.len() > 0);
                assert(out@.last() == fspans.last());
                assert(out@.last().style == frag_style(f));
            }
            let ghost beforesep = out@;
            push_char_to_last(&mut out, ' ');
            proof {
                assert forall|j: int|
                    0 <= j < out@.len() implies span_extended(
                    line_spans(orig)[j],
                    #[trigger] out@[j],
                ) by {
                    if j < out@.len() - 1 {
                        assert(out@[j] == out@.drop_last()[j]);
                        assert(beforesep.drop_last()[j] == beforesep[j]);
                    } else {
                        assert(line_spans(orig)[j] == beforesep.last());
                        assert(out@.last().s@ == beforesep.last().s@.push(' '));
                    }
                }
                assert forall|j: int|
                    0 <= j < out@.len() && !spec_is_fragment_final_span(orig, j) implies (
                #[trigger] out@[j]).s@ == line_spans(orig)[j].s@ by {
                    assert(j != out@.len() - 1);
                    assert(out@[j] == out@.drop_last()[j]);
                    assert(beforesep.drop_last()[j] == beforesep[j]);
                }
            }
        }
        proof {
            let rf = recon_frag(orig[k]);
            if fws {
                assert(rf == frag_chars(f) + seq![(' ', frag_style(f))]);
                assert(spans_chars(out@) == spans_chars(outbefore) + frag_chars(f)
                    + seq![(' ', frag_style(f))]);
                assert(spans_chars(outbefore) + frag_chars(f) + seq![(' ', frag_style(f))]
                    =~= spans_chars(outbefore) + (frag_chars(f) + seq![(' ', frag_style(f))]));
            } else {
                assert(rf =~= frag_chars(f));
            }
            assert(orig.take(k + 1) =~= orig.take(k).push(orig[k]));
            lemma_recon_frags_push(orig.take(k), orig[k]);
            assert(spans_chars(out@) == recon_frags(orig.take(k + 1)));
        }
    }
    if line.len() == 1 {
        let ghost k = orig.len() - 1;
        let f = line.remove(0);
        proof {
            assert(f == orig[k]);
            assert(frag_wf(f));
        }
        let ghost outbefore = out@;
        let Fragment { strings: mut fstr, add_whitespace: _, add_hyphen: fhy } = f;
        let ghost fspans = fstr@;
        out.append(&mut fstr);
        proof {
            lemma_spans_chars_concat(outbefore, fspans);
            assert(out@ == outbefore + fspans);
            assert(orig.take(k + 1) =~= orig.take(k).push(orig[k]));
            lemma_line_spans_push(orig.take(k), orig[k]);
            assert(line_spans(orig.take(k + 1)) == line_spans(orig.take(k)) + fspans);
            assert(orig.take(k + 1) =~= orig);
            assert forall|j: int|
                0 <= j < out@.len() implies span_extended(
                line_spans(orig)[j],
                #[trigger] out@[j],
            ) by {
                if j < outbefore.len() {
                    assert(out@[j] == outbefore[j]);
                } else {
                    assert(out@[j] == fspans[j - outbefore.len()]);
                    assert(line_spans(orig)[j] == fspans[j - outbefore.len()]);
                }
            }
            assert(fspans.len() >= 1);
            assert(out@.last() == fspans.last());
            assert(line_spans(orig)[out@.len() - 1] == out@.last());
            assert forall|j: int|
                0 <= j < out@.len() && !spec_is_fragment_final_span(orig, j) implies (
            #[trigger] out@[j]).s@ == line_spans(orig)[j].s@ by {
                if j < outbefore.len() {
                    assert(out@[j] == outbefore[j]);
                } else {
                    assert(out@[j] == fspans[j - outbefore.len()]);
                    assert(line_spans(orig)[j] == fspans[j - outbefore.len()]);
                }
            }
            lemma_fragment_final_span(orig, k, line_spans(orig.take(k + 1)).len() - 1);
            assert(spec_is_fragment_final_span(orig, out@.len() - 1));
        }
        if fhy {
            proof {
                assert(fspans.len() >= 1);
                assert(out@.last() == fspans.last());
                assert(out@.last().style == frag_style(f));
            }
            let ghost beforesep = out@;
            push_char_to_last(&mut out, '-');
            proof {
                assert forall|j: int|
                    0 <= j < out@.len() implies span_extended(
                    line_spans(orig)[j],
                    #[trigger] out@[j],
                ) by {
                    if j < out@.len() - 1 {
                        assert(out@[j] == out@.drop_last()[j]);
                        assert(beforesep.drop_last()[j] == beforesep[j]);
                    } else {
                        assert(line_spans(orig)[j] == beforesep.last());
                        assert(out@.last().s@ == beforesep.last().s@.push('-'));
                    }
                }
                assert forall|j: int|
                    0 <= j < out@.len() && !spec_is_fragment_final_span(orig, j) implies (
                #[trigger] out@[j]).s@ == line_spans(orig)[j].s@ by {
                    assert(j != out@.len() - 1);
                    assert(out@[j] == out@.drop_last()[j]);
                    assert(beforesep.drop_last()[j] == beforesep[j]);
                }
            }
        }
        proof {
            let er = frag_end_render(orig[k]);
            if fhy {
                assert(er == frag_chars(f) + seq![('-', frag_style(f))]);
                assert(spans_chars(outbefore) + frag_chars(f) + seq![('-', frag_style(f))]
                    =~= spans_chars(outbefore) + (frag_chars(f) + seq![('-', frag_style(f))]));
            } else {
                assert(er =~= frag_chars(f));
            }
            assert(orig.take(k) =~= orig.drop_last());
            assert(spans_chars(out@) == recon_frags(orig.drop_last()) + frag_end_render(
                orig.last(),
            ));
        }
    }
    proof {
        if orig.len() == 0 {
            assert(spans_chars(out@) =~= line_render(orig));
            assert(orig.map_values(|f: Fragment| f.strings@)
                =~= Seq::<Seq<StyledString>>::empty());
            assert(out@.len() == line_spans(orig).len());
        } else {
            assert(orig.take(orig.len() as int) =~= orig);
        }
    }
    out
}

/// A finalized line's text with its line-end separator undone: the
/// hyphen the line's last fragment inserted is removed, and the break
/// space that fragment's whitespace flag stood for is restored.
pub open spec fn rendered_restored(rendered: Seq<(char, Style)>, last: Fragment)
    -> Seq<(char, Style)> {
    (if last.add_hyphen {
        rendered.drop_last()
    } else {
        rendered
    }) + (if last.add_whitespace {
        seq![(' ', frag_style(last))]
    } else {
        Seq::<(char, Style)>::empty()
    })
}

/// Undoing the line-end separator of a rendered line recovers exactly
/// the text its fragments encode.
proof fn lemma_line_restored(l: Seq<Fragment>)
    requires
        l.len() >= 1,
        frag_wf(l.last()),
    ensures
        rendered_restored(line_render(l), l.last()) == recon_frags(l),
{
    let last = l.last();
    let dl = recon_frags(l.drop_last());
    lemma_recon_frags_drop_last(l);
    if last.add_hyphen {
        assert(!last.add_whitespace);
        assert(frag_end_render(last) == frag_chars(last) + seq![('-', frag_style(last))]);
        assert(line_render(l).drop_last() =~= dl + frag_chars(last));
        assert(recon_frag(last) =~= frag_chars(last));
        assert((dl + frag_chars(last)) + Seq::<(char, Style)>::empty()
            =~= dl + recon_frag(last));
    } else if last.add_whitespace {
        assert(frag_end_render(last) =~= frag_chars(last));
        assert(recon_frag(last) == frag_chars(last) + seq![(' ', frag_style(last))]);
        assert((dl + frag_chars(last)) + seq![(' ', frag_style(last))]
            =~= dl + (frag_chars(last) + seq![(' ', frag_style(last))]));
    } else {
        assert(frag_end_render(last) =~= frag_chars(last));
        assert(recon_frag(last) =~= frag_chars(last));
        assert((dl + frag_chars(last)) + Seq::<(char, Style)>::empty()
            =~= dl + recon_frag(last));
    }
}

/// Every fragment of every line of a partition of well-formed fragments
/// is well-formed.
proof fn lemma_lines_wf(lines: Seq<Vec<Fragment>>, frags: Seq<Fragment>)
    requires
        lines_frags(lines) == frags,
        forall|i: int| 0 <= i < frags.len() ==> frag_wf(#[trigger] frags[i]),
    ensures
        forall|k: int, j: int|
            #![trigger lines[k]@[j]]
            0 <= k < lines.len() && 0 <= j < lines[k]@.len() ==> frag_wf(lines[k]@[j]),
    decreases lines.len(),
{
    if lines.len() > 0 {
        let g = |x: Vec<Fragment>| x@;
        let dl = lines.drop_last();
        let lastl = lines.last()@;
        assert(lines.map_values(g).drop_last() =~= dl.map_values(g));
        assert(lines.map_values(g).last() == lastl);
        let a = lines_frags(dl);
        assert(a + lastl == frags);
        assert(a =~= frags.take(a.len() as int));
        assert(forall|i: int| 0 <= i < a.len() ==> frag_wf(#[trigger] a[i])) by {
            assert(forall|i: int|
                0 <= i < a.len() ==> a[i] == frags.take(a.len() as int)[i]
                    && frags.take(a.len() as int)[i] == #[trigger] frags[i]);
        }
        lemma_lines_wf(dl, a);
        assert forall|j: int| 0 <= j < lastl.len() implies frag_wf(lastl[j]) by {
            assert(frags[a.len() + j] == (a + lastl)[a.len() + j]);
            assert((a + lastl)[a.len() + j] == lastl[j]);
        }
        assert forall|k: int, j: int|
            #![trigger lines[k]@[j]]
            0 <= k < lines.len() && 0 <= j < lines[k]@.len() implies frag_wf(lines[k]@[j]) by {
            if k < lines.len() - 1 {
                assert(dl[k] == lines[k]);
            } else {
                assert(lines[k]@ == lastl);
            }
        }
    }
}

proof fn lemma_restored_lines(lines: Seq<Vec<Fragment>>)
    requires
        forall|k: int| 0 <= k < lines.len() ==> (#[trigger] lines[k])@.len() >= 1,
        forall|k: int, j: int|
            #![trigger lines[k]@[j]]
            0 <= k < lines.len() && 0 <= j < lines[k]@.len() ==> frag_wf(lines[k]@[j]),
    ensures
        concat_elems(
            lines.map_values(|l: Vec<Fragment>| rendered_restored(line_render(l@), l@.last())),
        ) == recon_frags(lines_frags(lines)),
    decreases lines.len(),
{
    let h = |l: Vec<Fragment>| rendered_restored(line_render(l@), l@.last());
    let g = |x: Vec<Fragment>| x@;
    if lines.len() == 0 {
        assert(lines.map_values(h) =~= Seq::<Seq<(char, Style)>>::empty());
        assert(lines.map_values(g) =~= Seq::<Seq<Fragment>>::empty());
        assert(recon_frags(lines_frags(lines)).len() == 0);
        assert(concat_elems(lines.map_values(h)) =~= recon_frags(lines_frags(lines)));
    } else {
        let dl = lines.drop_last();
        let lastl = lines.last();
        assert(forall|k: int| 0 <= k < dl.len() ==> dl[k] == #[trigger] lines[k]);
        lemma_restored_lines(dl);
        assert(lines.map_values(h).drop_last() =~= dl.map_values(h));
        assert(lines.map_values(h).last() == h(lastl));
        assert(lastl@.last() == lastl@[lastl@.len() - 1]);
        assert(frag_wf(lastl@.last())) by {
            assert(lines[lines.len() - 1]@ == lastl@);
        }
        lemma_line_restored(lastl@);
        assert(lines.map_values(g).drop_last() =~= dl.map_values(g));
        assert(lines.map_values(g).last() == lastl@);
        lemma_recon_frags_concat(lines_frags(dl), lastl@);
        assert(lines_frags(lines) == lines_frags(dl) + lastl@);
        assert(concat_elems(lines.map_values(h)) == concat_elems(dl.map_values(h)) + h(lastl));
    }
}

/// Round-trip law: fragment styled runs, break the fragments into lines
/// any way that covers them in order, and read every rendered line back
/// with its line-end separator undone (an inserted hyphen removed, an
/// elided break space restored): the result is exactly the styled text
/// of the input runs. Fragmentation, breaking and finalization neither
/// lose nor duplicate characters.
pub proof fn lemma_round_trip(
    runs: Seq<StyledString>,
    frags: Seq<Fragment>,
    lines: Seq<Vec<Fragment>>,
)
    requires
        recon_frags(frags) == spans_chars(runs),
        lines_frags(lines) == frags,
        forall|k: int| 0 <= k < lines.len() ==> (#[trigger] lines[k])@.len() >= 1,
        forall|i: int| 0 <= i < frags.len() ==> frag_wf(#[trigger] frags[i]),
    ensures
        concat_elems(
            lines.map_values(|l: Vec<Fragment>| rendered_restored(line_render(l@), l@.last())),
        ) == spans_chars(runs),
{
    lemma_lines_wf(lines, frags);
    lemma_restored_lines(lines);
}

} // verus!

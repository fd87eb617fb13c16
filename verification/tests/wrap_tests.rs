use pagelayout::Mm;
use pagelayout::context::Context;
use pagelayout::style::{FontMetrics, Style, StyledString};
use pagelayout::wrap::{finalize, prepare, split, split_at_breaks, wrap, Fragment};

fn chars(s: &str) -> Vec<char> {
    s.chars().collect()
}

fn mono_metrics() -> FontMetrics {
    FontMetrics::new(1000, Vec::new())
}

fn frag_text(f: &Fragment) -> String {
    let mut t = String::new();
    for span in &f.strings {
        for c in &span.s {
            t.push(*c);
        }
    }
    t
}

fn spans_text(spans: &[StyledString]) -> String {
    let mut t = String::new();
    for span in spans {
        for c in &span.s {
            t.push(*c);
        }
    }
    t
}

#[test]
fn prepare_splits_words_and_sets_flags() {
    let ctx = Context::new(mono_metrics(), None);
    let runs = vec![StyledString::new(chars("The quick brown fox"), Style::new(7))];
    let frags = prepare(&ctx, &runs);
    assert_eq!(frags.len(), 4);
    assert_eq!(frag_text(&frags[0]), "The");
    assert_eq!(frag_text(&frags[1]), "quick");
    assert_eq!(frag_text(&frags[2]), "brown");
    assert_eq!(frag_text(&frags[3]), "fox");
    assert!(frags[0].add_whitespace && !frags[0].add_hyphen);
    assert!(frags[1].add_whitespace && !frags[1].add_hyphen);
    assert!(frags[2].add_whitespace && !frags[2].add_hyphen);
    assert!(!frags[3].add_whitespace && !frags[3].add_hyphen);
}

#[test]
fn prepare_merges_fragments_across_runs() {
    let ctx = Context::new(mono_metrics(), None);
    // "bc" ends run one mid-word; run two continues the word.
    let runs = vec![
        StyledString::new(chars("a bc"), Style::new(1)),
        StyledString::new(chars("d e"), Style::new(2)),
    ];
    let frags = prepare(&ctx, &runs);
    // "bc" and "d" merge: neither flag was set on "bc".
    assert_eq!(frags.len(), 3);
    assert_eq!(frag_text(&frags[0]), "a");
    assert_eq!(frag_text(&frags[1]), "bcd");
    assert_eq!(frag_text(&frags[2]), "e");
    // the merged fragment keeps both styles' spans
    assert_eq!(frags[1].strings.len(), 2);
    assert_eq!(frags[1].strings[0].style, Style::new(1));
    assert_eq!(frags[1].strings[1].style, Style::new(2));
}

#[test]
fn scenario_two_lines_with_space_kept_on_fragment() {
    let metrics = mono_metrics();
    let ctx = Context::new(mono_metrics(), None);
    let runs = vec![StyledString::new(chars("The quick brown fox"), Style::new(7))];
    let frags = prepare(&ctx, &runs);
    // target width: just past the width of "The quick" (9 glyphs).
    let lines = wrap(frags, Mm::new(9500), &metrics);
    assert_eq!(lines.len(), 2);
    assert_eq!(lines[0].len(), 2);
    assert_eq!(lines[1].len(), 2);
    // the whitespace flag stays with "quick", not duplicated onto "brown"
    assert!(lines[0][1].add_whitespace);
    assert!(!lines[0][1].add_hyphen);
    let mut texts = Vec::new();
    for line in lines {
        texts.push(spans_text(&finalize(line)));
    }
    // no hyphen inserted, the break space is elided at the line end and
    // not duplicated at the start of the next line
    assert_eq!(texts, vec!["The quick".to_string(), "brown fox".to_string()]);
}

#[test]
fn round_trip_restores_original_text() {
    let metrics = mono_metrics();
    let ctx = Context::new(mono_metrics(), None);
    let original = "The quick brown fox jumps over the lazy dog";
    let runs = vec![StyledString::new(chars(original), Style::new(1))];
    let frags = prepare(&ctx, &runs);
    let lines = wrap(frags, Mm::new(10500), &metrics);
    let mut restored = String::new();
    for line in lines {
        let last = line.last().unwrap();
        let last_ws = last.add_whitespace;
        let last_hy = last.add_hyphen;
        let mut text = spans_text(&finalize(line));
        if last_hy {
            assert_eq!(text.pop(), Some('-'));
        }
        restored.push_str(&text);
        if last_ws {
            restored.push(' ');
        }
    }
    assert_eq!(restored, original);
}

#[test]
fn round_trip_keeps_double_spaces_and_styles() {
    let metrics = mono_metrics();
    let ctx = Context::new(mono_metrics(), None);
    let runs = vec![
        StyledString::new(chars("a  b "), Style::new(1)),
        StyledString::new(chars("c"), Style::new(2)),
    ];
    let frags = prepare(&ctx, &runs);
    let lines = wrap(frags, Mm::new(1000000), &metrics);
    assert_eq!(lines.len(), 1);
    let mut restored = String::new();
    for line in lines {
        let last_ws = line.last().unwrap().add_whitespace;
        restored.push_str(&spans_text(&finalize(line)));
        if last_ws {
            restored.push(' ');
        }
    }
    assert_eq!(restored, "a  b c");
}

#[test]
fn width_bound_holds_and_overwide_fragment_stands_alone() {
    let metrics = mono_metrics();
    let ctx = Context::new(mono_metrics(), None);
    let runs = vec![StyledString::new(chars("a extraordinarily b"), Style::new(1))];
    let frags = prepare(&ctx, &runs);
    let target: u64 = 5000;
    let lines = wrap(frags, Mm::new(target as i64), &metrics);
    assert_eq!(lines.len(), 3);
    for line in &lines {
        assert!(!line.is_empty());
        // committed width: all fragments, interior whitespace only
        let mut committed: u64 = 0;
        for (i, f) in line.iter().enumerate() {
            committed += f.width(&metrics);
            if i + 1 < line.len() {
                committed += f.whitespace_width(&metrics);
            }
        }
        assert!(committed <= target || line.len() == 1);
    }
    assert_eq!(lines[1].len(), 1);
    assert_eq!(frag_text(&lines[1][0]), "extraordinarily");
    assert!(lines[1][0].width(&metrics) > target);
}

#[test]
fn fragment_atomicity_every_fragment_whole_in_one_line() {
    let metrics = mono_metrics();
    let ctx = Context::new(mono_metrics(), None);
    let runs = vec![StyledString::new(
        chars("one two three four five six seven"),
        Style::new(1),
    )];
    let frags = prepare(&ctx, &runs);
    let expected: Vec<String> = frags.iter().map(frag_text).collect();
    let lines = wrap(frags, Mm::new(9000), &metrics);
    let mut seen = Vec::new();
    for line in &lines {
        for f in line {
            seen.push(frag_text(f));
        }
    }
    assert_eq!(seen, expected);
}

#[test]
fn split_without_dictionary_returns_word_unsplit() {
    let ctx = Context::new(mono_metrics(), None);
    let segs = split(&ctx, &chars("hyphenation"));
    assert_eq!(segs.len(), 1);
    let text: String = segs[0].iter().collect();
    assert_eq!(text, "hyphenation");
}

#[test]
fn empty_input_gives_no_lines() {
    let metrics = mono_metrics();
    let lines = wrap(Vec::new(), Mm::new(10000), &metrics);
    assert!(lines.is_empty());
}

#[test]
fn get_width_clamps_negative_lengths() {
    assert_eq!(pagelayout::get_width(Mm::new(9500)), 9500);
    assert_eq!(pagelayout::get_width(Mm::new(0)), 0);
    assert_eq!(pagelayout::get_width(Mm::new(-42)), 0);
}

#[test]
fn fragment_widths_use_the_metric_table() {
    // 'i' narrow, 'm' wide, everything else 1000
    let metrics = FontMetrics::new(1000, vec![(1, 'i', 300), (1, 'm', 1700)]);
    let ctx = Context::new(metrics, None);
    let metrics = FontMetrics::new(1000, vec![(1, 'i', 300), (1, 'm', 1700)]);
    let runs = vec![StyledString::new(chars("mix"), Style::new(1))];
    let frags = prepare(&ctx, &runs);
    assert_eq!(frags.len(), 1);
    assert_eq!(frags[0].width(&metrics), 1700 + 300 + 1000);
    // a different style does not match the table entries
    let other = vec![StyledString::new(chars("mix"), Style::new(2))];
    let frags2 = prepare(&ctx, &other);
    assert_eq!(frags2[0].width(&metrics), 3000);
}

#[test]
fn finalize_preserves_span_boundaries_and_styles() {
    let metrics = mono_metrics();
    let ctx = Context::new(mono_metrics(), None);
    // "bc" + "d" merge into one fragment of two spans with two styles
    let runs = vec![
        StyledString::new(chars("a bc"), Style::new(1)),
        StyledString::new(chars("d e"), Style::new(2)),
    ];
    let frags = prepare(&ctx, &runs);
    let total_spans: usize = frags.iter().map(|f| f.strings.len()).sum();
    assert_eq!(total_spans, 4);
    let lines = wrap(frags, Mm::new(1000000), &metrics);
    assert_eq!(lines.len(), 1);
    let spans = finalize(lines.into_iter().next().unwrap());
    // one output span per input span; separators extend a span, never
    // add or merge spans, and take the style of the text they follow
    assert_eq!(spans.len(), 4);
    let texts: Vec<String> = spans.iter().map(|sp| sp.s.iter().collect()).collect();
    assert_eq!(texts, vec!["a ", "bc", "d ", "e"]);
    assert_eq!(spans[0].style, Style::new(1));
    assert_eq!(spans[1].style, Style::new(1));
    assert_eq!(spans[2].style, Style::new(2));
    assert_eq!(spans[3].style, Style::new(2));
}

#[test]
fn split_at_breaks_splits_at_interior_character_boundaries() {
    // "c\u{e9}d": 'c' is one byte, '\u{e9}' two, 'd' one; interior
    // boundaries sit at byte offsets 1 and 3
    let word: Vec<char> = "c\u{e9}d".chars().collect();
    let segs = split_at_breaks(&word, &vec![3]);
    let texts: Vec<String> = segs.iter().map(|s| s.iter().collect()).collect();
    assert_eq!(texts, vec!["c\u{e9}".to_string(), "d".to_string()]);
}

#[test]
fn split_at_breaks_ignores_invalid_offsets() {
    let word: Vec<char> = "c\u{e9}d".chars().collect();
    // 2 falls inside the two-byte character, 0 and 4 are not interior,
    // 9 is out of range; only 1 splits
    let segs = split_at_breaks(&word, &vec![2, 1, 0, 4, 9]);
    let texts: Vec<String> = segs.iter().map(|s| s.iter().collect()).collect();
    assert_eq!(texts, vec!["c".to_string(), "\u{e9}d".to_string()]);
}

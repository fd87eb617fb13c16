use hyphenation::{Language, Load, Standard};
use pagelayout::Mm;
use pagelayout::context::Context;
use pagelayout::style::{FontMetrics, Style, StyledString};
use pagelayout::wrap::{finalize, prepare, split, wrap};

fn chars(s: &str) -> Vec<char> {
    s.chars().collect()
}

fn mono_metrics() -> FontMetrics {
    FontMetrics::new(1000, Vec::new())
}

fn english_context() -> Context {
    let dict = Standard::from_embedded(Language::EnglishUS).expect("embedded dictionary");
    Context::new(mono_metrics(), Some(dict))
}

#[test]
fn split_with_dictionary_breaks_the_word() {
    let ctx = english_context();
    let segs = split(&ctx, &chars("hyphenation"));
    // the dictionary finds real break points: more than one segment,
    // concatenating back to exactly the word
    assert!(segs.len() >= 2);
    let mut joined = String::new();
    for seg in &segs {
        assert!(!seg.is_empty());
        joined.extend(seg.iter());
    }
    assert_eq!(joined, "hyphenation");
}

#[test]
fn prepare_marks_hyphen_opportunities() {
    let ctx = english_context();
    let segs = split(&ctx, &chars("hyphenation"));
    let runs = vec![StyledString::new(chars("hyphenation"), Style::new(1))];
    let frags = prepare(&ctx, &runs);
    assert_eq!(frags.len(), segs.len());
    for (i, f) in frags.iter().enumerate() {
        if i + 1 < frags.len() {
            assert!(f.add_hyphen && !f.add_whitespace);
        } else {
            assert!(!f.add_hyphen && !f.add_whitespace);
        }
    }
}

#[test]
fn narrow_wrap_ends_line_with_hyphen() {
    let ctx = english_context();
    let metrics = mono_metrics();
    let segs = split(&ctx, &chars("hyphenation"));
    assert!(segs.len() >= 2);
    let first_len = segs[0].len() as i64;
    let runs = vec![StyledString::new(chars("hyphenation"), Style::new(1))];
    let frags = prepare(&ctx, &runs);
    // room for the first segment and its hyphen, nothing more
    let lines = wrap(frags, Mm::new((first_len + 1) * 1000), &metrics);
    assert!(lines.len() >= 2);
    let first_line = lines.into_iter().next().unwrap();
    assert_eq!(first_line.len(), 1);
    let spans = finalize(first_line);
    let mut text = String::new();
    for span in &spans {
        text.extend(span.s.iter());
    }
    let expected: String = segs[0].iter().collect::<String>() + "-";
    assert_eq!(text, expected);
}

#[test]
fn engine_works_with_capability_absent() {
    // the same input, one context with and one without the dictionary
    let ctx_plain = Context::new(mono_metrics(), None);
    let runs = vec![StyledString::new(chars("hyphenation works"), Style::new(1))];
    let frags = prepare(&ctx_plain, &runs);
    assert_eq!(frags.len(), 2);
    assert!(!frags[0].add_hyphen);
}

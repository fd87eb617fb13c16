use pagelayout::Mm;
use pagelayout::style::{FontMetrics, Style, StyledString};
use pagelayout::wrap::{wrap, Fragment};

// A reference fragment for textwrap's first-fit breaker, measured in the
// same units as the library's fragments.
#[derive(Debug)]
struct RefFragment {
    width: usize,
    whitespace: usize,
    penalty: usize,
}

impl textwrap::core::Fragment for RefFragment {
    fn width(&self) -> usize {
        self.width
    }

    fn whitespace_width(&self) -> usize {
        self.whitespace
    }

    fn penalty_width(&self) -> usize {
        self.penalty
    }
}

fn library_fragment(len: usize, ws: bool, hy: bool) -> Fragment {
    let text: Vec<char> = std::iter::repeat('x').take(len).collect();
    Fragment {
        strings: vec![StyledString::new(text, Style::new(1))],
        add_whitespace: ws,
        add_hyphen: hy,
    }
}

fn compare(words: &[(usize, bool, bool)], target: u64) {
    let metrics = FontMetrics::new(1000, Vec::new());
    let frags: Vec<Fragment> =
        words.iter().map(|&(l, ws, hy)| library_fragment(l, ws, hy)).collect();
    let refs: Vec<RefFragment> = words
        .iter()
        .map(|&(l, ws, hy)| RefFragment {
            width: l * 1000,
            whitespace: if ws { 1000 } else { 0 },
            penalty: if hy { 1000 } else { 0 },
        })
        .collect();
    let ours = wrap(frags, Mm::new(target as i64), &metrics);
    let theirs = textwrap::core::wrap_first_fit(&refs, |_| target as usize);
    let our_shape: Vec<usize> = ours.iter().map(|l| l.len()).collect();
    let their_shape: Vec<usize> = theirs.iter().map(|l| l.len()).collect();
    assert_eq!(our_shape, their_shape, "break points differ at width {}", target);
}

#[test]
fn breaks_match_the_reference_first_fit() {
    let words = [
        (3, true, false),
        (5, true, false),
        (5, true, false),
        (3, false, false),
    ];
    for target in [1000u64, 4000, 9000, 9500, 10000, 15000, 20000] {
        compare(&words, target);
    }
}

#[test]
fn breaks_match_with_hyphen_penalties() {
    let words = [
        (2, false, true),
        (4, false, true),
        (5, true, false),
        (7, false, true),
        (3, false, false),
    ];
    for target in [2000u64, 3000, 5000, 7000, 8000, 12000, 25000] {
        compare(&words, target);
    }
}

#[test]
fn breaks_match_with_overwide_fragments() {
    let words = [
        (1, true, false),
        (15, true, false),
        (2, true, false),
        (15, false, false),
    ];
    for target in [1000u64, 5000, 16000, 18000, 40000] {
        compare(&words, target);
    }
}

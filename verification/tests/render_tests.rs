use loss::finder::{HighlightOption, SlotColor};
use loss::render::{ranges_have_overlap, LineWithRenderScheme, RenderScheme, StyledRange};

fn dim(start: usize, end: usize) -> StyledRange {
    StyledRange {
        start,
        end,
        scheme: RenderScheme::Dim,
    }
}

fn line(content: &str, ranges: &[(usize, usize)]) -> LineWithRenderScheme {
    let mut line = LineWithRenderScheme::new(content.as_bytes());
    for (start, end) in ranges {
        line.add_scheme_if_not_overlap(*start..*end, RenderScheme::Dim);
    }
    line
}

fn view(line: &LineWithRenderScheme) -> (Vec<u8>, Vec<StyledRange>) {
    (line.raw_content().to_vec(), line.schemes().to_vec())
}

#[test]
fn ranges_overlap_where_each_starts_before_the_other_ends() {
    assert!(ranges_have_overlap(0..5, 4..6));
    assert!(ranges_have_overlap(4..6, 0..5));
    assert!(ranges_have_overlap(2..3, 0..9));
    assert!(!ranges_have_overlap(0..5, 5..6));
    assert!(!ranges_have_overlap(5..6, 0..5));
    assert!(!ranges_have_overlap(5..5, 5..9));
    assert!(ranges_have_overlap(5..5, 3..8));
}

#[test]
fn a_range_that_overlaps_is_not_added() {
    let mut line = LineWithRenderScheme::new(b"0123456789");
    line.add_scheme_if_not_overlap(2..5, RenderScheme::Dim);
    line.add_scheme_if_not_overlap(4..6, RenderScheme::Dim);
    line.add_scheme_if_not_overlap(5..7, RenderScheme::Dim);
    line.add_scheme_if_not_overlap(0..3, RenderScheme::Dim);
    line.add_scheme_if_not_overlap(0..2, RenderScheme::Dim);
    line.add_scheme_if_not_overlap(1..9, RenderScheme::Dim);
    assert_eq!(line.schemes().to_vec(), vec![dim(2, 5), dim(5, 7), dim(0, 2)]);
    assert_eq!(line.raw_content(), b"0123456789");
    line.set_raw_content(b"other");
    assert_eq!(line.raw_content(), b"other");
    assert_eq!(line.schemes().len(), 3);
    line.clear();
    assert_eq!(view(&line), (Vec::new(), Vec::new()));
    assert_eq!(view(&LineWithRenderScheme::default()), (Vec::new(), Vec::new()));
    assert_eq!(view(&LineWithRenderScheme::empty()), (Vec::new(), Vec::new()));
}

#[test]
fn substr_cuts_content_and_ranges() {
    let whole = line("0123456789", &[(1, 3), (4, 8), (9, 10)]);
    assert_eq!(
        view(&whole.substr(2..6)),
        (b"2345".to_vec(), vec![dim(0, 1), dim(2, 4)])
    );
    assert_eq!(
        view(&whole.substr(0..100)),
        (b"0123456789".to_vec(), vec![dim(1, 3), dim(4, 8), dim(9, 10)])
    );
    assert_eq!(view(&whole.substr(8..9)), (b"8".to_vec(), vec![]));
    assert_eq!(view(&whole.substr(3..4)), (b"3".to_vec(), vec![]));
    assert_eq!(view(&whole.substr(10..20)), (Vec::new(), vec![]));
    assert_eq!(view(&whole.substr(30..40)), (Vec::new(), vec![]));
    assert_eq!(view(&whole.substr(5..5)), (Vec::new(), vec![]));
    assert_eq!(view(&whole.substr(7..12)), (b"789".to_vec(), vec![dim(0, 1), dim(2, 3)]));
}

#[test]
fn truncate_keeps_the_part_of_a_range_before_the_cut() {
    let whole = line("0123456789", &[(1, 3), (4, 8), (9, 10)]);
    assert_eq!(
        view(&whole.clone().truncate(6)),
        (b"012345".to_vec(), vec![dim(1, 3), dim(4, 6)])
    );
    assert_eq!(view(&whole.clone().truncate(4)), (b"0123".to_vec(), vec![dim(1, 3)]));
    assert_eq!(view(&whole.clone().truncate(0)), (Vec::new(), vec![]));
    assert_eq!(
        view(&whole.clone().truncate(50)),
        (b"0123456789".to_vec(), vec![dim(1, 3), dim(4, 8), dim(9, 10)])
    );
}

#[test]
fn substr_of_substr_is_one_substr() {
    let whole = line("0123456789abcdefghij", &[(1, 3), (4, 8), (9, 10), (12, 19)]);
    for a_start in 0..22 {
        for a_len in 0..12 {
            for b_start in 0..8 {
                for b_len in 0..8 {
                    let b_end = b_start + b_len;
                    if b_end > a_len {
                        continue;
                    }
                    let twice = whole.substr(a_start..a_start + a_len).substr(b_start..b_end);
                    let once = whole.substr(a_start + b_start..a_start + b_end);
                    assert_eq!(view(&twice), view(&once));
                }
            }
        }
    }
    // where the second cut reaches beyond the first the two differ
    assert_eq!(whole.substr(0..5).substr(0..10).raw_content(), b"01234");
    assert_eq!(whole.substr(0..10).raw_content(), b"0123456789");
}

#[test]
fn compose_puts_pieces_in_the_order_of_the_ranges() {
    let whole = line("0123456789", &[(4, 8), (1, 3), (9, 10)]);
    let pieces = vec![b"<4567>".to_vec(), b"<12>".to_vec(), b"<9>".to_vec()];
    assert_eq!(whole.compose(&pieces), b"0<12>3<4567>8<9>".to_vec());
    assert_eq!(whole.first_scheme_from(0, 0), Some(1));
    assert_eq!(whole.first_scheme_from(1, 0), Some(1));
    assert_eq!(whole.first_scheme_from(1, 2), Some(0));
    assert_eq!(whole.first_scheme_from(2, 0), Some(0));
    assert_eq!(whole.first_scheme_from(5, 0), Some(2));
    assert_eq!(whole.first_scheme_from(10, 0), None);
    let plain = line("plain", &[]);
    assert_eq!(plain.compose(&Vec::new()), b"plain".to_vec());
    assert_eq!(plain.render(), b"plain".to_vec());
    assert_eq!(LineWithRenderScheme::empty().render(), Vec::<u8>::new());
}

fn rendered(content: &[u8], start: usize, end: usize, scheme: RenderScheme) -> String {
    let mut line = LineWithRenderScheme::new(content);
    line.add_scheme_if_not_overlap(start..end, scheme);
    String::from_utf8(line.render()).unwrap()
}

#[test]
fn render_wraps_ranges_in_escape_sequences() {
    let option = HighlightOption::new(SlotColor::Black, SlotColor::Yellow);
    let styled = option.render(b"word");
    let text = String::from_utf8(styled.clone()).unwrap();
    assert_ne!(styled, b"word".to_vec());
    assert!(text.contains("word"));
    assert!(text.starts_with('\u{1b}'));
    let dimmed = rendered(b"word", 0, 4, RenderScheme::Dim);
    assert_ne!(dimmed, "word");
    assert!(dimmed.contains("word"));
    assert!(dimmed.starts_with('\u{1b}'));
    assert_ne!(dimmed, text);
    assert_eq!(rendered(b"word", 0, 4, RenderScheme::Highlight(option)), text);
    let other = HighlightOption::new(SlotColor::Magenta, SlotColor::Default).render(b"word");
    assert_ne!(other, styled);

    let mut line = LineWithRenderScheme::new(b"a word here");
    line.add_scheme_if_not_overlap(7..11, RenderScheme::Dim);
    line.add_scheme_if_not_overlap(2..6, RenderScheme::Highlight(option));
    let mut expected = b"a ".to_vec();
    expected.extend_from_slice(&option.render(b"word"));
    expected.extend_from_slice(b" ");
    expected.extend_from_slice(rendered(b"here", 0, 4, RenderScheme::Dim).as_bytes());
    assert_eq!(line.render(), expected);
}

#[test]
fn ranges_without_bytes_are_rendered_where_they_stand() {
    // two ranges without bytes at 2, then the range with bytes that starts there
    let whole = line("abcdef", &[(2, 2), (4, 6), (2, 2), (2, 4), (0, 0)]);
    assert_eq!(whole.schemes().len(), 5);
    let pieces = vec![
        b"<>".to_vec(),
        b"<ef>".to_vec(),
        b"[]".to_vec(),
        b"<cd>".to_vec(),
        b"()".to_vec(),
    ];
    assert_eq!(whole.compose(&pieces), b"()ab<>[]<cd><ef>".to_vec());
    assert_eq!(whole.first_scheme_from(0, 0), Some(4));
    assert_eq!(whole.first_scheme_from(0, 5), Some(0));
    assert_eq!(whole.first_scheme_from(2, 1), Some(2));
    assert_eq!(whole.first_scheme_from(2, 3), Some(3));
    assert_eq!(whole.first_scheme_from(4, 0), Some(1));
    // a range without bytes inside a range with bytes overlaps it
    let mut inner = line("abcdef", &[(1, 4)]);
    inner.add_scheme_if_not_overlap(2..2, RenderScheme::Dim);
    assert_eq!(inner.schemes(), &[dim(1, 4)]);
    // rendering keeps every byte of the line, in order
    let empty_range = line("abc", &[(1, 1)]);
    let rendered = empty_range.render();
    assert_eq!(&rendered[..1], b"a");
    assert_eq!(&rendered[rendered.len() - 2..], b"bc");
    let at_end = line("abc", &[(3, 3)]);
    assert_eq!(&at_end.render()[..3], b"abc");
}

use cube_games::strip_newline;
use cube_games::InfiniteLinesReader;
use cube_games::PagedIterator;

fn lines_of(raw: &[&str]) -> Vec<String> {
    let mut v: Vec<String> = Vec::new();
    for s in raw {
        v.push((*s).to_string());
    }
    v
}

#[test]
fn strip_newline_drops_terminators() {
    assert_eq!(strip_newline("abc\n"), "abc");
    assert_eq!(strip_newline("abc"), "abc");
    assert_eq!(strip_newline("abc\n\n"), "abc");
    assert_eq!(strip_newline("\n"), "");
    assert_eq!(strip_newline(""), "");
    assert_eq!(strip_newline("a\nb\n"), "a\nb");
}

#[test]
fn reader_length_counts_lines() {
    let reader = InfiniteLinesReader::from_lines(lines_of(&["a", "b", "c"]));
    assert_eq!(reader.length(), 3);
    let empty = InfiniteLinesReader::from_lines(Vec::new());
    assert_eq!(empty.length(), 0);
}

#[test]
fn iter_walks_lines_once_in_order() {
    let reader = InfiniteLinesReader::from_lines(lines_of(&["a", "b"]));
    let mut it = reader.iter();
    assert_eq!(it.next().map(String::as_str), Some("a"));
    assert_eq!(it.next().map(String::as_str), Some("b"));
    assert!(it.next().is_none());
    assert!(it.next().is_none());
}

#[test]
fn iter_is_restartable() {
    let reader = InfiniteLinesReader::from_lines(lines_of(&["a", "b"]));
    let mut first = reader.iter();
    assert_eq!(first.next().map(String::as_str), Some("a"));
    let mut second = reader.iter();
    assert_eq!(second.next().map(String::as_str), Some("a"));
}

#[test]
fn cycle_repeats_lines_indefinitely() {
    let reader = InfiniteLinesReader::from_lines(lines_of(&["a", "b"]));
    let mut cy = reader.cycle();
    let mut seen: Vec<String> = Vec::new();
    for _ in 0..6 {
        seen.push(cy.next().unwrap().clone());
    }
    assert_eq!(seen, vec!["a", "b", "a", "b", "a", "b"]);
}

#[test]
fn cycle_over_no_lines_is_empty() {
    let reader = InfiniteLinesReader::from_lines(Vec::new());
    let mut cy = reader.cycle();
    assert!(cy.next().is_none());
    assert!(cy.next().is_none());
}

#[test]
fn pager_labels_pages_and_lines() {
    let reader = InfiniteLinesReader::from_lines(lines_of(&["a", "b", "c", "d", "e"]));
    let mut pager = PagedIterator::init(reader.iter(), 2);
    let mut labels: Vec<(usize, usize, String)> = Vec::new();
    while let Some((p, n, s)) = pager.next() {
        labels.push((p, n, s.clone()));
    }
    assert_eq!(
        labels,
        vec![
            (1, 1, "a".to_string()),
            (1, 2, "b".to_string()),
            (2, 1, "c".to_string()),
            (2, 2, "d".to_string()),
            (3, 1, "e".to_string()),
        ]
    );
}

#[test]
fn pager_with_zero_page_length_opens_a_page_per_item() {
    let reader = InfiniteLinesReader::from_lines(lines_of(&["a", "b"]));
    let mut pager = PagedIterator::init(reader.iter(), 0);
    assert_eq!(pager.next().map(|(p, n, _)| (p, n)), Some((2, 1)));
    assert_eq!(pager.next().map(|(p, n, _)| (p, n)), Some((3, 1)));
    assert!(pager.next().is_none());
}

#[test]
fn pager_page_length_covering_all_lines_stays_on_page_one() {
    let reader = InfiniteLinesReader::from_lines(lines_of(&["a", "b", "c"]));
    let mut pager = PagedIterator::init(reader.iter(), 3);
    assert_eq!(pager.next().map(|(p, n, _)| (p, n)), Some((1, 1)));
    assert_eq!(pager.next().map(|(p, n, _)| (p, n)), Some((1, 2)));
    assert_eq!(pager.next().map(|(p, n, _)| (p, n)), Some((1, 3)));
    assert!(pager.next().is_none());
}

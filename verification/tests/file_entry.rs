use igrep::file_entry::separator as dashes;
use igrep::file_entry::EntryType as Entry;
use igrep::file_entry::FileEntry as Rows;
use igrep::file_entry::SEPARATOR_WIDTH;
use igrep::grep_match::GrepMatch as Line;

#[test]
fn the_separator_is_one_hundred_dashes() {
    assert_eq!(SEPARATOR_WIDTH, 100);
    assert_eq!(dashes().len(), 100);
    assert!(dashes().chars().all(|c| c == '-'));
}

#[test]
fn a_line_keeps_its_parts() {
    let line = Line::new(7, "text".to_owned(), Some(vec![(1, 2)]));
    assert_eq!(line.line_number, 7);
    assert_eq!(line.text, "text");
    assert_eq!(line.match_offsets, Some(vec![(1, 2)]));
    let line = Line::new(u64::MAX, String::new(), None);
    assert_eq!(line.line_number, u64::MAX);
    assert_eq!(line.text, "");
    assert_eq!(line.match_offsets, None);
}

#[test]
fn a_file_without_lines_is_its_header() {
    let rows = Rows::new("a".to_owned(), vec![]);
    assert_eq!(rows.len(), 1);
    assert_eq!(rows.get_matches_count(), 0);
    assert!(!rows.is_file_block());
    let entries = rows.get_entries();
    assert!(matches!(&entries[0], Entry::Header(name) if name == "a"));
}

#[test]
fn only_the_exact_separator_becomes_a_header() {
    let rows = Rows::new(
        "a".to_owned(),
        vec![
            Line::new(1, "-".repeat(99), None),
            Line::new(2, "-".repeat(100), Some(vec![(0, 1)])),
            Line::new(3, "-".repeat(101), None),
            Line::new(4, "----".to_owned(), Some(vec![])),
            Line::new(5, format!("{} ", "-".repeat(100)), None),
        ],
    );
    assert_eq!(rows.get_matches_count(), 1);
    let entries = rows.get_entries();
    assert_eq!(entries.len(), 6);
    assert!(matches!(&entries[1], Entry::Match(1, _, None)));
    assert!(matches!(&entries[2], Entry::Header(name) if *name == dashes()));
    assert!(matches!(&entries[3], Entry::Match(3, _, None)));
    assert!(matches!(&entries[4], Entry::Match(4, text, Some(_)) if text == "----"));
    assert!(matches!(&entries[5], Entry::Match(5, _, None)));
}

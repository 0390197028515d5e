use igrep::file_entry::separator as separator_text;
use igrep::file_entry::EntryType as Row;
use igrep::ig::sink::MatchesSink;
use igrep::ig::sink::SinkError;

#[test]
fn reported_lines_are_kept_in_order() {
    let mut sink = MatchesSink::new();
    assert_eq!(sink.context(Some(3), b"before\n"), Ok(true));
    assert_eq!(sink.matched(Some(4), "a needle\n".as_bytes(), vec![(2, 8)]), Ok(true));
    assert_eq!(sink.context_break(), Ok(true));
    assert_eq!(sink.matched(Some(40), "传输速度".as_bytes(), vec![(0, 6), (6, 12)]), Ok(true));
    let lines = sink.matches();
    assert_eq!(lines.len(), 4);
    assert_eq!((lines[0].line_number, lines[0].text.as_str()), (3, "before\n"));
    assert_eq!(lines[0].match_offsets, None);
    assert_eq!((lines[1].line_number, lines[1].text.as_str()), (4, "a needle\n"));
    assert_eq!(lines[1].match_offsets, Some(vec![(2, 8)]));
    assert_eq!(lines[2].line_number, 0);
    assert_eq!(lines[2].text, "-".repeat(100));
    assert_eq!(lines[2].text, separator_text());
    assert_eq!(lines[2].match_offsets, None);
    assert_eq!((lines[3].line_number, lines[3].text.as_str()), (40, "传输速度"));
    assert_eq!(lines[3].match_offsets, Some(vec![(0, 6), (6, 12)]));
}

#[test]
fn a_report_without_a_line_number_is_an_error() {
    let mut sink = MatchesSink::new();
    assert_eq!(sink.matched(None, b"text", vec![(0, 1)]), Err(SinkError::InvalidData));
    assert_eq!(sink.context(None, b"text"), Err(SinkError::InvalidData));
    assert_eq!(sink.matched(None, b"\xff", vec![]), Err(SinkError::InvalidData));
    assert!(sink.matches().is_empty());
}

#[test]
fn a_line_that_is_not_text_is_dropped() {
    let mut sink = MatchesSink::new();
    assert_eq!(sink.matched(Some(1), b"\xff\xfe", vec![(0, 1)]), Ok(true));
    assert_eq!(sink.context(Some(2), b"ab\xc3"), Ok(true));
    assert_eq!(sink.matched(Some(3), b"\xed\xa0\x80", vec![]), Ok(true));
    assert_eq!(sink.context(Some(4), b"\xc0\xaf"), Ok(true));
    assert!(sink.matches().is_empty());
    assert_eq!(sink.matched(Some(5), b"ok", vec![]), Ok(true));
    assert_eq!(sink.matched(Some(6), b"", vec![]), Ok(true));
    assert_eq!(sink.matches().len(), 2);
    assert_eq!(sink.matches()[0].line_number, 5);
    assert_eq!(sink.matches()[1].text, "");
}

#[test]
fn a_file_without_a_match_has_no_rows() {
    let sink = MatchesSink::new();
    assert!(sink.into_file_entry("a".to_owned()).is_none());
    let mut sink = MatchesSink::new();
    assert_eq!(sink.context(Some(1), b"c"), Ok(true));
    assert_eq!(sink.context_break(), Ok(true));
    assert_eq!(sink.context(Some(9), b"c"), Ok(true));
    assert!(sink.into_file_entry("a".to_owned()).is_none());
}

#[test]
fn a_file_with_a_match_has_its_rows() {
    let mut sink = MatchesSink::new();
    assert_eq!(sink.context(Some(1), b"c"), Ok(true));
    assert_eq!(sink.matched(Some(2), b"m", vec![(0, 1)]), Ok(true));
    assert_eq!(sink.context_break(), Ok(true));
    assert_eq!(sink.matched(Some(9), b"m", vec![]), Ok(true));
    let entry = sink.into_file_entry("a".to_owned()).unwrap();
    assert_eq!(entry.get_matches_count(), 2);
    assert!(entry.is_file_block());
    let rows = entry.get_entries();
    assert_eq!(rows.len(), 5);
    assert!(matches!(&rows[0], Row::Header(name) if name == "a"));
    assert!(matches!(&rows[1], Row::Match(1, text, None) if text == "c"));
    assert!(matches!(&rows[2], Row::Match(2, text, Some(o)) if text == "m" && *o == vec![(0, 1)]));
    assert!(matches!(&rows[3], Row::Header(name) if *name == separator_text()));
    assert!(matches!(&rows[4], Row::Match(9, text, Some(o)) if text == "m" && o.is_empty()));
}

#[test]
fn the_matcher_finds_the_ranges_of_a_line() {
    let matcher = grep::regex::RegexMatcher::new("needle|传输").unwrap();
    let mut sink = MatchesSink::new();
    assert_eq!(sink.matched_by(&matcher, Some(4), b"a needle in a needlestack\n"), Ok(true));
    assert_eq!(sink.matched_by(&matcher, Some(5), "传输速度传输".as_bytes()), Ok(true));
    assert_eq!(sink.matched_by(&matcher, Some(6), b"nothing"), Ok(true));
    assert_eq!(sink.matched_by(&matcher, None, b"needle"), Err(SinkError::InvalidData));
    assert_eq!(sink.matched_by(&matcher, Some(7), b"needle \xff"), Ok(true));
    let lines = sink.matches();
    assert_eq!(lines.len(), 3);
    assert_eq!(lines[0].line_number, 4);
    assert_eq!(lines[0].text, "a needle in a needlestack\n");
    assert_eq!(lines[0].match_offsets, Some(vec![(2, 8), (14, 20)]));
    assert_eq!(lines[1].match_offsets, Some(vec![(0, 6), (12, 18)]));
    assert_eq!(lines[2].match_offsets, Some(vec![]));
    let entry = sink.into_file_entry("a".to_owned()).unwrap();
    assert_eq!(entry.get_matches_count(), 3);
}

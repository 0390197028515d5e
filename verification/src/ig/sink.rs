//! Collecting the lines that the searcher reports for one file.
//!
//! The searcher reports matching lines, context lines, and the gaps between
//! blocks of context. Each report becomes one [`GrepMatch`]; a line that is
//! not valid UTF-8 is left out.

use grep::matcher::Matcher;
use grep::regex::RegexMatcher;
use vstd::prelude::*;
use vstd::utf8::decode_utf8;
use vstd::utf8::valid_utf8;

use crate::file_entry::file_rows;
use crate::file_entry::separator;
use crate::file_entry::separator_text;
use crate::file_entry::FileEntry;
use crate::grep_match::GrepMatch;
use crate::grep_match::GrepMatchView;

verus! {

/// `core::str::Utf8Error`, the error of `core::str::from_utf8`.
#[verifier::external_type_specification]
#[verifier::external_body]
pub struct ExUtf8Error(core::str::Utf8Error);

/// `core::str::from_utf8` accepts exactly the byte sequences that are valid
/// UTF-8, and returns the string that has these bytes.
pub assume_specification[ core::str::from_utf8 ](v: &[u8]) -> (text: Result<&str, core::str::Utf8Error>)
    ensures
        text is Ok <==> valid_utf8(v@),
        text matches Ok(s) ==> vstd::utf8::encode_utf8(s@) == v@,
;

/// `grep::regex::RegexMatcher`, the matcher for regular expressions.
#[verifier::external_type_specification]
#[verifier::external_body]
pub struct ExRegexMatcher(RegexMatcher);

/// Whether the ranges follow each other: none ends before it starts, and
/// none starts before the one before it has ended.
pub open spec fn ranges_ascend(ranges: Seq<(usize, usize)>) -> bool {
    &&& forall|i: int| 0 <= i < ranges.len() ==> (#[trigger] ranges[i]).0 <= ranges[i].1
    &&& forall|i: int, j: int| 0 <= i < j < ranges.len() ==> (#[trigger] ranges[i]).1 <= (#[trigger] ranges[j]).0
}

/// Calls `grep::matcher::Matcher::find_iter` on a `RegexMatcher` and
/// collects the start and the end of every match that it reports. The
/// matches are reported one after another and do not overlap. A search that
/// fails on the way leaves the matches reported before.
#[verifier::external_body]
fn find_offsets(matcher: &RegexMatcher, bytes: &[u8]) -> (offsets: Vec<(usize, usize)>)
    ensures
        ranges_ascend(offsets@),
{
    let mut offsets = vec![];
    matcher
        .find_iter(bytes, |m| {
            offsets.push((m.start(), m.end()));
            true
        })
        .ok();
    offsets
}

/// Why a report was refused.
#[derive(Debug, Clone, Copy, PartialEq, Eq)]
pub enum SinkError {
    /// The report came without a line number.
    InvalidData,
}

/// The line that a report of the searcher becomes.
pub open spec fn reported_line(line_number: u64, bytes: Seq<u8>, offsets: Option<Seq<(usize, usize)>>) -> GrepMatchView {
    GrepMatchView { line_number, text: decode_utf8(bytes), match_offsets: offsets }
}

/// The line that stands for a gap between two blocks of context.
pub open spec fn separator_line() -> GrepMatchView {
    GrepMatchView { line_number: 0, text: separator_text(), match_offsets: None }
}

/// How many lines of `lines` matched.
pub open spec fn count_matched_lines(lines: Seq<GrepMatchView>) -> nat
    decreases lines.len(),
{
    if lines.len() == 0 {
        0
    } else {
        count_matched_lines(lines.drop_last()) + if lines.last().is_true_match() {
            1nat
        } else {
            0nat
        }
    }
}

/// The lines of one file, in the order in which the searcher reported them.
pub struct MatchesSink {
    matches_in_entry: Vec<GrepMatch>,
}

impl View for MatchesSink {
    type V = Seq<GrepMatchView>;

    closed spec fn view(&self) -> Seq<GrepMatchView> {
        self.matches_in_entry@.map_values(|m: GrepMatch| m@)
    }
}

impl MatchesSink {
    pub fn new() -> (sink: Self)
        ensures
            sink@ == Seq::<GrepMatchView>::empty(),
    {
        let sink = Self { matches_in_entry: Vec::new() };
        assert(sink@ =~= Seq::<GrepMatchView>::empty());
        sink
    }

    /// Takes a matching line with the byte ranges of its matches.
    ///
    /// A report without a line number is an error and changes nothing. A
    /// line that is not valid UTF-8 is dropped without an error.
    pub fn matched(&mut self, line_number: Option<u64>, bytes: &[u8], offsets: Vec<(usize, usize)>) -> (go_on: Result<
        bool,
        SinkError,
    >)
        ensures
            match line_number {
                None => go_on == Err::<bool, SinkError>(SinkError::InvalidData) && final(self)@ == old(self)@,
                Some(n) => go_on == Ok::<bool, SinkError>(true) && final(self)@ == if valid_utf8(bytes@) {
                    old(self)@.push(reported_line(n, bytes@, Some(offsets@)))
                } else {
                    old(self)@
                },
            },
    {
        let Some(n) = line_number else {
            return Err(SinkError::InvalidData);
        };
        self.take_line(n, bytes, Some(offsets));
        Ok(true)
    }

    /// Takes a matching line and has `matcher` find the byte ranges of its
    /// matches, which follow each other. A report without a line number is an
    /// error and changes nothing. A line that is not valid UTF-8 is dropped
    /// without an error.
    pub fn matched_by(&mut self, matcher: &RegexMatcher, line_number: Option<u64>, bytes: &[u8]) -> (go_on: Result<
        bool,
        SinkError,
    >)
        ensures
            match line_number {
                None => go_on == Err::<bool, SinkError>(SinkError::InvalidData) && final(self)@ == old(self)@,
                Some(n) => go_on == Ok::<bool, SinkError>(true) && if valid_utf8(bytes@) {
                    &&& final(self)@.len() == old(self)@.len() + 1
                    &&& final(self)@.drop_last() == old(self)@
                    &&& final(self)@.last().line_number == n
                    &&& final(self)@.last().text == decode_utf8(bytes@)
                    &&& final(self)@.last().match_offsets matches Some(ranges) && ranges_ascend(ranges)
                } else {
                    final(self)@ == old(self)@
                },
            },
    {
        let Some(n) = line_number else {
            return Err(SinkError::InvalidData);
        };
        let offsets = find_offsets(matcher, bytes);
        let ghost before = self@;
        self.take_line(n, bytes, Some(offsets));
        proof {
            if valid_utf8(bytes@) {
                assert(self@.drop_last() =~= before);
            }
        }
        Ok(true)
    }

    /// Takes a context line, as [`MatchesSink::matched`] takes a matching one.
    pub fn context(&mut self, line_number: Option<u64>, bytes: &[u8]) -> (go_on: Result<bool, SinkError>)
        ensures
            match line_number {
                None => go_on == Err::<bool, SinkError>(SinkError::InvalidData) && final(self)@ == old(self)@,
                Some(n) => go_on == Ok::<bool, SinkError>(true) && final(self)@ == if valid_utf8(bytes@) {
                    old(self)@.push(reported_line(n, bytes@, None))
                } else {
                    old(self)@
                },
            },
    {
        let Some(n) = line_number else {
            return Err(SinkError::InvalidData);
        };
        self.take_line(n, bytes, None);
        Ok(true)
    }

    /// Takes a gap between two blocks of context: a line number 0 with the
    /// separator text.
    pub fn context_break(&mut self) -> (go_on: Result<bool, SinkError>)
        ensures
            go_on == Ok::<bool, SinkError>(true),
            final(self)@ == old(self)@.push(separator_line()),
    {
        let line = GrepMatch::new(0, separator(), None);
        self.push_line(line);
        Ok(true)
    }

    fn take_line(&mut self, line_number: u64, bytes: &[u8], offsets: Option<Vec<(usize, usize)>>)
        ensures
            final(self)@ == if valid_utf8(bytes@) {
                old(self)@.push(reported_line(line_number, bytes@, crate::grep_match::offsets_view(offsets)))
            } else {
                old(self)@
            },
    {
        match core::str::from_utf8(bytes) {
            Ok(text) => {
                proof {
                    vstd::utf8::encode_utf8_decode_utf8(text@);
                }
                self.push_line(GrepMatch::new(line_number, text.to_owned(), offsets));
            },
            Err(_) => {},
        }
    }

    fn push_line(&mut self, line: GrepMatch)
        ensures
            final(self)@ == old(self)@.push(line@),
    {
        let ghost before = self@;
        self.matches_in_entry.push(line);
        assert(self@ =~= before.push(line@));
    }

    /// The lines taken so far.
    pub fn matches(&self) -> (lines: &Vec<GrepMatch>)
        ensures
            lines@.map_values(|m: GrepMatch| m@) == self@,
    {
        &self.matches_in_entry
    }

    /// Makes the rows of the file `path` of the lines taken. A file none of
    /// whose lines matched has no rows.
    pub fn into_file_entry(self, path: String) -> (entry: Option<FileEntry>)
        ensures
            count_matched_lines(self@) == 0 ==> entry is None,
            count_matched_lines(self@) > 0 ==> (entry matches Some(e) && e@ == file_rows(path@, self@)),
    {
        let len = self.matches_in_entry.len();
        let mut found = false;
        let mut i: usize = 0;
        while i < len
            invariant
                len == self@.len(),
                i <= len,
                found == (count_matched_lines(self@.take(i as int)) > 0),
            decreases len - i,
        {
            proof {
                assert(self@.take(i + 1).drop_last() =~= self@.take(i as int));
            }
            if self.matches_in_entry[i].match_offsets.is_some() {
                found = true;
            }
            i += 1;
        }
        assert(self@.take(len as int) =~= self@);
        if found {
            Some(FileEntry::new(path, self.matches_in_entry))
        } else {
            None
        }
    }
}

} // verus!

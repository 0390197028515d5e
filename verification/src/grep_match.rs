//! One reported line of a searched file.

use vstd::prelude::*;

verus! {

/// A line reported by the matcher.
///
/// `match_offsets` is `None` for a context line. For a line that matched it
/// holds the byte ranges of the matches, which may be empty.
pub struct GrepMatch {
    pub line_number: u64,
    pub text: String,
    pub match_offsets: Option<Vec<(usize, usize)>>,
}

/// The mathematical value of a [`GrepMatch`].
pub struct GrepMatchView {
    pub line_number: u64,
    pub text: Seq<char>,
    pub match_offsets: Option<Seq<(usize, usize)>>,
}

/// The byte ranges of an optional offset list as a sequence.
pub open spec fn offsets_view(offsets: Option<Vec<(usize, usize)>>) -> Option<Seq<(usize, usize)>> {
    match offsets {
        Some(v) => Some(v@),
        None => None,
    }
}

impl View for GrepMatch {
    type V = GrepMatchView;

    open spec fn view(&self) -> GrepMatchView {
        GrepMatchView {
            line_number: self.line_number,
            text: self.text@,
            match_offsets: offsets_view(self.match_offsets),
        }
    }
}

impl GrepMatchView {
    /// A line that matched, as opposed to a context line.
    pub open spec fn is_true_match(self) -> bool {
        self.match_offsets is Some
    }
}

impl GrepMatch {
    pub fn new(line_number: u64, text: String, match_offsets: Option<Vec<(usize, usize)>>) -> (m: Self)
        ensures
            m.line_number == line_number,
            m.text == text,
            m.match_offsets == match_offsets,
            m@ == (GrepMatchView {
                line_number,
                text: text@,
                match_offsets: offsets_view(match_offsets),
            }),
    {
        Self { line_number, text, match_offsets }
    }
}

} // verus!

//! The spans of a result line, ready to be drawn.
//!
//! A line is drawn as display rows, each a sequence of spans. A span is a
//! byte range of the text with a style: plain text, matched text, or the
//! line number, which stands first in the first row and has an empty range.

use vstd::prelude::*;

use crate::ui::soft_warp::SoftWrapper;
use crate::ui::soft_warp::SplitPosType;

verus! {

/// How a span is drawn.
#[derive(Debug, Clone, Copy, PartialEq, Eq)]
pub enum StyleTag {
    Normal,
    Match,
    LineNumber,
}

/// A part of a line: the bytes from `start` up to, not including, `end`.
#[derive(Debug, Clone, Copy, PartialEq, Eq)]
pub struct Span {
    pub start: usize,
    pub end: usize,
    pub tag: StyleTag,
}

/// The span that stands for the line number.
pub open spec fn label() -> Span {
    Span { start: 0, end: 0, tag: StyleTag::LineNumber }
}

/// The spans of a list of rows.
pub open spec fn spans_of(rows: Seq<Vec<Span>>) -> Seq<Seq<Span>> {
    rows.map_values(|row: Vec<Span>| row@)
}

/// Where the text before split `i` begins: at the split before, or at the
/// start of the text.
pub open spec fn cursor_before(splits: Seq<SplitPosType>, i: int) -> usize {
    if i <= 0 {
        0
    } else {
        splits[i - 1].pos()
    }
}

/// Whether the text before split `i` lies in a match: the last start or
/// end of a match before it is a start.
pub open spec fn highlighted_before(splits: Seq<SplitPosType>, i: int) -> bool
    decreases i,
{
    if i <= 0 {
        false
    } else {
        match splits[i - 1] {
            SplitPosType::MatchStart(_) => true,
            SplitPosType::MatchEnd(_) => false,
            SplitPosType::Crlf(_) => highlighted_before(splits, i - 1),
        }
    }
}

/// The span that ends at split `i`.
pub open spec fn span_before(splits: Seq<SplitPosType>, i: int) -> Span {
    Span {
        start: cursor_before(splits, i),
        end: splits[i].pos(),
        tag: if highlighted_before(splits, i) {
            StyleTag::Match
        } else {
            StyleTag::Normal
        },
    }
}

/// The spans of the row that is open after the first `n` splits. The first
/// row opens with the line number.
pub open spec fn open_row(splits: Seq<SplitPosType>, n: int) -> Seq<Span>
    decreases n,
{
    if n <= 0 {
        seq![label()]
    } else if splits[n - 1] is Crlf {
        Seq::empty()
    } else {
        open_row(splits, n - 1).push(span_before(splits, n - 1))
    }
}

/// The rows that are complete after the first `n` splits: a row is
/// complete with the span that ends at a row end.
pub open spec fn closed_rows(splits: Seq<SplitPosType>, n: int) -> Seq<Seq<Span>>
    decreases n,
{
    if n <= 0 {
        Seq::empty()
    } else if splits[n - 1] is Crlf {
        closed_rows(splits, n - 1).push(open_row(splits, n - 1).push(span_before(splits, n - 1)))
    } else {
        closed_rows(splits, n - 1)
    }
}

/// The display rows of a line with the splits `splits`. Spans after the
/// last row end belong to no row.
pub open spec fn wrapped_rows(splits: Seq<SplitPosType>) -> Seq<Seq<Span>> {
    closed_rows(splits, splits.len() as int)
}

/// Where the plain text before match `i` begins: at the end of the match
/// before, or at the start of the text.
pub open spec fn plain_start(offsets: Seq<(usize, usize)>, i: int) -> usize {
    if i <= 0 {
        0
    } else {
        offsets[i - 1].1
    }
}

/// The spans up to the end of match `n - 1`: the line number, then for
/// every match the plain text before it and the match.
pub open spec fn match_spans(offsets: Seq<(usize, usize)>, n: int) -> Seq<Span>
    decreases n,
{
    if n <= 0 {
        seq![label()]
    } else {
        match_spans(offsets, n - 1).push(
            Span { start: plain_start(offsets, n - 1), end: offsets[n - 1].0, tag: StyleTag::Normal },
        ).push(Span { start: offsets[n - 1].0, end: offsets[n - 1].1, tag: StyleTag::Match })
    }
}

/// The one row of a line of `text_len` bytes that is not cut: the spans of
/// its matches, and the plain text after the last match.
pub open spec fn unwrapped_row(offsets: Seq<(usize, usize)>, text_len: usize) -> Seq<Span> {
    match_spans(offsets, offsets.len() as int).push(
        Span { start: plain_start(offsets, offsets.len() as int), end: text_len, tag: StyleTag::Normal },
    )
}

/// How many of the first `n` splits are row ends.
pub open spec fn count_row_ends(splits: Seq<SplitPosType>, n: int) -> nat
    decreases n,
{
    if n <= 0 {
        0
    } else {
        count_row_ends(splits, n - 1) + if splits[n - 1] is Crlf {
            1nat
        } else {
            0nat
        }
    }
}

/// `name` without every `./` at its start.
pub open spec fn without_dot_slash(name: Seq<char>) -> Seq<char>
    decreases name.len(),
{
    if name.len() >= 2 && name[0] == '.' && name[1] == '/' {
        without_dot_slash(name.skip(2))
    } else {
        name
    }
}

/// A line has as many rows as row ends.
pub proof fn lemma_row_count(splits: Seq<SplitPosType>, n: int)
    requires
        0 <= n <= splits.len(),
    ensures
        closed_rows(splits, n).len() == count_row_ends(splits, n),
    decreases n,
{
    if n > 0 {
        lemma_row_count(splits, n - 1);
    }
}

/// With splits in ascending order no span ends before it begins.
pub proof fn lemma_span_is_ordered(splits: Seq<SplitPosType>, i: int)
    requires
        crate::ui::soft_warp::is_ascending(splits),
        0 <= i < splits.len(),
    ensures
        span_before(splits, i).start <= span_before(splits, i).end,
{
}

/// Every span begins where the span before it ends, and the first at the
/// start of the text.
pub proof fn lemma_spans_are_adjacent(splits: Seq<SplitPosType>, i: int)
    requires
        0 <= i < splits.len(),
    ensures
        i == 0 ==> span_before(splits, i).start == 0,
        i > 0 ==> span_before(splits, i).start == span_before(splits, i - 1).end,
{
}

/// Lays the spans between the splits of `wrapper` out in display rows.
pub fn rows_of_splits(wrapper: &SoftWrapper) -> (rows: Vec<Vec<Span>>)
    ensures
        spans_of(rows@) == wrapped_rows(wrapper.positions@),
{
    let ghost splits = wrapper.positions@;
    let mut rows: Vec<Vec<Span>> = Vec::new();
    let mut spans: Vec<Span> = Vec::new();
    spans.push(Span { start: 0, end: 0, tag: StyleTag::LineNumber });
    let mut current_position: usize = 0;
    let mut match_flag = false;
    let mut n: usize = 0;
    assert(spans_of(rows@) =~= closed_rows(splits, 0));
    assert(spans@ =~= open_row(splits, 0));
    while n < wrapper.positions.len()
        invariant
            splits == wrapper.positions@,
            n <= splits.len(),
            current_position == cursor_before(splits, n as int),
            match_flag == highlighted_before(splits, n as int),
            spans@ == open_row(splits, n as int),
            spans_of(rows@) == closed_rows(splits, n as int),
        decreases wrapper.positions.len() - n,
    {
        let tag = if match_flag {
            StyleTag::Match
        } else {
            StyleTag::Normal
        };
        let ghost done = spans_of(rows@);
        match wrapper.positions[n] {
            SplitPosType::Crlf(x) => {
                spans.push(Span { start: current_position, end: x, tag });
                let ghost row = spans@;
                rows.push(spans);
                spans = Vec::new();
                current_position = x;
                assert(spans_of(rows@) =~= done.push(row));
            },
            SplitPosType::MatchStart(x) => {
                spans.push(Span { start: current_position, end: x, tag });
                current_position = x;
                match_flag = true;
            },
            SplitPosType::MatchEnd(x) => {
                spans.push(Span { start: current_position, end: x, tag });
                current_position = x;
                match_flag = false;
            },
        }
        n += 1;
    }
    rows
}

/// The display rows of `text` on a display `max_width` columns wide, with
/// the matches at `offsets`.
pub fn wrapped_line(max_width: usize, offsets: &Vec<(usize, usize)>, text: &str) -> (rows: Vec<Vec<Span>>)
    ensures
        spans_of(rows@) == wrapped_rows(
            crate::ui::soft_warp::split_positions(max_width, offsets@, crate::ui::soft_warp::glyphs_of(text@)),
        ),
{
    let wrapper = SoftWrapper::new(max_width, offsets, text);
    rows_of_splits(&wrapper)
}

/// The one row of a line of `text_len` bytes that is not cut, with the
/// matches at `offsets`.
pub fn unwrapped_line(offsets: &Vec<(usize, usize)>, text_len: usize) -> (spans: Vec<Span>)
    ensures
        spans@ == unwrapped_row(offsets@, text_len),
{
    let mut spans: Vec<Span> = Vec::new();
    spans.push(Span { start: 0, end: 0, tag: StyleTag::LineNumber });
    let mut current_position: usize = 0;
    let mut i: usize = 0;
    assert(spans@ =~= match_spans(offsets@, 0));
    while i < offsets.len()
        invariant
            i <= offsets@.len(),
            current_position == plain_start(offsets@, i as int),
            spans@ == match_spans(offsets@, i as int),
        decreases offsets.len() - i,
    {
        let (start, end) = offsets[i];
        spans.push(Span { start: current_position, end: start, tag: StyleTag::Normal });
        spans.push(Span { start, end, tag: StyleTag::Match });
        current_position = end;
        i += 1;
    }
    spans.push(Span { start: current_position, end: text_len, tag: StyleTag::Normal });
    spans
}

/// The path of a file as a header shows it: without `./` at its start.
pub fn header_label(name: &str) -> (shown: &str)
    ensures
        shown@ == without_dot_slash(name@),
{
    let n = name.unicode_len();
    let mut start: usize = 0;
    assert(name@.skip(0) =~= name@);
    while start < n && n - start >= 2 && name.get_char(start) == '.' && name.get_char(start + 1) == '/'
        invariant
            n == name@.len(),
            start <= n,
            without_dot_slash(name@.skip(start as int)) == without_dot_slash(name@),
        decreases n - start,
    {
        assert(name@.skip(start as int).skip(2) =~= name@.skip(start + 2));
        start += 2;
    }
    assert(name@.skip(start as int) =~= name@.subrange(start as int, n as int));
    name.substring_char(start, n)
}

} // verus!

//! Cutting a line of text into display rows and highlighted spans.
//!
//! A line is walked character by character. Where the next character would
//! make the row wider than the display, a break is set before it. Every match
//! range adds a split at its start and one at its end, and a last break
//! stands at the end of the text. The splits are handed out ordered by their
//! byte position, so that the text between two neighbours is one span.

use std::cmp::Ordering;
use unicode_width::UnicodeWidthChar;
use vstd::prelude::*;
use vstd::utf8::encode_scalar;
use vstd::utf8::encode_utf8;

verus! {

/// A place where a line is split, with its byte position in the text.
#[derive(Debug, Clone, Copy, PartialEq, Eq, Structural)]
pub enum SplitPosType {
    /// The display row ends here.
    Crlf(usize),
    /// A match starts here.
    MatchStart(usize),
    /// A match ends here.
    MatchEnd(usize),
}

impl SplitPosType {
    /// The byte position of the split.
    pub open spec fn pos(self) -> usize {
        match self {
            SplitPosType::Crlf(x) => x,
            SplitPosType::MatchStart(x) => x,
            SplitPosType::MatchEnd(x) => x,
        }
    }

    /// The byte position of the split.
    pub fn position(&self) -> (x: usize)
        ensures
            x == self.pos(),
    {
        match self {
            SplitPosType::Crlf(x) => *x,
            SplitPosType::MatchStart(x) => *x,
            SplitPosType::MatchEnd(x) => *x,
        }
    }
}

impl PartialOrd for SplitPosType {
    /// Splits are ordered by their byte position alone.
    fn partial_cmp(&self, other: &Self) -> (order: Option<Ordering>) {
        let l = self.position();
        let r = other.position();
        if l < r {
            Some(Ordering::Less)
        } else if l > r {
            Some(Ordering::Greater)
        } else {
            Some(Ordering::Equal)
        }
    }
}

impl vstd::std_specs::cmp::PartialOrdSpecImpl for SplitPosType {
    open spec fn obeys_partial_cmp_spec() -> bool {
        true
    }

    open spec fn partial_cmp_spec(&self, other: &Self) -> Option<Ordering> {
        if self.pos() < other.pos() {
            Some(Ordering::Less)
        } else if self.pos() > other.pos() {
            Some(Ordering::Greater)
        } else {
            Some(Ordering::Equal)
        }
    }
}

/// The number of columns that `unicode_width` gives a character, or `None`
/// for a control character.
pub uninterp spec fn char_width(c: char) -> Option<usize>;

/// Calls `unicode_width::UnicodeWidthChar::width`. The result is a fixed
/// property of the character, so it has the name [`char_width`]; the printable
/// characters of ASCII are one column wide.
#[verifier::external_body]
fn display_width(c: char) -> (width: Option<usize>)
    ensures
        width == char_width(c),
        ' ' <= c <= '~' ==> width == Some(1usize),
{
    UnicodeWidthChar::width(c)
}

/// What the walk through a line needs to know of a character: the columns
/// that it takes on the display, if it takes any, and its bytes in the text.
#[derive(Debug, Clone, Copy, PartialEq, Eq)]
pub struct Glyph {
    pub width: Option<usize>,
    pub len: usize,
}

/// The glyph of a character.
pub open spec fn glyph_of(c: char) -> Glyph {
    Glyph { width: char_width(c), len: encode_scalar(c as u32).len() as usize }
}

/// The glyphs of a text.
pub open spec fn glyphs_of(text: Seq<char>) -> Seq<Glyph> {
    text.map_values(|c: char| glyph_of(c))
}

/// The number of bytes that the first `n` glyphs take.
pub open spec fn byte_offset(glyphs: Seq<Glyph>, n: int) -> int
    decreases n,
{
    if n <= 0 {
        0
    } else {
        byte_offset(glyphs, n - 1) + glyphs[n - 1].len
    }
}

/// The number of bytes that all glyphs take.
pub open spec fn byte_len(glyphs: Seq<Glyph>) -> int {
    byte_offset(glyphs, glyphs.len() as int)
}

/// The width of the display row that is being filled after `n` glyphs, in
/// columns of a display `max_width` columns wide.
pub open spec fn width_after(max_width: usize, glyphs: Seq<Glyph>, n: int) -> int
    decreases n,
{
    if n <= 0 {
        0
    } else {
        let before = width_after(max_width, glyphs, n - 1);
        match glyphs[n - 1].width {
            Some(w) => if before + w > max_width {
                w as int
            } else {
                before + w
            },
            None => before,
        }
    }
}

/// Whether a row ends before glyph `i`: the glyph has a width, and does
/// not fit into the row that is being filled.
pub open spec fn breaks_before(max_width: usize, glyphs: Seq<Glyph>, i: int) -> bool {
    glyphs[i].width matches Some(w) && width_after(max_width, glyphs, i) + w > max_width
}

/// The row ends among the first `n` glyphs, in order.
pub open spec fn line_breaks(max_width: usize, glyphs: Seq<Glyph>, n: int) -> Seq<SplitPosType>
    decreases n,
{
    if n <= 0 {
        Seq::empty()
    } else if breaks_before(max_width, glyphs, n - 1) {
        line_breaks(max_width, glyphs, n - 1).push(SplitPosType::Crlf(byte_offset(glyphs, n - 1) as usize))
    } else {
        line_breaks(max_width, glyphs, n - 1)
    }
}

/// The start and the end of every range of `offsets`, in order.
pub open spec fn match_splits(offsets: Seq<(usize, usize)>) -> Seq<SplitPosType>
    decreases offsets.len(),
{
    if offsets.len() == 0 {
        Seq::empty()
    } else {
        match_splits(offsets.drop_last()).push(SplitPosType::MatchStart(offsets.last().0)).push(
            SplitPosType::MatchEnd(offsets.last().1),
        )
    }
}

/// The splits of a line as they are found: the row ends, the starts and
/// ends of the matches, and the end of the text.
pub open spec fn found_splits(max_width: usize, offsets: Seq<(usize, usize)>, glyphs: Seq<Glyph>) -> Seq<SplitPosType> {
    line_breaks(max_width, glyphs, glyphs.len() as int) + match_splits(offsets) + seq![
        SplitPosType::Crlf(byte_len(glyphs) as usize),
    ]
}

/// Where `split` goes into `sorted`: behind the last split that does not
/// stand after it.
pub open spec fn insert_index(sorted: Seq<SplitPosType>, split: SplitPosType) -> int
    decreases sorted.len(),
{
    if sorted.len() == 0 {
        0
    } else if sorted.last().pos() <= split.pos() {
        sorted.len() as int
    } else {
        insert_index(sorted.drop_last(), split)
    }
}

/// The splits of `splits` ordered by position. Splits at one position keep
/// the order that they have in `splits`.
pub open spec fn sort_by_position(splits: Seq<SplitPosType>) -> Seq<SplitPosType>
    decreases splits.len(),
{
    if splits.len() == 0 {
        Seq::empty()
    } else {
        let sorted = sort_by_position(splits.drop_last());
        sorted.insert(insert_index(sorted, splits.last()), splits.last())
    }
}

/// Whether the positions of `splits` never go down.
pub open spec fn is_ascending(splits: Seq<SplitPosType>) -> bool {
    forall|i: int, j: int| 0 <= i <= j < splits.len() ==> splits[i].pos() <= splits[j].pos()
}

/// The splits of a line with the glyphs `glyphs` on a display `max_width`
/// columns wide, with the matches at `offsets`.
pub open spec fn split_positions(max_width: usize, offsets: Seq<(usize, usize)>, glyphs: Seq<Glyph>) -> Seq<SplitPosType> {
    sort_by_position(found_splits(max_width, offsets, glyphs))
}

/// The columns that the glyphs take if the line is not cut.
pub open spec fn text_width(glyphs: Seq<Glyph>) -> int
    decreases glyphs.len(),
{
    if glyphs.len() == 0 {
        0
    } else {
        text_width(glyphs.drop_last()) + match glyphs.last().width {
            Some(w) => w as int,
            None => 0,
        }
    }
}

/// Where a split goes: every split before that place stands at or before
/// it, every split from that place on stands after it.
pub proof fn lemma_insert_index(sorted: Seq<SplitPosType>, split: SplitPosType)
    requires
        is_ascending(sorted),
    ensures
        0 <= insert_index(sorted, split) <= sorted.len(),
        forall|j: int| 0 <= j < insert_index(sorted, split) ==> sorted[j].pos() <= split.pos(),
        forall|j: int| insert_index(sorted, split) <= j < sorted.len() ==> sorted[j].pos() > split.pos(),
        is_ascending(sorted.insert(insert_index(sorted, split), split)),
    decreases sorted.len(),
{
    if sorted.len() > 0 && sorted.last().pos() > split.pos() {
        let shorter = sorted.drop_last();
        assert forall|i: int, j: int| 0 <= i <= j < shorter.len() implies shorter[i].pos() <= shorter[j].pos() by {
            assert(shorter[i] == sorted[i] && shorter[j] == sorted[j]);
        }
        lemma_insert_index(shorter, split);
        assert forall|j: int| 0 <= j < insert_index(sorted, split) implies sorted[j].pos() <= split.pos() by {
            assert(sorted[j] == shorter[j]);
        }
        assert forall|j: int| insert_index(sorted, split) <= j < sorted.len() implies sorted[j].pos()
            > split.pos() by {
            if j < shorter.len() {
                assert(sorted[j] == shorter[j]);
            }
        }
    }
}

/// Sorting gives the same splits, each as often as before, in ascending order.
pub proof fn lemma_sort_by_position(splits: Seq<SplitPosType>)
    ensures
        is_ascending(sort_by_position(splits)),
        sort_by_position(splits).len() == splits.len(),
        sort_by_position(splits).to_multiset() == splits.to_multiset(),
    decreases splits.len(),
{
    broadcast use vstd::seq_lib::group_to_multiset_ensures;

    if splits.len() > 0 {
        let rest = splits.drop_last();
        lemma_sort_by_position(rest);
        let sorted = sort_by_position(rest);
        lemma_insert_index(sorted, splits.last());
        assert(splits =~= rest.push(splits.last()));
        let k = insert_index(sorted, splits.last());
        vstd::seq_lib::to_multiset_insert(sorted, k, splits.last());
        vstd::seq_lib::to_multiset_build(rest, splits.last());
    } else {
        assert(splits.to_multiset() =~= sort_by_position(splits).to_multiset());
    }
}

/// Splits that already stand in ascending order stay as they are.
pub proof fn lemma_sort_of_ascending(splits: Seq<SplitPosType>)
    requires
        is_ascending(splits),
    ensures
        sort_by_position(splits) == splits,
    decreases splits.len(),
{
    if splits.len() > 0 {
        let rest = splits.drop_last();
        assert forall|i: int, j: int| 0 <= i <= j < rest.len() implies rest[i].pos() <= rest[j].pos() by {
            assert(rest[i] == splits[i] && rest[j] == splits[j]);
        }
        lemma_sort_of_ascending(rest);
        if rest.len() > 0 {
            assert(rest.last() == splits[rest.len() - 1]);
        }
        assert(rest.insert(rest.len() as int, splits.last()) =~= splits);
    }
}

/// A text that is no wider than the display is not cut: while it is walked,
/// the row holds what was walked, and no row ends.
pub proof fn lemma_width_of_prefixes(max_width: usize, text: Seq<Glyph>, n: int)
    requires
        text_width(text) <= max_width,
        0 <= n <= text.len(),
    ensures
        width_after(max_width, text, n) == text_width(text.take(n)),
        0 <= text_width(text.take(n)) <= text_width(text),
        line_breaks(max_width, text, n) == Seq::<SplitPosType>::empty(),
    decreases n,
{
    lemma_text_width_of_prefix(text, n);
    if n > 0 {
        lemma_width_of_prefixes(max_width, text, n - 1);
        assert(text.take(n).drop_last() =~= text.take(n - 1));
        assert(text.take(n).last() == text[n - 1]);
    }
}

/// A part of a text from its start is no wider than the text.
proof fn lemma_text_width_of_prefix(text: Seq<Glyph>, n: int)
    requires
        0 <= n <= text.len(),
    ensures
        0 <= text_width(text.take(n)) <= text_width(text),
    decreases text.len() - n,
{
    if n < text.len() {
        lemma_text_width_of_prefix(text, n + 1);
        assert(text.take(n + 1).drop_last() =~= text.take(n));
        lemma_text_width_nonnegative(text.take(n));
    } else {
        assert(text.take(n) =~= text);
        lemma_text_width_nonnegative(text);
    }
}

/// No text takes fewer than zero columns.
proof fn lemma_text_width_nonnegative(text: Seq<Glyph>)
    ensures
        0 <= text_width(text),
    decreases text.len(),
{
    if text.len() > 0 {
        lemma_text_width_nonnegative(text.drop_last());
    }
}

/// A line without matches that is no wider than the display has one split:
/// the end of the text.
pub proof fn lemma_narrow_text_has_one_split(max_width: usize, glyphs: Seq<Glyph>)
    requires
        text_width(glyphs) <= max_width,
    ensures
        split_positions(max_width, Seq::empty(), glyphs) == seq![SplitPosType::Crlf(byte_len(glyphs) as usize)],
{
    lemma_width_of_prefixes(max_width, glyphs, glyphs.len() as int);
    let end = SplitPosType::Crlf(byte_len(glyphs) as usize);
    assert(found_splits(max_width, Seq::empty(), glyphs) =~= seq![end]);
    lemma_sort_of_ascending(seq![end]);
}

/// The encoding of a text with one more character is the encoding of the
/// text followed by that of the character.
pub proof fn lemma_encode_push(text: Seq<char>, c: char)
    ensures
        encode_utf8(text.push(c)) == encode_utf8(text) + encode_scalar(c as u32),
    decreases text.len(),
{
    let longer = text.push(c);
    if text.len() == 0 {
        assert(longer.drop_first() =~= Seq::<char>::empty());
        assert(encode_utf8(longer.drop_first()) =~= Seq::<u8>::empty());
        assert(encode_utf8(text) =~= Seq::<u8>::empty());
        assert(longer[0] == c);
        assert(encode_utf8(longer) =~= encode_scalar(c as u32) + encode_utf8(longer.drop_first()));
        assert(encode_utf8(longer) =~= encode_utf8(text) + encode_scalar(c as u32));
    } else {
        lemma_encode_push(text.drop_first(), c);
        assert(longer.drop_first() =~= text.drop_first().push(c));
        assert(longer[0] == text[0]);
        assert(encode_utf8(longer) =~= encode_scalar(text[0] as u32) + encode_utf8(longer.drop_first()));
        assert(encode_utf8(text) =~= encode_scalar(text[0] as u32) + encode_utf8(text.drop_first()));
        assert(encode_utf8(longer) =~= encode_utf8(text) + encode_scalar(c as u32));
    }
}

/// The number of bytes that a character takes in UTF-8.
pub fn utf8_len(c: char) -> (len: usize)
    ensures
        len == encode_scalar(c as u32).len(),
        1 <= len <= 4,
{
    let code = c as u32;
    if code < 0x80 {
        1
    } else if code < 0x800 {
        2
    } else if code < 0x10000 {
        3
    } else {
        4
    }
}

/// Puts `split` into the ascending `positions`, behind every split that
/// does not stand after it.
fn insert_split(positions: &mut Vec<SplitPosType>, split: SplitPosType)
    requires
        is_ascending(old(positions)@),
    ensures
        final(positions)@ == old(positions)@.insert(insert_index(old(positions)@, split), split),
        is_ascending(final(positions)@),
{
    let x = split.position();
    let mut k = positions.len();
    assert(positions@.take(k as int) =~= positions@);
    while k > 0 && positions[k - 1].position() > x
        invariant
            positions@ == old(positions)@,
            x == split.pos(),
            k <= positions@.len(),
            insert_index(positions@.take(k as int), split) == insert_index(positions@, split),
        decreases k,
    {
        proof {
            assert(positions@.take(k as int).drop_last() =~= positions@.take(k - 1));
        }
        k -= 1;
    }
    proof {
        lemma_insert_index(positions@, split);
    }
    positions.insert(k, split);
}

/// The splits of one line.
pub struct SoftWrapper {
    pub positions: Vec<SplitPosType>,
}

impl SoftWrapper {
    /// Finds the splits of `text` for a display `max_width` columns wide,
    /// with the matches at `matches_offsets`, and orders them by position.
    /// The last row end stands at the end of the text.
    pub fn new(max_width: usize, matches_offsets: &Vec<(usize, usize)>, text: &str) -> (wrapper: Self)
        ensures
            wrapper.positions@ == split_positions(max_width, matches_offsets@, glyphs_of(text@)),
            is_ascending(wrapper.positions@),
            wrapper.positions@.to_multiset() == found_splits(
                max_width,
                matches_offsets@,
                glyphs_of(text@),
            ).to_multiset(),
            byte_len(glyphs_of(text@)) == encode_utf8(text@).len(),
            forall|i: int|
                0 <= i < text@.len() && ' ' <= #[trigger] text@[i] <= '~' ==> char_width(text@[i]) == Some(1usize),
    {
        let ghost chars = text@;
        let byte_len = text.as_bytes().len();
        assert(byte_len == encode_utf8(chars).len());
        let mut glyphs: Vec<Glyph> = Vec::new();
        assert(glyphs@ =~= glyphs_of(chars.take(0)));
        for c in it: text.chars()
            invariant
                chars == text@,
                it.seq() == chars,
                glyphs@ == glyphs_of(chars.take(it.index() as int)),
                forall|i: int|
                    0 <= i < it.index() && ' ' <= #[trigger] chars[i] <= '~' ==> char_width(chars[i]) == Some(
                        1usize,
                    ),
        {
            let ghost n = it.index() as int;
            glyphs.push(Glyph { width: display_width(c), len: utf8_len(c) });
            proof {
                assert(chars.take(n + 1) =~= chars.take(n).push(c));
                assert(glyphs@ =~= glyphs_of(chars.take(n + 1)));
            }
        }
        proof {
            assert(chars.take(chars.len() as int) =~= chars);
            lemma_bytes_of_glyphs(chars, chars.len() as int);
        }
        Self::from_glyphs(max_width, matches_offsets, &glyphs)
    }

    /// Finds the splits of a line from the glyphs of its characters, as
    /// [`SoftWrapper::new`] finds them from the text. The bytes of the line
    /// must be countable in a `usize`.
    pub fn from_glyphs(max_width: usize, matches_offsets: &Vec<(usize, usize)>, glyphs: &Vec<Glyph>) -> (wrapper: Self)
        requires
            byte_len(glyphs@) <= usize::MAX,
        ensures
            wrapper.positions@ == split_positions(max_width, matches_offsets@, glyphs@),
            is_ascending(wrapper.positions@),
            wrapper.positions@.to_multiset() == found_splits(max_width, matches_offsets@, glyphs@).to_multiset(),
    {
        let ghost cells = glyphs@;
        let mut breaks: Vec<SplitPosType> = Vec::new();
        let mut current_len: usize = 0;
        let mut byte_pos: usize = 0;
        let mut n: usize = 0;
        while n < glyphs.len()
            invariant
                cells == glyphs@,
                n <= cells.len(),
                byte_len(cells) <= usize::MAX,
                byte_pos == byte_offset(cells, n as int),
                current_len == width_after(max_width, cells, n as int),
                breaks@ == line_breaks(max_width, cells, n as int),
            decreases glyphs.len() - n,
        {
            proof {
                lemma_byte_offset_grows(cells, n + 1, cells.len() as int);
            }
            let glyph = glyphs[n];
            if let Some(c_width) = glyph.width {
                if current_len > max_width || c_width > max_width - current_len {
                    breaks.push(SplitPosType::Crlf(byte_pos));
                    current_len = c_width;
                } else {
                    current_len += c_width;
                }
            }
            byte_pos += glyph.len;
            n += 1;
        }

        let ghost found = breaks@;
        let mut positions = breaks;
        proof {
            lemma_line_breaks_ascending(max_width, cells, cells.len() as int);
            lemma_sort_of_ascending(found);
        }
        let mut i: usize = 0;
        assert(matches_offsets@.take(0) =~= Seq::<(usize, usize)>::empty());
        while i < matches_offsets.len()
            invariant
                i <= matches_offsets@.len(),
                found == line_breaks(max_width, cells, cells.len() as int) + match_splits(
                    matches_offsets@.take(i as int),
                ),
                positions@ == sort_by_position(found),
                is_ascending(positions@),
            decreases matches_offsets.len() - i,
        {
            let (start, end) = matches_offsets[i];
            let ghost with_start = found.push(SplitPosType::MatchStart(start));
            let ghost with_end = with_start.push(SplitPosType::MatchEnd(end));
            insert_split(&mut positions, SplitPosType::MatchStart(start));
            proof {
                assert(with_start.drop_last() =~= found);
                assert(positions@ == sort_by_position(with_start));
            }
            insert_split(&mut positions, SplitPosType::MatchEnd(end));
            proof {
                assert(with_end.drop_last() =~= with_start);
                assert(positions@ == sort_by_position(with_end));
                let taken = matches_offsets@.take(i + 1);
                assert(taken.drop_last() =~= matches_offsets@.take(i as int));
                assert(taken.last() == (start, end));
                assert(with_end =~= line_breaks(max_width, cells, cells.len() as int) + match_splits(taken));
                found = with_end;
            }
            i += 1;
        }
        proof {
            assert(matches_offsets@.take(i as int) =~= matches_offsets@);
            let all = found.push(SplitPosType::Crlf(byte_pos));
            assert(all.drop_last() =~= found);
            assert(all =~= found_splits(max_width, matches_offsets@, cells));
            lemma_sort_by_position(all);
        }
        insert_split(&mut positions, SplitPosType::Crlf(byte_pos));
        Self { positions }
    }
}

/// The bytes of glyphs are counted up: a longer part of a line from its
/// start takes no fewer bytes.
pub proof fn lemma_byte_offset_grows(glyphs: Seq<Glyph>, n: int, m: int)
    requires
        0 <= n <= m,
    ensures
        0 <= byte_offset(glyphs, n) <= byte_offset(glyphs, m),
    decreases m,
{
    if n < m {
        lemma_byte_offset_grows(glyphs, n, m - 1);
    } else if n > 0 {
        lemma_byte_offset_grows(glyphs, n - 1, m - 1);
    }
}

/// The glyphs of a text take the bytes of its UTF-8 encoding.
pub proof fn lemma_bytes_of_glyphs(text: Seq<char>, n: int)
    requires
        0 <= n <= text.len(),
    ensures
        byte_offset(glyphs_of(text), n) == encode_utf8(text.take(n)).len(),
    decreases n,
{
    if n > 0 {
        lemma_bytes_of_glyphs(text, n - 1);
        assert(text.take(n) =~= text.take(n - 1).push(text[n - 1]));
        lemma_encode_push(text.take(n - 1), text[n - 1]);
    } else {
        assert(text.take(0) =~= Seq::<char>::empty());
    }
}

/// The row ends of a line stand in ascending order, and not after the
/// bytes of the glyphs that were walked.
proof fn lemma_line_breaks_ascending(max_width: usize, glyphs: Seq<Glyph>, n: int)
    requires
        0 <= n <= glyphs.len(),
        byte_len(glyphs) <= usize::MAX,
    ensures
        is_ascending(line_breaks(max_width, glyphs, n)),
        forall|j: int|
            0 <= j < line_breaks(max_width, glyphs, n).len() ==> line_breaks(max_width, glyphs, n)[j].pos()
                <= byte_offset(glyphs, n),
    decreases n,
{
    if n > 0 {
        lemma_line_breaks_ascending(max_width, glyphs, n - 1);
        lemma_byte_offset_grows(glyphs, n - 1, n);
        lemma_byte_offset_grows(glyphs, n, glyphs.len() as int);
    }
}

} // verus!

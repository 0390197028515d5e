//! The rows of one searched file, ready to be appended to the result list.

use vstd::prelude::*;

use crate::grep_match::GrepMatch;
use crate::grep_match::GrepMatchView;
use crate::grep_match::offsets_view;

verus! {

/// Number of dashes in the text of a separator row.
pub const SEPARATOR_WIDTH: usize = 100;

/// The text that marks a gap between two context blocks of one file.
pub open spec fn separator_text() -> Seq<char> {
    Seq::new(SEPARATOR_WIDTH as nat, |i: int| '-')
}

/// A row of the result list.
pub enum EntryType {
    /// A file path, or the separator text.
    Header(String),
    /// A line of a file: line number, text, and the match ranges if the line matched.
    Match(u64, String, Option<Vec<(usize, usize)>>),
}

/// The mathematical value of an [`EntryType`].
pub enum Row {
    Header(Seq<char>),
    Match(u64, Seq<char>, Option<Seq<(usize, usize)>>),
}

impl View for EntryType {
    type V = Row;

    open spec fn view(&self) -> Row {
        match *self {
            EntryType::Header(name) => Row::Header(name@),
            EntryType::Match(n, text, offsets) => Row::Match(n, text@, offsets_view(offsets)),
        }
    }
}

impl Row {
    /// A header row that stands for a gap, not for a file.
    pub open spec fn is_separator(self) -> bool {
        self matches Row::Header(name) && name == separator_text()
    }

    /// A header row that names a file, and so owns the rows below it.
    pub open spec fn is_file_header(self) -> bool {
        self matches Row::Header(name) && name != separator_text()
    }

    /// A line that matched, as opposed to a context line or a header.
    pub open spec fn is_true_match(self) -> bool {
        self matches Row::Match(_, _, offsets) && offsets is Some
    }
}

/// The rows of a sequence of entries.
pub open spec fn rows_of(entries: Seq<EntryType>) -> Seq<Row> {
    entries.map_values(|e: EntryType| e@)
}

/// The row that a reported line becomes: a line whose text is the separator
/// text becomes a header, any other line keeps its three parts.
pub open spec fn row_of_match(m: GrepMatchView) -> Row {
    if m.text == separator_text() {
        Row::Header(m.text)
    } else {
        Row::Match(m.line_number, m.text, m.match_offsets)
    }
}

/// The rows of a file: its path as a header, then one row for each reported line.
pub open spec fn file_rows(name: Seq<char>, matches: Seq<GrepMatchView>) -> Seq<Row> {
    seq![Row::Header(name)] + matches.map_values(|m: GrepMatchView| row_of_match(m))
}

/// How many rows of `rows` satisfy `Row::is_true_match`.
pub open spec fn count_true_matches(rows: Seq<Row>) -> nat
    decreases rows.len(),
{
    if rows.len() == 0 {
        0
    } else {
        count_true_matches(rows.drop_last()) + if rows.last().is_true_match() {
            1nat
        } else {
            0nat
        }
    }
}

/// How many rows of `rows` are lines of a file, matched or context.
pub open spec fn count_match_rows(rows: Seq<Row>) -> nat
    decreases rows.len(),
{
    if rows.len() == 0 {
        0
    } else {
        count_match_rows(rows.drop_last()) + if rows.last() is Match {
            1nat
        } else {
            0nat
        }
    }
}

/// The separator text as a string.
pub fn separator() -> (s: String)
    ensures
        s@ == separator_text(),
{
    let s = "----------------------------------------------------------------------------------------------------";
    proof {
        reveal_strlit("----------------------------------------------------------------------------------------------------");
        assert(s@ =~= separator_text());
    }
    s.to_owned()
}

/// The result rows of one file.
pub struct FileEntry(Vec<EntryType>);

impl View for FileEntry {
    type V = Seq<Row>;

    closed spec fn view(&self) -> Seq<Row> {
        rows_of(self.0@)
    }
}

impl FileEntry {
    /// Lays out a file's rows: the path first, then the reported lines in
    /// order, each separator line turned into a header.
    pub fn new(name: String, matches: Vec<GrepMatch>) -> (entry: Self)
        ensures
            entry@ == file_rows(name@, matches@.map_values(|m: GrepMatch| m@)),
    {
        let ghost lines = matches@.map_values(|m: GrepMatch| m@);
        let sep = separator();
        let mut rows: Vec<EntryType> = Vec::new();
        rows.push(EntryType::Header(name));
        proof {
            assert(rows_of(rows@) =~= file_rows(name@, lines.take(0)));
        }
        for m in it: matches
            invariant
                sep@ == separator_text(),
                lines == matches@.map_values(|m: GrepMatch| m@),
                it.seq() == matches@,
                rows_of(rows@) == file_rows(name@, lines.take(it.index() as int)),
        {
            let ghost before = rows@;
            let ghost k = it.index() as int;
            let row = if m.text == sep {
                EntryType::Header(m.text)
            } else {
                EntryType::Match(m.line_number, m.text, m.match_offsets)
            };
            rows.push(row);
            proof {
                assert(row@ == row_of_match(m@));
                assert(lines.take(k + 1) =~= lines.take(k).push(m@));
                assert(rows_of(rows@) =~= rows_of(before).push(row@));
                assert(file_rows(name@, lines.take(k + 1)) =~= file_rows(name@, lines.take(k)).push(
                    row_of_match(m@),
                ));
            }
        }
        proof {
            assert(lines.take(matches@.len() as int) =~= lines);
        }
        Self(rows)
    }

    /// The number of lines of this file that matched. Context lines and
    /// separators are not counted.
    pub fn get_matches_count(&self) -> (count: usize)
        ensures
            count == count_true_matches(self@),
    {
        let mut count: usize = 0;
        let mut i: usize = 0;
        while i < self.0.len()
            invariant
                i <= self.0.len(),
                count <= i,
                count == count_true_matches(rows_of(self.0@).take(i as int)),
            decreases self.0.len() - i,
        {
            proof {
                let rows = rows_of(self.0@);
                assert(rows.take(i + 1).drop_last() =~= rows.take(i as int));
            }
            match &self.0[i] {
                EntryType::Match(_, _, Some(_)) => {
                    count += 1;
                },
                _ => {},
            }
            i += 1;
        }
        proof {
            assert(rows_of(self.0@).take(i as int) =~= rows_of(self.0@));
        }
        count
    }

    /// The number of rows, the header counted.
    pub fn len(&self) -> (len: usize)
        ensures
            len == self@.len(),
    {
        self.0.len()
    }

    /// Whether the rows can be added to a list: the first row names a file,
    /// and a line follows every header.
    pub fn is_file_block(&self) -> (ok: bool)
        ensures
            ok == crate::ui::result_list::is_file_block(self@),
    {
        let sep = separator();
        let len = self.0.len();
        if len == 0 {
            return false;
        }
        match &self.0[0] {
            EntryType::Header(name) => {
                if *name == sep {
                    return false;
                }
            },
            EntryType::Match(_, _, _) => {
                return false;
            },
        }
        let mut i: usize = 0;
        while i < len
            invariant
                len == self.0.len(),
                i <= len,
                self@[0].is_file_header(),
                forall|j: int| 0 <= j < i && #[trigger] self@[j] is Header ==> j + 1 < len && self@[j + 1] is Match,
            decreases len - i,
        {
            if matches!(self.0[i], EntryType::Header(_)) {
                if i + 1 >= len {
                    assert(self@[i as int] is Header);
                    return false;
                }
                if matches!(self.0[i + 1], EntryType::Header(_)) {
                    assert(self@[i as int] is Header);
                    return false;
                }
            }
            i += 1;
        }
        true
    }

    /// Hands the rows over.
    pub fn get_entries(self) -> (entries: Vec<EntryType>)
        ensures
            rows_of(entries@) == self@,
    {
        self.0
    }
}

} // verus!

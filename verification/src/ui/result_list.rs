//! The flat list of results: headers and lines of all files, one selection,
//! and the counters shown beside it.
//!
//! [`ResultListView`] is the list as a mathematical value, with every
//! operation as a function on it. [`ResultList`] is the executable list; each
//! of its methods is stated to do what the function of the same name on the
//! view does.

use vstd::prelude::*;

use crate::file_entry::count_match_rows;
use crate::file_entry::count_true_matches;
use crate::file_entry::rows_of;
use crate::file_entry::EntryType;
use crate::file_entry::FileEntry;
use crate::file_entry::Row;
use crate::ui::scroll_offset_list::ListState;
use crate::ui::scroll_offset_list::ListStateView;
use crate::ui::scroll_offset_list::NUM_OF_SHOW;

verus! {

/// A jump over more entries than this moves the first shown entry as well.
/// It is also the number of entries shown before the end of the list.
pub const JUMP_THRESHOLD: usize = 100;

/// The mathematical value of a [`ResultList`].
pub struct ResultListView {
    /// The rows, in display order.
    pub rows: Seq<Row>,
    /// Selection and window.
    pub state: ListStateView,
    /// Whether long lines are cut into several display rows.
    pub wrap: bool,
    /// Files added since the list was made.
    pub file_entries_count: nat,
    /// Matching lines added since the list was made.
    pub matches_count: nat,
    /// Rows taken away by the user, headers of files not counted.
    pub filtered_matches_count: nat,
}

/// The rows of a file as they may be added to a list: a file header first,
/// and a line after every header.
pub open spec fn is_file_block(rows: Seq<Row>) -> bool {
    &&& rows.len() > 0
    &&& rows[0].is_file_header()
    &&& forall|j: int| 0 <= j < rows.len() && #[trigger] rows[j] is Header ==> j + 1 < rows.len() && rows[j + 1] is Match
}

/// The position of the nearest header at or before `from`, or -1.
pub open spec fn header_at_or_before(rows: Seq<Row>, from: int) -> int
    decreases from + 1,
{
    if from < 0 {
        -1
    } else if rows[from] is Header {
        from
    } else {
        header_at_or_before(rows, from - 1)
    }
}

/// The position of the nearest header at or after `from`, or the length of `rows`.
pub open spec fn header_at_or_after(rows: Seq<Row>, from: int) -> int
    decreases rows.len() - from,
{
    if from >= rows.len() {
        rows.len() as int
    } else if rows[from] is Header {
        from
    } else {
        header_at_or_after(rows, from + 1)
    }
}

/// The position of the nearest file header at or before `from`, or -1.
/// Separators are passed over.
pub open spec fn file_header_at_or_before(rows: Seq<Row>, from: int) -> int
    decreases from + 1,
{
    if from < 0 {
        -1
    } else if rows[from].is_file_header() {
        from
    } else {
        file_header_at_or_before(rows, from - 1)
    }
}

/// The position of the nearest file header at or after `from`, or the
/// length of `rows`. Separators are passed over.
pub open spec fn file_header_at_or_after(rows: Seq<Row>, from: int) -> int
    decreases rows.len() - from,
{
    if from >= rows.len() {
        rows.len() as int
    } else if rows[from].is_file_header() {
        from
    } else {
        file_header_at_or_after(rows, from + 1)
    }
}

/// Where the selection goes from `i` on a step forward: to the next row, or
/// to the one after it if the next row is a header; nowhere from the last row.
pub open spec fn next_match_index(rows: Seq<Row>, i: int) -> int {
    if i + 1 >= rows.len() {
        i
    } else if rows[i + 1] is Header {
        i + 2
    } else {
        i + 1
    }
}

/// Where the selection goes from `i` on a step back: to the row before, or
/// to the one before that if the row before is a header; never before row 1.
pub open spec fn previous_match_index(rows: Seq<Row>, i: int) -> int {
    if i <= 1 {
        1
    } else if rows[i - 1] is Header {
        i - 2
    } else {
        i - 1
    }
}

/// Where the selection goes from `i` on a step to the next block: to the row
/// after the next header, or nowhere if no header follows.
pub open spec fn next_file_index(rows: Seq<Row>, i: int) -> int {
    let h = header_at_or_after(rows, i + 1);
    if h + 1 < rows.len() {
        h + 1
    } else {
        i
    }
}

/// Where the selection goes from `i` on a step to the block before: to the
/// row after the header before the header of its own block, or nowhere if
/// its block is the first.
pub open spec fn previous_file_index(rows: Seq<Row>, i: int) -> int {
    let own = header_at_or_before(rows, i - 1);
    if own <= 0 {
        i
    } else {
        header_at_or_before(rows, own - 1) + 1
    }
}

/// Where a jump to `line` lands in at least two rows: on `line` brought into
/// the range from 1 to the last row, and one row further if that is a header.
pub open spec fn landing_index(rows: Seq<Row>, line: int) -> int {
    let clamped = if line < 1 {
        1
    } else if line > rows.len() - 1 {
        rows.len() - 1
    } else {
        line
    };
    if rows[clamped] is Header {
        clamped + 1
    } else {
        clamped
    }
}

/// The first shown entry after a jump from `current` to `landing` in `len`
/// rows: unchanged after a short jump; after a long one the landing row, or
/// the row `JUMP_THRESHOLD` before the end if the landing row is nearer to
/// the end than that.
pub open spec fn offset_after_jump(offset: usize, len: int, current: int, landing: int) -> int {
    if landing - current > JUMP_THRESHOLD || current - landing > JUMP_THRESHOLD {
        if len - landing < JUMP_THRESHOLD {
            tail_offset(len)
        } else {
            landing
        }
    } else {
        offset as int
    }
}

/// The first shown entry that leaves the last `JUMP_THRESHOLD` rows in view.
pub open spec fn tail_offset(len: int) -> int {
    if len > JUMP_THRESHOLD {
        len - JUMP_THRESHOLD
    } else {
        0
    }
}

/// Whether row `i` is the only line below its header: a header stands
/// before it, and a header or nothing after it.
pub open spec fn is_only_match(rows: Seq<Row>, i: int) -> bool {
    rows[i - 1] is Header && (i == rows.len() - 1 || rows[i + 1] is Header)
}

impl ResultListView {
    /// The list that holds nothing.
    pub open spec fn empty() -> ResultListView {
        ResultListView {
            rows: Seq::empty(),
            state: ListStateView::initial(),
            wrap: false,
            file_entries_count: 0,
            matches_count: 0,
            filtered_matches_count: 0,
        }
    }

    /// What holds of every list.
    ///
    /// A list with rows starts with a file header. After every header comes a
    /// line. The selection is a line, and there is one exactly if there are
    /// rows. The rows and the count of rows taken away fit in a `usize`
    /// together.
    pub open spec fn wf(self) -> bool {
        &&& self.rows.len() > 0 ==> self.rows[0].is_file_header()
        &&& forall|j: int|
            0 <= j < self.rows.len() && #[trigger] self.rows[j] is Header ==> j + 1 < self.rows.len()
                && self.rows[j + 1] is Match
        &&& self.state.selected matches Some(i) ==> 1 <= i < self.rows.len() && self.rows[i as int] is Match
        &&& self.state.selected is None <==> self.rows.len() == 0
        &&& self.rows.len() + self.filtered_matches_count <= usize::MAX
    }

    /// Whether the rows of a file can be added: they are a file block, and
    /// the counters and the rows stay within a `usize`.
    pub open spec fn accepts(self, file: Seq<Row>) -> bool {
        &&& is_file_block(file)
        &&& self.file_entries_count < usize::MAX
        &&& self.matches_count + count_true_matches(file) <= usize::MAX
        &&& self.rows.len() + file.len() + self.filtered_matches_count <= usize::MAX
    }

    /// The list with another selection.
    pub open spec fn select(self, index: Option<usize>) -> ResultListView {
        ResultListView { state: self.state.select(index), ..self }
    }

    /// The position of the selection, or 0 without one.
    pub open spec fn current(self) -> int {
        match self.state.selected {
            Some(i) => i as int,
            None => 0,
        }
    }

    /// The list after the rows of a file are added at its end. The file and
    /// its matching lines are counted. If nothing was selected, the first
    /// line is.
    pub open spec fn add_entry(self, file: Seq<Row>) -> ResultListView {
        let added = ResultListView {
            rows: self.rows + file,
            file_entries_count: self.file_entries_count + 1,
            matches_count: self.matches_count + count_true_matches(file),
            ..self
        };
        if self.state.selected is None {
            added.next_match()
        } else {
            added
        }
    }

    /// The list after the files of `files` are added one after another.
    pub open spec fn add_entries(self, files: Seq<Seq<Row>>) -> ResultListView
        decreases files.len(),
    {
        if files.len() == 0 {
            self
        } else {
            self.add_entries(files.drop_last()).add_entry(files.last())
        }
    }

    /// The list with wrapping of long lines switched.
    pub open spec fn toggel_text_wrapper(self) -> ResultListView {
        ResultListView { wrap: !self.wrap, ..self }
    }

    /// The list after a jump to row `line`.
    pub open spec fn jump_to(self, line: usize) -> ResultListView {
        if self.rows.len() == 0 {
            self
        } else {
            self.jump_landing(landing_index(self.rows, line as int))
        }
    }

    /// The list after a jump by `delta` rows. Without a selection the jump
    /// goes to row 1.
    pub open spec fn jump_to_relative(self, delta: i32) -> ResultListView {
        if self.rows.len() == 0 {
            self
        } else {
            let landing = match self.state.selected {
                Some(i) => landing_index(self.rows, i + delta),
                None => 1,
            };
            self.jump_landing(landing)
        }
    }

    /// The list after the selection has gone to `landing` in a jump.
    pub open spec fn jump_landing(self, landing: int) -> ResultListView {
        let offset = offset_after_jump(self.state.offset, self.rows.len() as int, self.current(), landing);
        ResultListView { state: self.state.with_offset(offset as usize).select(Some(landing as usize)), ..self }
    }

    /// The list after a step to the next line.
    pub open spec fn next_match(self) -> ResultListView {
        if self.rows.len() == 0 {
            self
        } else {
            match self.state.selected {
                Some(i) => self.select(Some(next_match_index(self.rows, i as int) as usize)),
                None => self.select(Some(1)),
            }
        }
    }

    /// The list after a step to the line before.
    pub open spec fn previous_match(self) -> ResultListView {
        if self.rows.len() == 0 {
            self
        } else {
            match self.state.selected {
                Some(i) => self.select(Some(previous_match_index(self.rows, i as int) as usize)),
                None => self.select(Some(1)),
            }
        }
    }

    /// The list after a step to the first line of the next block.
    pub open spec fn next_file(self) -> ResultListView {
        if self.rows.len() == 0 {
            self
        } else {
            match self.state.selected {
                Some(i) => self.select(Some(next_file_index(self.rows, i as int) as usize)),
                None => self.select(Some(1)),
            }
        }
    }

    /// The list after a step to the first line of the block before.
    pub open spec fn previous_file(self) -> ResultListView {
        if self.rows.len() == 0 {
            self
        } else {
            match self.state.selected {
                Some(i) => self.select(Some(previous_file_index(self.rows, i as int) as usize)),
                None => self.select(Some(1)),
            }
        }
    }

    /// The list with its first line selected and shown from its start.
    pub open spec fn top(self) -> ResultListView {
        if self.rows.len() == 0 {
            self
        } else {
            ResultListView { state: self.state.select(Some(1)).with_offset(0), ..self }
        }
    }

    /// The list with its last row selected and its last `JUMP_THRESHOLD` rows in view.
    pub open spec fn bottom(self) -> ResultListView {
        if self.rows.len() == 0 {
            self
        } else {
            ResultListView {
                state: self.state.select(Some((self.rows.len() - 1) as usize)).with_offset(
                    tail_offset(self.rows.len() as int) as usize,
                ),
                ..self
            }
        }
    }

    /// The list without the selected line, or without its whole file if that
    /// line is the only one below its header.
    pub open spec fn remove_current_entry(self) -> ResultListView {
        if self.rows.len() == 0 {
            self
        } else if is_only_match(self.rows, self.current()) {
            self.remove_current_file()
        } else {
            self.remove_selected_row()
        }
    }

    /// The list without the selected row. The selection stays at its
    /// position, or goes one row back if no line is left there.
    pub open spec fn remove_selected_row(self) -> ResultListView {
        let i = self.current();
        let rows = self.rows.remove(i);
        let removed = ResultListView { rows, filtered_matches_count: self.filtered_matches_count + 1, ..self };
        if i >= rows.len() || rows[i] is Header {
            removed.select(Some((i - 1) as usize))
        } else {
            removed
        }
    }

    /// The first row of the file that holds the selection.
    pub open spec fn current_file_start(self) -> int {
        file_header_at_or_before(self.rows, self.current() - 1)
    }

    /// The row after the last row of the file that holds the selection.
    pub open spec fn current_file_end(self) -> int {
        file_header_at_or_after(self.rows, self.current())
    }

    /// The list without the file that holds the selection. Every row of the
    /// file but its header counts as taken away. The selection goes to the
    /// row before the file, or stays at row 1; it is cleared with the last file.
    pub open spec fn remove_current_file(self) -> ResultListView {
        if self.rows.len() == 0 {
            self
        } else {
            let start = self.current_file_start();
            let end = self.current_file_end();
            let rows = self.rows.subrange(0, start) + self.rows.subrange(end, self.rows.len() as int);
            let removed = ResultListView {
                rows,
                filtered_matches_count: (self.filtered_matches_count + (end - start - 1)) as nat,
                ..self
            };
            if rows.len() == 0 {
                removed.select(None)
            } else if self.current() != 1 {
                removed.select(
                    Some(
                        if start >= 2 {
                            (start - 1) as usize
                        } else {
                            1
                        },
                    ),
                )
            } else {
                removed
            }
        }
    }

    /// The file and the line number of the selection: the name of the nearest
    /// file header before it, and the number of the selected line.
    pub open spec fn selected_entry(self) -> Option<(Seq<char>, u64)> {
        match self.state.selected {
            Some(i) => Some((self.rows[self.current_file_start()]->Header_0, self.rows[i as int]->Match_0)),
            None => None,
        }
    }

    /// The rows that are laid out for drawing: `NUM_OF_SHOW` rows from the
    /// start of the band, as far as there are rows. The pair holds the first
    /// of them and the one after the last.
    pub open spec fn band(self) -> (int, int) {
        let end = if self.state.skip + NUM_OF_SHOW < self.rows.len() {
            self.state.skip + NUM_OF_SHOW
        } else {
            self.rows.len() as int
        };
        (
            if self.state.skip < end {
                self.state.skip as int
            } else {
                end
            },
            end,
        )
    }

    /// Selection and first shown entry counted from the start of the band,
    /// for drawing the rows of the band alone. Positions before the band
    /// count as its start.
    pub open spec fn band_state(self) -> ListStateView {
        let start = self.band().0;
        ListStateView {
            skip: 0,
            offset: if self.state.offset > start {
                (self.state.offset - start) as usize
            } else {
                0
            },
            selected: match self.state.selected {
                Some(i) => Some(
                    if i > start {
                        (i - start) as usize
                    } else {
                        0usize
                    },
                ),
                None => None,
            },
        }
    }

    /// The list with the first shown entry at `offset` rows from the start
    /// of the band.
    pub open spec fn with_band_offset(self, offset: usize) -> ResultListView {
        let start = self.band().0;
        ResultListView {
            state: self.state.with_offset(
                if start + offset > usize::MAX {
                    usize::MAX
                } else {
                    (start + offset) as usize
                },
            ),
            ..self
        }
    }

    /// The position of the selection among the lines, counted from 1; 0 without one.
    pub open spec fn current_match_index(self) -> nat {
        match self.state.selected {
            Some(i) => count_match_rows(self.rows.take(i as int)) + 1,
            None => 0,
        }
    }
}

/// A header was found, at or before the start, and no header lies between
/// it and the start.
pub proof fn lemma_header_at_or_before(rows: Seq<Row>, from: int)
    requires
        -1 <= from < rows.len(),
    ensures
        -1 <= header_at_or_before(rows, from) <= from,
        header_at_or_before(rows, from) >= 0 ==> rows[header_at_or_before(rows, from)] is Header,
        forall|j: int| header_at_or_before(rows, from) < j <= from ==> !(#[trigger] rows[j] is Header),
    decreases from + 1,
{
    if from >= 0 && !(rows[from] is Header) {
        lemma_header_at_or_before(rows, from - 1);
    }
}

/// A header was found, at or after the start, and no header lies between
/// the start and it.
pub proof fn lemma_header_at_or_after(rows: Seq<Row>, from: int)
    requires
        0 <= from <= rows.len(),
    ensures
        from <= header_at_or_after(rows, from) <= rows.len(),
        header_at_or_after(rows, from) < rows.len() ==> rows[header_at_or_after(rows, from)] is Header,
        forall|j: int| from <= j < header_at_or_after(rows, from) ==> !(#[trigger] rows[j] is Header),
    decreases rows.len() - from,
{
    if from < rows.len() && !(rows[from] is Header) {
        lemma_header_at_or_after(rows, from + 1);
    }
}

/// A file header was found, at or before the start, and no file header lies
/// between it and the start.
pub proof fn lemma_file_header_at_or_before(rows: Seq<Row>, from: int)
    requires
        -1 <= from < rows.len(),
    ensures
        -1 <= file_header_at_or_before(rows, from) <= from,
        file_header_at_or_before(rows, from) >= 0 ==> rows[file_header_at_or_before(rows, from)].is_file_header(),
        forall|j: int|
            file_header_at_or_before(rows, from) < j <= from ==> !(#[trigger] rows[j]).is_file_header(),
        (from >= 0 && rows[0].is_file_header()) ==> file_header_at_or_before(rows, from) >= 0,
    decreases from + 1,
{
    if from >= 0 && !rows[from].is_file_header() {
        lemma_file_header_at_or_before(rows, from - 1);
    }
}

/// A file header was found, at or after the start, and no file header lies
/// between the start and it.
pub proof fn lemma_file_header_at_or_after(rows: Seq<Row>, from: int)
    requires
        0 <= from <= rows.len(),
    ensures
        from <= file_header_at_or_after(rows, from) <= rows.len(),
        file_header_at_or_after(rows, from) < rows.len() ==> rows[file_header_at_or_after(
            rows,
            from,
        )].is_file_header(),
        forall|j: int|
            from <= j < file_header_at_or_after(rows, from) ==> !(#[trigger] rows[j]).is_file_header(),
    decreases rows.len() - from,
{
    if from < rows.len() && !rows[from].is_file_header() {
        lemma_file_header_at_or_after(rows, from + 1);
    }
}

/// A step forward and then a step back returns to the selection, unless the
/// selection is the last row: there the step forward stays.
pub proof fn lemma_next_then_previous(list: ResultListView)
    requires
        list.wf(),
        list.rows.len() > 0,
    ensures
        list.current() + 1 < list.rows.len() ==> list.next_match().previous_match().state.selected
            == list.state.selected,
        list.current() + 1 == list.rows.len() ==> list.next_match().state.selected == list.state.selected,
        list.next_match().wf(),
        list.next_match().previous_match().wf(),
{
    let i = list.current();
    assert(list.rows[i] is Match);
    let next = list.next_match();
    lemma_next_match_wf(list);
    lemma_previous_match_wf(next);
}

/// A step forward keeps a list well formed.
pub proof fn lemma_next_match_wf(list: ResultListView)
    requires
        list.wf(),
    ensures
        list.next_match().wf(),
{
    if list.rows.len() > 0 {
        let i = list.current();
        if i + 1 < list.rows.len() && list.rows[i + 1] is Header {
            assert(list.rows[i + 2] is Match);
        }
    }
}

/// A step back keeps a list well formed.
pub proof fn lemma_previous_match_wf(list: ResultListView)
    requires
        list.wf(),
    ensures
        list.previous_match().wf(),
{
    if list.rows.len() > 0 {
        let i = list.current();
        assert(list.rows[0] is Header);
        assert(list.rows[1] is Match);
        if i > 1 && list.rows[i - 1] is Header {
            assert(i - 1 != 1);
            if list.rows[i - 2] is Header {
                assert(list.rows[i - 2 + 1] is Match);
            }
        }
    }
}

/// The list of results.
///
/// Every list is well formed, as [`ResultListView::wf`] says.
pub struct ResultList {
    entries: Vec<EntryType>,
    state: ListState,
    wrap: bool,
    file_entries_count: usize,
    matches_count: usize,
    filtered_matches_count: usize,
}

impl View for ResultList {
    type V = ResultListView;

    closed spec fn view(&self) -> ResultListView {
        ResultListView {
            rows: rows_of(self.entries@),
            state: self.state@,
            wrap: self.wrap,
            file_entries_count: self.file_entries_count as nat,
            matches_count: self.matches_count as nat,
            filtered_matches_count: self.filtered_matches_count as nat,
        }
    }
}

impl Default for ResultList {
    fn default() -> (list: Self)
        ensures
            list@ == ResultListView::empty(),
            list@.wf(),
    {
        let entries: Vec<EntryType> = Vec::new();
        assert(rows_of(entries@) =~= Seq::<Row>::empty());
        ResultList {
            entries,
            state: ListState::default(),
            wrap: false,
            file_entries_count: 0,
            matches_count: 0,
            filtered_matches_count: 0,
        }
    }
}

/// Whether row `index` is a header.
fn is_header(entries: &Vec<EntryType>, index: usize) -> (header: bool)
    requires
        index < entries@.len(),
    ensures
        header == (rows_of(entries@)[index as int] is Header),
{
    matches!(entries[index], EntryType::Header(_))
}

/// Whether row `index` is the header of a file.
fn is_file_header(entries: &Vec<EntryType>, index: usize, separator: &String) -> (header: bool)
    requires
        index < entries@.len(),
        separator@ == crate::file_entry::separator_text(),
    ensures
        header == rows_of(entries@)[index as int].is_file_header(),
{
    match &entries[index] {
        EntryType::Header(name) => !(*name == *separator),
        EntryType::Match(_, _, _) => false,
    }
}

/// The nearest header at or before `from`.
fn header_before(entries: &Vec<EntryType>, from: usize) -> (index: usize)
    requires
        from < entries@.len(),
        rows_of(entries@)[0] is Header,
    ensures
        index == header_at_or_before(rows_of(entries@), from as int),
        index <= from,
        rows_of(entries@)[index as int] is Header,
{
    let mut index = from;
    while !is_header(entries, index)
        invariant
            index <= from < entries@.len(),
            rows_of(entries@)[0] is Header,
            header_at_or_before(rows_of(entries@), index as int) == header_at_or_before(
                rows_of(entries@),
                from as int,
            ),
        decreases index,
    {
        index -= 1;
    }
    index
}

/// The nearest file header at or before `from`.
fn file_header_before(entries: &Vec<EntryType>, from: usize) -> (index: usize)
    requires
        from < entries@.len(),
        rows_of(entries@)[0].is_file_header(),
    ensures
        index == file_header_at_or_before(rows_of(entries@), from as int),
        index <= from,
        rows_of(entries@)[index as int].is_file_header(),
{
    let separator = crate::file_entry::separator();
    let mut index = from;
    while !is_file_header(entries, index, &separator)
        invariant
            separator@ == crate::file_entry::separator_text(),
            index <= from < entries@.len(),
            rows_of(entries@)[0].is_file_header(),
            file_header_at_or_before(rows_of(entries@), index as int) == file_header_at_or_before(
                rows_of(entries@),
                from as int,
            ),
        decreases index,
    {
        index -= 1;
    }
    index
}

/// The nearest file header at or after `from`, or the number of rows.
fn file_header_after(entries: &Vec<EntryType>, from: usize) -> (index: usize)
    requires
        from <= entries@.len(),
    ensures
        index == file_header_at_or_after(rows_of(entries@), from as int),
        from <= index <= entries@.len(),
{
    let separator = crate::file_entry::separator();
    let len = entries.len();
    let mut index = from;
    while index < len && !is_file_header(entries, index, &separator)
        invariant
            separator@ == crate::file_entry::separator_text(),
            len == entries@.len(),
            from <= index <= len,
            file_header_at_or_after(rows_of(entries@), index as int) == file_header_at_or_after(
                rows_of(entries@),
                from as int,
            ),
        decreases len - index,
    {
        index += 1;
    }
    index
}

/// The number of lines among the first `until` rows.
fn count_lines(entries: &Vec<EntryType>, until: usize) -> (count: usize)
    requires
        until <= entries@.len(),
    ensures
        count == count_match_rows(rows_of(entries@).take(until as int)),
        count <= until,
{
    let ghost rows = rows_of(entries@);
    let mut count: usize = 0;
    let mut i: usize = 0;
    while i < until
        invariant
            rows == rows_of(entries@),
            i <= until <= entries@.len(),
            count <= i,
            count == count_match_rows(rows.take(i as int)),
        decreases until - i,
    {
        proof {
            assert(rows.take(i + 1).drop_last() =~= rows.take(i as int));
        }
        if !is_header(entries, i) {
            count += 1;
        }
        i += 1;
    }
    count
}

impl ResultList {
    #[verifier::type_invariant]
    spec fn well_formed(self) -> bool {
        self@.wf()
    }

    /// Takes the list out and leaves an empty one.
    fn take(&mut self) -> (taken: Self)
        ensures
            taken@ == old(self)@,
            taken@.wf(),
            final(self)@ == ResultListView::empty(),
    {
        proof {
            use_type_invariant(&*self);
        }
        let mut taken = ResultList::default();
        core::mem::swap(self, &mut taken);
        taken
    }

    /// Whether `entry` can be added now.
    pub fn accepts(&self, entry: &FileEntry) -> (ok: bool)
        ensures
            ok == self@.accepts(entry@),
            self@.wf(),
    {
        proof {
            use_type_invariant(self);
        }
        entry.is_file_block() && self.file_entries_count < usize::MAX && entry.get_matches_count()
            <= usize::MAX - self.matches_count && self.filtered_matches_count <= usize::MAX
            - self.entries.len() && entry.len() <= usize::MAX - self.entries.len()
            - self.filtered_matches_count
    }

    /// Adds the rows of a file at the end of the list.
    pub fn add_entry(&mut self, entry: FileEntry)
        requires
            old(self)@.accepts(entry@),
        ensures
            final(self)@ == old(self)@.add_entry(entry@),
            final(self)@.wf(),
    {
        let taken = self.take();
        let ResultList { entries, state, wrap, file_entries_count, matches_count, filtered_matches_count } =
            taken;
        let mut entries = entries;
        let mut state = state;
        let added = entry.get_matches_count();
        let mut rows = entry.get_entries();
        let ghost file = rows_of(rows@);
        let ghost before = rows_of(entries@);
        entries.append(&mut rows);
        assert(rows_of(entries@) =~= before + file);
        if state.selected().is_none() {
            assert(file[0] is Header);
            state.select(Some(1));
        }
        *self = ResultList {
            entries,
            state,
            wrap,
            file_entries_count: file_entries_count + 1,
            matches_count: matches_count + added,
            filtered_matches_count,
        };
    }

    /// Switches the cutting of long lines on or off.
    pub fn toggel_text_wrapper(&mut self)
        ensures
            final(self)@ == old(self)@.toggel_text_wrapper(),
    {
        proof {
            use_type_invariant(&*self);
        }
        self.wrap = !self.wrap;
    }

    /// Whether long lines are cut into several display rows.
    pub fn is_text_wrapped(&self) -> (wrap: bool)
        ensures
            wrap == self@.wrap,
    {
        self.wrap
    }

    /// Selection and window.
    pub fn get_state(&self) -> (state: &ListState)
        ensures
            state@ == self@.state,
            self@.wf(),
    {
        proof {
            use_type_invariant(self);
        }
        &self.state
    }

    /// Takes the band and the first shown entry of `state`, which a render
    /// may have moved. The selection stays as it is.
    pub fn set_state(&mut self, state: ListState)
        ensures
            final(self)@ == (ResultListView {
                state: ListStateView { selected: old(self)@.state.selected, ..state@ },
                ..old(self)@
            }),
            final(self)@.wf(),
    {
        proof {
            use_type_invariant(&*self);
        }
        let mut moved = self.state;
        moved.set_skip(state.get_skip());
        moved.set_offset(state.offset());
        self.state = moved;
    }

    pub fn entries(&self) -> (entries: &Vec<EntryType>)
        ensures
            rows_of(entries@) == self@.rows,
            self@.wf(),
    {
        proof {
            use_type_invariant(self);
        }
        &self.entries
    }

    /// The rows, one after another.
    pub fn iter(&self) -> (rows: std::slice::Iter<'_, EntryType>)
        ensures
            rows_of(vstd::std_specs::slice::into_iter_elts(rows)) == self@.rows,
    {
        let rows = self.entries.iter();
        proof {
            broadcast use vstd::std_specs::slice::axiom_spec_slice_iter;

            assert(vstd::std_specs::slice::into_iter_elts(rows) =~= self.entries@);
        }
        rows
    }

    pub fn is_empty(&self) -> (empty: bool)
        ensures
            empty == (self@.rows.len() == 0),
    {
        self.entries.is_empty()
    }

    /// The number of rows.
    pub fn len(&self) -> (len: usize)
        ensures
            len == self@.rows.len(),
    {
        self.entries.len()
    }

    /// Whether the selected line is the only one below its header.
    fn is_last_match_in_file(&self) -> (only: bool)
        requires
            self@.rows.len() > 0,
        ensures
            only == is_only_match(self@.rows, self@.current()),
    {
        proof {
            use_type_invariant(self);
        }
        let current_index = self.state.selected().unwrap_or(1);
        is_header(&self.entries, current_index - 1) && (current_index == self.entries.len() - 1 || is_header(
            &self.entries,
            current_index + 1,
        ))
    }

    /// Jumps to row `line`: to row 1 if `line` is 0, to the last row if
    /// `line` lies past it, and to the row after `line` if that is a header.
    /// The first shown entry moves only on a jump over more than
    /// `JUMP_THRESHOLD` rows.
    pub fn jump_to(&mut self, line: usize)
        ensures
            final(self)@ == old(self)@.jump_to(line),
            final(self)@.wf(),
    {
        proof {
            use_type_invariant(&*self);
        }
        if self.is_empty() {
            return ;
        }
        proof {
            lemma_landing_is_match(self@, line as int);
        }
        let last = self.entries.len() - 1;
        let clamped = if line < 1 {
            1
        } else if line > last {
            last
        } else {
            line
        };
        let landing = if is_header(&self.entries, clamped) {
            clamped + 1
        } else {
            clamped
        };
        self.jump(landing);
    }

    /// Jumps `delta` rows forward, or back if `delta` is negative, as
    /// [`ResultList::jump_to`] jumps to a row.
    pub fn jump_to_relative(&mut self, delta: i32)
        ensures
            final(self)@ == old(self)@.jump_to_relative(delta),
            final(self)@.wf(),
    {
        proof {
            use_type_invariant(&*self);
        }
        if self.is_empty() {
            return ;
        }
        let landing = match self.state.selected() {
            Some(i) => {
                proof {
                    lemma_landing_is_match(self@, i + delta);
                }
                let last = self.entries.len() - 1;
                let line: i128 = i as i128 + delta as i128;
                let clamped = if line < 1 {
                    1
                } else if line > last as i128 {
                    last
                } else {
                    line as usize
                };
                if is_header(&self.entries, clamped) {
                    clamped + 1
                } else {
                    clamped
                }
            },
            None => 1,
        };
        self.jump(landing);
    }

    fn jump(&mut self, landing: usize)
        requires
            1 <= landing < old(self)@.rows.len(),
            old(self)@.rows[landing as int] is Match,
        ensures
            final(self)@ == old(self)@.jump_landing(landing as int),
            final(self)@.wf(),
    {
        proof {
            use_type_invariant(&*self);
        }
        let len = self.entries.len();
        let current = self.state.selected().unwrap_or(0);
        let far = if landing > current {
            landing - current > JUMP_THRESHOLD
        } else {
            current - landing > JUMP_THRESHOLD
        };
        let mut state = self.state;
        if far {
            if len - landing < JUMP_THRESHOLD {
                state.set_offset(len.saturating_sub(JUMP_THRESHOLD));
            } else {
                state.set_offset(landing);
            }
        }
        state.select(Some(landing));
        assert(state@ == old(self)@.jump_landing(landing as int).state);
        self.state = state;
    }

    /// Selects row `index`, which is a line.
    fn select(&mut self, index: usize)
        requires
            1 <= index < old(self)@.rows.len(),
            old(self)@.rows[index as int] is Match,
        ensures
            final(self)@ == old(self)@.select(Some(index)),
            final(self)@.wf(),
    {
        proof {
            use_type_invariant(&*self);
        }
        let mut state = self.state;
        state.select(Some(index));
        self.state = state;
    }

    /// Selects the next line, passing over a header. The last row stays selected.
    pub fn next_match(&mut self)
        ensures
            final(self)@ == old(self)@.next_match(),
            final(self)@.wf(),
    {
        proof {
            use_type_invariant(&*self);
            lemma_next_match_wf(self@);
        }
        if self.is_empty() {
            return ;
        }
        let index = match self.state.selected() {
            Some(i) => {
                if i == self.entries.len() - 1 {
                    i
                } else if is_header(&self.entries, i + 1) {
                    i + 2
                } else {
                    i + 1
                }
            },
            None => 1,
        };
        self.select(index);
    }

    /// Selects the line before, passing over a header. Row 1 stays selected.
    pub fn previous_match(&mut self)
        ensures
            final(self)@ == old(self)@.previous_match(),
            final(self)@.wf(),
    {
        proof {
            use_type_invariant(&*self);
            lemma_previous_match_wf(self@);
        }
        if self.is_empty() {
            return ;
        }
        let index = match self.state.selected() {
            Some(i) => {
                if i == 1 {
                    1
                } else if is_header(&self.entries, i - 1) {
                    i - 2
                } else {
                    i - 1
                }
            },
            None => 1,
        };
        self.select(index);
    }

    /// Selects the first line below the next header. Nothing changes in the
    /// last block.
    pub fn next_file(&mut self)
        ensures
            final(self)@ == old(self)@.next_file(),
            final(self)@.wf(),
    {
        proof {
            use_type_invariant(&*self);
        }
        if self.is_empty() {
            return ;
        }
        let len = self.entries.len();
        let ghost rows = self@.rows;
        let index = match self.state.selected() {
            Some(i) => {
                let mut next_index = i + 1;
                while next_index < len && !is_header(&self.entries, next_index)
                    invariant
                        rows == rows_of(self.entries@),
                        len == rows.len(),
                        i < next_index <= len,
                        header_at_or_after(rows, next_index as int) == header_at_or_after(rows, i + 1),
                    decreases len - next_index,
                {
                    next_index += 1;
                }
                if next_index < len {
                    assert(rows[next_index as int] is Header);
                    next_index + 1
                } else {
                    i
                }
            },
            None => 1,
        };
        self.select(index);
    }

    /// Selects the first line of the block before the one that holds the
    /// selection. Nothing changes in the first block.
    pub fn previous_file(&mut self)
        ensures
            final(self)@ == old(self)@.previous_file(),
            final(self)@.wf(),
    {
        proof {
            use_type_invariant(&*self);
        }
        if self.is_empty() {
            return ;
        }
        assert(self@.rows[0] is Header);
        let index = match self.state.selected() {
            Some(i) => {
                let own = header_before(&self.entries, i - 1);
                if own == 0 {
                    i
                } else {
                    let before = header_before(&self.entries, own - 1);
                    assert(self@.rows[before as int] is Header);
                    before + 1
                }
            },
            None => 1,
        };
        self.select(index);
    }

    /// Selects the first line and shows the list from its start.
    pub fn top(&mut self)
        ensures
            final(self)@ == old(self)@.top(),
            final(self)@.wf(),
    {
        proof {
            use_type_invariant(&*self);
        }
        if self.is_empty() {
            return ;
        }
        assert(self@.rows[0] is Header);
        let mut state = self.state;
        state.select(Some(1));
        state.set_offset(0);
        self.state = state;
    }

    /// Selects the last row and shows the last `JUMP_THRESHOLD` rows.
    pub fn bottom(&mut self)
        ensures
            final(self)@ == old(self)@.bottom(),
            final(self)@.wf(),
    {
        proof {
            use_type_invariant(&*self);
        }
        if self.is_empty() {
            return ;
        }
        let len = self.entries.len();
        assert(self@.rows[0] is Header);
        assert(!(self@.rows[len - 1] is Header));
        let mut state = self.state;
        state.select(Some(len - 1));
        state.set_offset(len.saturating_sub(JUMP_THRESHOLD));
        self.state = state;
    }

    /// Takes the selected line away, or its whole file if the line is the
    /// only one below its header.
    pub fn remove_current_entry(&mut self)
        ensures
            final(self)@ == old(self)@.remove_current_entry(),
            final(self)@.wf(),
    {
        proof {
            use_type_invariant(&*self);
        }
        if self.is_empty() {
            return ;
        }
        if self.is_last_match_in_file() {
            self.remove_current_file();
        } else {
            self.remove_current_entry_and_select_previous();
        }
    }

    /// Takes away the file that holds the selection: its header and every
    /// row up to the next file header. Nothing happens in an empty list.
    pub fn remove_current_file(&mut self)
        ensures
            final(self)@ == old(self)@.remove_current_file(),
            final(self)@.wf(),
            old(self)@.rows.len() == 0 ==> final(self)@ == old(self)@,
    {
        proof {
            use_type_invariant(&*self);
        }
        if self.is_empty() {
            return ;
        }
        let ghost list = self@;
        let selected_index = self.state.selected().unwrap_or(1);
        let start = file_header_before(&self.entries, selected_index - 1);
        let end = file_header_after(&self.entries, selected_index);
        proof {
            lemma_remove_current_file_wf(list);
        }

        let taken = self.take();
        let ResultList { entries, state, wrap, file_entries_count, matches_count, filtered_matches_count } =
            taken;
        let mut entries = entries;
        let mut state = state;
        let mut tail = entries.split_off(end);
        entries.truncate(start);
        entries.append(&mut tail);
        assert(rows_of(entries@) =~= list.rows.subrange(0, start as int) + list.rows.subrange(
            end as int,
            list.rows.len() as int,
        ));

        if entries.is_empty() {
            state.select(None);
        } else if selected_index != 1 {
            let index = if start >= 2 {
                start - 1
            } else {
                1
            };
            state.select(Some(index));
        }
        *self = ResultList {
            entries,
            state,
            wrap,
            file_entries_count,
            matches_count,
            filtered_matches_count: filtered_matches_count + (end - start - 1),
        };
    }

    /// Takes the selected row away. The selection goes one row back if no
    /// line is left at its position.
    fn remove_current_entry_and_select_previous(&mut self)
        requires
            old(self)@.rows.len() > 0,
            !is_only_match(old(self)@.rows, old(self)@.current()),
        ensures
            final(self)@ == old(self)@.remove_selected_row(),
            final(self)@.wf(),
    {
        let taken = self.take();
        let ghost list = taken@;
        proof {
            lemma_remove_selected_row_wf(list);
        }
        let ResultList { entries, state, wrap, file_entries_count, matches_count, filtered_matches_count } =
            taken;
        let mut entries = entries;
        let mut state = state;
        let selected_index = state.selected().unwrap_or(1);
        let _ = entries.remove(selected_index);
        assert(rows_of(entries@) =~= list.rows.remove(selected_index as int));

        if selected_index >= entries.len() || is_header(&entries, selected_index) {
            state.select(Some(selected_index - 1));
        }
        *self = ResultList {
            entries,
            state,
            wrap,
            file_entries_count,
            matches_count,
            filtered_matches_count: filtered_matches_count + 1,
        };
    }

    /// The file and the line number of the selection, or `None` without one.
    pub fn get_selected_entry(&self) -> (entry: Option<(String, u64)>)
        ensures
            match entry {
                Some((name, line_number)) => self@.selected_entry() == Some((name@, line_number)),
                None => self@.selected_entry() is None,
            },
    {
        proof {
            use_type_invariant(self);
        }
        match self.state.selected() {
            Some(i) => {
                let line_number = match &self.entries[i] {
                    EntryType::Match(number, _, _) => *number,
                    EntryType::Header(_) => 0,
                };
                let start = file_header_before(&self.entries, i - 1);
                match &self.entries[start] {
                    EntryType::Header(name) => Some((name.clone(), line_number)),
                    EntryType::Match(_, _, _) => None,
                }
            },
            None => None,
        }
    }

    /// The position of the selection among the lines of the list, counted
    /// from 1, or 0 without a selection.
    pub fn get_current_match_index(&self) -> (index: usize)
        ensures
            index == self@.current_match_index(),
    {
        proof {
            use_type_invariant(self);
        }
        match self.state.selected() {
            Some(selected) => count_lines(&self.entries, selected) + 1,
            None => 0,
        }
    }

    /// The number of lines in the list, matched or context.
    pub fn get_current_number_of_matches(&self) -> (count: usize)
        ensures
            count == count_match_rows(self@.rows),
    {
        let count = count_lines(&self.entries, self.entries.len());
        assert(self@.rows.take(self@.rows.len() as int) =~= self@.rows);
        count
    }

    /// The rows to lay out for drawing: the first of them, and the one
    /// after the last.
    pub fn band(&self) -> (range: (usize, usize))
        ensures
            (range.0 as int, range.1 as int) == self@.band(),
            range.0 <= range.1 <= self@.rows.len(),
    {
        let len = self.entries.len();
        let skip = self.state.get_skip();
        let end = if skip < len && NUM_OF_SHOW < len - skip {
            skip + NUM_OF_SHOW
        } else {
            len
        };
        let start = if skip < end {
            skip
        } else {
            end
        };
        (start, end)
    }

    /// Selection and first shown entry as the widget needs them that
    /// draws the rows of the band: counted from the start of the band.
    pub fn band_state(&self) -> (state: ListState)
        ensures
            state@ == self@.band_state(),
    {
        let (start, _) = self.band();
        let mut state = ListState::default();
        state.select(
            match self.state.selected() {
                Some(i) => Some(i.saturating_sub(start)),
                None => None,
            },
        );
        state.set_skip(0);
        state.set_offset(self.state.offset().saturating_sub(start));
        state
    }

    /// Takes the first shown entry back from the widget, which counts it
    /// from the start of the band.
    pub fn set_band_offset(&mut self, offset: usize)
        ensures
            final(self)@ == old(self)@.with_band_offset(offset),
            final(self)@.wf(),
    {
        proof {
            use_type_invariant(&*self);
        }
        let (start, _) = self.band();
        let mut state = self.state;
        state.set_offset(start.saturating_add(offset));
        self.state = state;
    }

    /// The number of matching lines added since the list was made.
    pub fn get_total_number_of_matches(&self) -> (count: usize)
        ensures
            count == self@.matches_count,
    {
        self.matches_count
    }

    /// The number of files added since the list was made.
    pub fn get_total_number_of_file_entries(&self) -> (count: usize)
        ensures
            count == self@.file_entries_count,
    {
        self.file_entries_count
    }

    /// The number of rows that were taken away.
    pub fn get_filtered_matches_count(&self) -> (count: usize)
        ensures
            count == self@.filtered_matches_count,
    {
        self.filtered_matches_count
    }
}

/// The matching lines in all files of `files` together.
pub open spec fn sum_true_matches(files: Seq<Seq<Row>>) -> nat
    decreases files.len(),
{
    if files.len() == 0 {
        0
    } else {
        sum_true_matches(files.drop_last()) + count_true_matches(files.last())
    }
}

/// After any number of files is added, the total of matching lines has
/// grown by the matching lines of these files, and the files are counted.
pub proof fn lemma_total_matches_is_sum(list: ResultListView, files: Seq<Seq<Row>>)
    ensures
        list.add_entries(files).matches_count == list.matches_count + sum_true_matches(files),
        list.add_entries(files).file_entries_count == list.file_entries_count + files.len(),
        list.add_entries(files).filtered_matches_count == list.filtered_matches_count,
    decreases files.len(),
{
    if files.len() > 0 {
        lemma_total_matches_is_sum(list, files.drop_last());
    }
}

/// The matching lines of all files but one, and those of that one,
/// make the matching lines of all files.
proof fn lemma_sum_without(files: Seq<Seq<Row>>, k: int)
    requires
        0 <= k < files.len(),
    ensures
        sum_true_matches(files) == sum_true_matches(files.remove(k)) + count_true_matches(files[k]),
    decreases files.len(),
{
    if k == files.len() - 1 {
        assert(files.remove(k) =~= files.drop_last());
    } else {
        lemma_sum_without(files.drop_last(), k);
        assert(files.remove(k).drop_last() =~= files.drop_last().remove(k));
        assert(files.remove(k).last() == files.last());
    }
}

/// The same files in another order hold as many matching lines.
pub proof fn lemma_sum_ignores_order(one: Seq<Seq<Row>>, other: Seq<Seq<Row>>)
    requires
        one.to_multiset() == other.to_multiset(),
    ensures
        sum_true_matches(one) == sum_true_matches(other),
    decreases one.len(),
{
    broadcast use vstd::seq_lib::group_to_multiset_ensures;

    vstd::seq_lib::to_multiset_len(one);
    vstd::seq_lib::to_multiset_len(other);
    if one.len() > 0 {
        let file = one.last();
        let rest = one.drop_last();
        assert(one =~= rest.push(file));
        vstd::seq_lib::to_multiset_build(rest, file);
        assert(one.to_multiset().count(file) > 0);
        vstd::seq_lib::to_multiset_contains(other, file);
        let k = choose|k: int| 0 <= k < other.len() && other[k] == file;
        vstd::seq_lib::to_multiset_remove(other, k);
        assert(rest.to_multiset() =~= other.remove(k).to_multiset());
        lemma_sum_ignores_order(rest, other.remove(k));
        lemma_sum_without(other, k);
    }
}

/// The total of matching lines does not depend on the order in which the
/// files arrive.
pub proof fn lemma_total_matches_ignores_order(list: ResultListView, one: Seq<Seq<Row>>, other: Seq<Seq<Row>>)
    requires
        one.to_multiset() == other.to_multiset(),
    ensures
        list.add_entries(one).matches_count == list.add_entries(other).matches_count,
        list.add_entries(one).file_entries_count == list.add_entries(other).file_entries_count,
{
    vstd::seq_lib::to_multiset_len(one);
    vstd::seq_lib::to_multiset_len(other);
    lemma_total_matches_is_sum(list, one);
    lemma_total_matches_is_sum(list, other);
    lemma_sum_ignores_order(one, other);
}

/// A jump lands on a line.
pub proof fn lemma_landing_is_match(list: ResultListView, line: int)
    requires
        list.wf(),
        list.rows.len() > 0,
    ensures
        1 <= landing_index(list.rows, line) < list.rows.len(),
        list.rows[landing_index(list.rows, line)] is Match,
{
    assert(list.rows[0] is Header);
    let clamped = if line < 1 {
        1
    } else if line > list.rows.len() - 1 {
        list.rows.len() - 1
    } else {
        line
    };
    if list.rows[clamped] is Header {
        assert(list.rows[clamped + 1] is Match);
    }
}

/// Taking the selected row away keeps a list well formed, if the row is not
/// the only line below its header.
pub proof fn lemma_remove_selected_row_wf(list: ResultListView)
    requires
        list.wf(),
        list.rows.len() > 0,
        !is_only_match(list.rows, list.current()),
    ensures
        list.remove_selected_row().wf(),
{
    let i = list.current();
    let rows = list.rows;
    let after = rows.remove(i);
    assert(rows[0] is Header);
    assert(rows[i] is Match);
    assert forall|j: int| 0 <= j < after.len() && #[trigger] after[j] is Header implies j + 1 < after.len()
        && after[j + 1] is Match by {
        if j < i {
            assert(rows[j] is Header);
        } else {
            assert(rows[j + 1] is Header);
        }
    }
    if i >= after.len() || after[i] is Header {
        if rows[i - 1] is Header {
            assert(i != rows.len() - 1);
            assert(rows[i + 1] is Match);
        }
    }
}

/// Taking the selected file away keeps a list well formed.
pub proof fn lemma_remove_current_file_wf(list: ResultListView)
    requires
        list.wf(),
        list.rows.len() > 0,
    ensures
        list.remove_current_file().wf(),
        0 <= list.current_file_start() < list.current() < list.current_file_end() <= list.rows.len(),
{
    let i = list.current();
    let rows = list.rows;
    let start = list.current_file_start();
    let end = list.current_file_end();
    lemma_file_header_at_or_before(rows, i - 1);
    lemma_file_header_at_or_after(rows, i);
    assert(rows[i] is Match);
    let after = rows.subrange(0, start) + rows.subrange(end, rows.len() as int);
    assert forall|j: int| 0 <= j < after.len() && #[trigger] after[j] is Header implies j + 1 < after.len()
        && after[j + 1] is Match by {
        if j < start {
            assert(rows[j] is Header);
            if j + 1 == start {
                assert(rows[start] is Header);
            }
        } else {
            assert(rows[j - start + end] is Header);
        }
    }
    if after.len() > 0 {
        if start == 0 {
            assert(after[0] == rows[end]);
        } else {
            assert(after[0] == rows[0]);
            assert(rows[0] is Header);
            assert(start != 1);
            if rows[start - 1] is Header {
                assert(rows[start - 1 + 1] is Match);
            }
        }
        assert(after[0] is Header);
    }
}

} // verus!

//! The viewport of a scrolling list: which entry is selected, which entry is
//! the first one shown, and how the window follows the selection.
//!
//! The window moves as little as it can. It stays where it is while the
//! selection is inside it, grows toward the selection and drops rows from the
//! far side when the selection leaves it, and is then nudged by one entry
//! where the selection sits too close to its top or bottom.

use vstd::prelude::*;

verus! {

/// Number of entries that are laid out around the selection.
pub const NUM_OF_SHOW: usize = 200;

/// Distance from either end of the band at which the band is moved.
pub const BAND_MARGIN: usize = 25;

/// Number of entries kept before the selection when the band is moved.
pub const BAND_LEAD: usize = 100;

/// The state of a list between two renders.
#[derive(Debug, Clone, Copy)]
pub struct ListState {
    skip: usize,
    offset: usize,
    selected: Option<usize>,
}

/// The mathematical value of a [`ListState`].
///
/// `skip` is the first entry of the band that is laid out, `offset` the first
/// entry shown, `selected` the selected entry. All three count entries from
/// the start of the list.
pub struct ListStateView {
    pub skip: usize,
    pub offset: usize,
    pub selected: Option<usize>,
}

impl View for ListState {
    type V = ListStateView;

    closed spec fn view(&self) -> ListStateView {
        ListStateView { skip: self.skip, offset: self.offset, selected: self.selected }
    }
}

impl ListStateView {
    /// The state before anything was selected.
    pub open spec fn initial() -> ListStateView {
        ListStateView { skip: 0, offset: 0, selected: None }
    }

    /// Whether entry `i` lies in the middle part of the band that starts at `self.skip`.
    pub open spec fn in_central_band(self, i: usize) -> bool {
        self.skip + BAND_MARGIN <= i < self.skip + NUM_OF_SHOW - BAND_MARGIN
    }

    /// The state after `index` is selected.
    ///
    /// Clearing the selection resets the state. Selecting an entry outside the
    /// middle part of the band moves the band so that it starts `BAND_LEAD`
    /// entries before the selection, or at the start of the list.
    pub open spec fn select(self, index: Option<usize>) -> ListStateView {
        match index {
            None => ListStateView::initial(),
            Some(i) => ListStateView {
                skip: if self.in_central_band(i) {
                    self.skip
                } else if i >= BAND_LEAD {
                    (i - BAND_LEAD) as usize
                } else {
                    0
                },
                offset: self.offset,
                selected: Some(i),
            },
        }
    }

    /// The state with another first shown entry.
    pub open spec fn with_offset(self, offset: usize) -> ListStateView {
        ListStateView { offset, ..self }
    }

    /// The state with another start of the band.
    pub open spec fn with_skip(self, skip: usize) -> ListStateView {
        ListStateView { skip, ..self }
    }

    /// The entry that the window follows in a list of `len > 0` entries: the
    /// selection, or the first entry without one, and the last entry if that
    /// lies past the end.
    pub open spec fn target(self, len: nat) -> int {
        let s: int = match self.selected {
            Some(i) => i as int,
            None => 0,
        };
        if s < len {
            s
        } else {
            len - 1
        }
    }

    /// The state after a render of entries with the row counts `heights` into
    /// `list_height` rows, with `top` and `bottom` rows of margin.
    pub open spec fn scrolled(self, heights: Seq<usize>, list_height: usize, top: usize, bottom: usize) -> ListStateView {
        if heights.len() == 0 || list_height == 0 {
            self
        } else {
            let target = self.target(heights.len());
            let window = window_for(heights, list_height as int, self.offset as int, target);
            let offset = nudged_offset(window.start, target, list_height as int, top as int, bottom as int);
            ListStateView { offset: offset as usize, ..self }
        }
    }

    /// How many entries such a render shows.
    pub open spec fn shown(self, heights: Seq<usize>, list_height: usize) -> int {
        if heights.len() == 0 || list_height == 0 {
            0
        } else {
            let window = window_for(heights, list_height as int, self.offset as int, self.target(heights.len()));
            window.end - window.start
        }
    }
}

/// A run of entries: from `start` up to, not including, `end`.
pub struct Window {
    pub start: int,
    pub end: int,
}

/// The rows that the entries from `from` up to, not including, `to` take.
pub open spec fn rows_in(heights: Seq<usize>, from: int, to: int) -> int
    decreases to - from,
{
    if to <= from {
        0
    } else {
        rows_in(heights, from, to - 1) + heights[to - 1]
    }
}

/// The end of the longest run that starts at `start`, reaches at least to
/// `end`, and takes no more than `limit` rows, given that the run up to `end`
/// does.
pub open spec fn grow_end(heights: Seq<usize>, start: int, end: int, limit: int) -> int
    decreases heights.len() - end,
{
    if end < heights.len() && rows_in(heights, start, end + 1) <= limit {
        grow_end(heights, start, end + 1, limit)
    } else {
        end
    }
}

/// The first position at or after `start` from which the run up to `end`
/// takes no more than `limit` rows.
pub open spec fn shrink_start(heights: Seq<usize>, start: int, end: int, limit: int) -> int
    decreases end - start,
{
    if start < end && rows_in(heights, start, end) > limit {
        shrink_start(heights, start + 1, end, limit)
    } else {
        start
    }
}

/// The last position at or before `end` up to which the run from `start`
/// takes no more than `limit` rows.
pub open spec fn shrink_end(heights: Seq<usize>, start: int, end: int, limit: int) -> int
    decreases end - start,
{
    if start < end && rows_in(heights, start, end) > limit {
        shrink_end(heights, start, end - 1, limit)
    } else {
        end
    }
}

/// The window that shows `target` after the least movement from `offset`.
///
/// The window first runs from `offset` as far as the rows allow. If the
/// target lies after it, the window is extended to the target and loses
/// entries at its start until it fits. If the target lies before it, the
/// window starts at the target and loses entries at its end until it fits.
/// An `offset` past the end of the list counts as the end of the list.
pub open spec fn window_for(heights: Seq<usize>, limit: int, offset: int, target: int) -> Window {
    let first = if offset < heights.len() {
        offset
    } else {
        heights.len() as int
    };
    let filled = grow_end(heights, first, first, limit);
    let end = if target < filled {
        filled
    } else {
        target + 1
    };
    let start = shrink_start(heights, first, end, limit);
    if target < start {
        Window { start: target, end: shrink_end(heights, target, end, limit) }
    } else {
        Window { start, end }
    }
}

/// The first shown entry after the margins are applied to a window that
/// starts at `start`: one entry earlier if the target is less than `top`
/// entries below the start, then one entry later if the target is less than
/// `bottom` rows above the last row.
pub open spec fn nudged_offset(start: int, target: int, limit: int, top: int, bottom: int) -> int {
    let back = if target - start < top && start > 0 {
        start - 1
    } else {
        start
    };
    if target + bottom >= limit + back {
        back + 1
    } else {
        back
    }
}

/// A run can be measured in two parts.
pub proof fn lemma_rows_in_split(heights: Seq<usize>, a: int, b: int, c: int)
    requires
        a <= b <= c,
    ensures
        rows_in(heights, a, c) == rows_in(heights, a, b) + rows_in(heights, b, c),
    decreases c - b,
{
    if b < c {
        lemma_rows_in_split(heights, a, b, c - 1);
    }
}

/// A run takes no fewer rows than any run inside it.
pub proof fn lemma_rows_in_monotone(heights: Seq<usize>, a: int, b: int, c: int, d: int)
    requires
        a <= b <= c <= d,
    ensures
        0 <= rows_in(heights, b, c) <= rows_in(heights, a, d),
{
    lemma_rows_in_nonnegative(heights, a, b);
    lemma_rows_in_nonnegative(heights, b, c);
    lemma_rows_in_nonnegative(heights, c, d);
    lemma_rows_in_split(heights, a, b, d);
    lemma_rows_in_split(heights, b, c, d);
}

/// No run takes fewer than zero rows.
pub proof fn lemma_rows_in_nonnegative(heights: Seq<usize>, a: int, b: int)
    ensures
        0 <= rows_in(heights, a, b),
    decreases b - a,
{
    if a < b {
        lemma_rows_in_nonnegative(heights, a, b - 1);
    }
}

/// What `grow_end` returns: a run that fits and cannot be extended.
pub proof fn lemma_grow_end(heights: Seq<usize>, start: int, end: int, limit: int)
    requires
        0 <= start <= end <= heights.len(),
        rows_in(heights, start, end) <= limit,
    ensures
        end <= grow_end(heights, start, end, limit) <= heights.len(),
        rows_in(heights, start, grow_end(heights, start, end, limit)) <= limit,
        grow_end(heights, start, end, limit) < heights.len() ==> rows_in(
            heights,
            start,
            grow_end(heights, start, end, limit) + 1,
        ) > limit,
    decreases heights.len() - end,
{
    if end < heights.len() && rows_in(heights, start, end + 1) <= limit {
        lemma_grow_end(heights, start, end + 1, limit);
    }
}

/// What `shrink_start` returns: the first start from which the run fits.
pub proof fn lemma_shrink_start(heights: Seq<usize>, start: int, end: int, limit: int)
    requires
        0 <= start <= end <= heights.len(),
        0 <= limit,
    ensures
        start <= shrink_start(heights, start, end, limit) <= end,
        rows_in(heights, shrink_start(heights, start, end, limit), end) <= limit,
        forall|j: int|
            start <= j < shrink_start(heights, start, end, limit) ==> rows_in(heights, j, end) > limit,
    decreases end - start,
{
    if start < end && rows_in(heights, start, end) > limit {
        lemma_shrink_start(heights, start + 1, end, limit);
    }
}

/// What `shrink_end` returns: the last end up to which the run fits.
pub proof fn lemma_shrink_end(heights: Seq<usize>, start: int, end: int, limit: int)
    requires
        0 <= start <= end <= heights.len(),
        0 <= limit,
    ensures
        start <= shrink_end(heights, start, end, limit) <= end,
        rows_in(heights, start, shrink_end(heights, start, end, limit)) <= limit,
        forall|j: int|
            shrink_end(heights, start, end, limit) < j <= end ==> rows_in(heights, start, j) > limit,
    decreases end - start,
{
    if start < end && rows_in(heights, start, end) > limit {
        lemma_shrink_end(heights, start, end - 1, limit);
    }
}

/// Dropping entries at the start for a run, and then for the run extended
/// by one entry, ends where dropping for the extended run ends.
proof fn lemma_shrink_start_step(heights: Seq<usize>, start: int, end: int, limit: int)
    requires
        0 <= start <= end < heights.len(),
        0 <= limit,
    ensures
        shrink_start(heights, shrink_start(heights, start, end, limit), end + 1, limit) == shrink_start(
            heights,
            start,
            end + 1,
            limit,
        ),
    decreases end - start,
{
    if start < end && rows_in(heights, start, end) > limit {
        lemma_shrink_start_step(heights, start + 1, end, limit);
    }
}

/// Dropping entries at the end for a run, and then for the run extended by
/// one entry at its start, ends where dropping for the extended run ends.
proof fn lemma_shrink_end_step(heights: Seq<usize>, start: int, end: int, limit: int)
    requires
        0 < start <= end <= heights.len(),
        0 <= limit,
    ensures
        shrink_end(heights, start - 1, shrink_end(heights, start, end, limit), limit) == shrink_end(
            heights,
            start - 1,
            end,
            limit,
        ),
    decreases end - start,
{
    if start < end && rows_in(heights, start, end) > limit {
        lemma_rows_in_monotone(heights, start - 1, start, end, end);
        lemma_shrink_end_step(heights, start, end - 1, limit);
    }
}

/// The window fits into the rows, starts no later than the target, and
/// holds the target unless the target alone is too tall.
pub proof fn lemma_window_holds_target(heights: Seq<usize>, limit: int, offset: int, target: int)
    requires
        0 <= limit,
        0 <= offset,
        0 <= target < heights.len(),
    ensures
        ({
            let w = window_for(heights, limit, offset, target);
            &&& 0 <= w.start <= target
            &&& w.start <= w.end <= heights.len()
            &&& rows_in(heights, w.start, w.end) <= limit
            &&& heights[target] <= limit ==> target < w.end
            &&& heights[target] > limit ==> w.end == target
        }),
{
    let first = if offset < heights.len() {
        offset
    } else {
        heights.len() as int
    };
    lemma_grow_end(heights, first, first, limit);
    let filled = grow_end(heights, first, first, limit);
    let end = if target < filled {
        filled
    } else {
        target + 1
    };
    lemma_shrink_start(heights, first, end, limit);
    let start = shrink_start(heights, first, end, limit);
    assert(rows_in(heights, target, target + 1) == rows_in(heights, target, target) + heights[target]);
    if target < start {
        lemma_shrink_end(heights, target, end, limit);
        let e = shrink_end(heights, target, end, limit);
        if e > target {
            lemma_rows_in_monotone(heights, target, target, target + 1, e);
        }
    } else {
        if target < end {
            lemma_rows_in_monotone(heights, start, target, target + 1, end);
        }
    }
}

/// The window does not move while the target is inside the rows that are
/// shown from the current offset.
pub proof fn lemma_window_stays(heights: Seq<usize>, limit: int, offset: int, target: int)
    requires
        0 <= limit,
        0 <= offset <= target < grow_end(heights, offset, offset, limit),
        target < heights.len(),
    ensures
        window_for(heights, limit, offset, target) == (Window {
            start: offset,
            end: grow_end(heights, offset, offset, limit),
        }),
{
    lemma_grow_end(heights, offset, offset, limit);
}

/// Whether every entry takes at least one row.
pub open spec fn all_rows_positive(heights: Seq<usize>) -> bool {
    forall|i: int| 0 <= i < heights.len() ==> #[trigger] heights[i] >= 1
}

/// Entries that take at least one row each take at least as many rows as
/// there are entries.
pub proof fn lemma_rows_in_counts_entries(heights: Seq<usize>, a: int, b: int)
    requires
        all_rows_positive(heights),
        0 <= a <= b <= heights.len(),
    ensures
        rows_in(heights, a, b) >= b - a,
    decreases b - a,
{
    if a < b {
        lemma_rows_in_counts_entries(heights, a, b - 1);
    }
}

/// With a top margin the selection is never left on the first shown row,
/// unless the list is shown from its start: after a render into at least
/// two rows, without a bottom margin, the target lies below the first
/// shown entry, or the first shown entry is the first entry of the list.
pub proof fn lemma_top_margin_is_kept(state: ListStateView, heights: Seq<usize>, list_height: usize, top: usize)
    requires
        heights.len() > 0,
        all_rows_positive(heights),
        list_height >= 2,
        top >= 1,
    ensures
        ({
            let after = state.scrolled(heights, list_height, top, 0);
            after.offset == 0 || state.target(heights.len()) >= after.offset + 1
        }),
{
    let target = state.target(heights.len());
    let window = window_for(heights, list_height as int, state.offset as int, target);
    lemma_window_holds_target(heights, list_height as int, state.offset as int, target);
    lemma_rows_in_counts_entries(heights, window.start, window.end);
}

/// Margins held by [`ListState::scroll_to_selected`]: the rows kept between the
/// selection and the top and the bottom of the window.
#[derive(Debug, Clone, Copy)]
pub struct ScrollOffset {
    top: usize,
    bottom: usize,
}

impl ScrollOffset {
    /// The rows kept above the selection.
    pub closed spec fn top_margin(&self) -> usize {
        self.top
    }

    /// The rows kept below the selection.
    pub closed spec fn bottom_margin(&self) -> usize {
        self.bottom
    }

    pub fn top(self, offset: usize) -> (margins: Self)
        ensures
            margins.top_margin() == offset,
            margins.bottom_margin() == self.bottom_margin(),
    {
        ScrollOffset { top: offset, bottom: self.bottom }
    }

    pub fn bottom(self, offset: usize) -> (margins: Self)
        ensures
            margins.top_margin() == self.top_margin(),
            margins.bottom_margin() == offset,
    {
        ScrollOffset { top: self.top, bottom: offset }
    }
}

impl Default for ScrollOffset {
    fn default() -> (margins: Self)
        ensures
            margins.top_margin() == 0,
            margins.bottom_margin() == 0,
    {
        ScrollOffset { top: 0, bottom: 0 }
    }
}

impl Default for ListState {
    fn default() -> (state: Self)
        ensures
            state@ == ListStateView::initial(),
    {
        ListState { skip: 0, offset: 0, selected: None }
    }
}

impl ListState {
    /// Selects `index`, or clears the selection, and moves the band to it.
    pub fn select(&mut self, index: Option<usize>)
        ensures
            final(self)@ == old(self)@.select(index),
    {
        match index {
            Some(i) => {
                let before = match self.skip.checked_add(BAND_MARGIN) {
                    Some(low) => i < low,
                    None => true,
                };
                let after = match self.skip.checked_add(NUM_OF_SHOW - BAND_MARGIN) {
                    Some(high) => i >= high,
                    None => false,
                };
                if before || after {
                    self.skip = i.saturating_sub(BAND_LEAD);
                }
                self.selected = Some(i);
            },
            None => {
                self.selected = None;
                self.offset = 0;
                self.skip = 0;
            },
        }
    }

    /// The selected entry.
    pub fn selected(&self) -> (index: Option<usize>)
        ensures
            index == self@.selected,
    {
        self.selected
    }

    pub fn get_skip(&self) -> (skip: usize)
        ensures
            skip == self@.skip,
    {
        self.skip
    }

    pub fn set_skip(&mut self, sk: usize)
        ensures
            final(self)@ == old(self)@.with_skip(sk),
    {
        self.skip = sk
    }

    pub fn offset(&self) -> (offset: usize)
        ensures
            offset == self@.offset,
    {
        self.offset
    }

    pub fn set_offset(&mut self, offset: usize)
        ensures
            final(self)@ == old(self)@.with_offset(offset),
    {
        self.offset = offset
    }

    /// Moves the window for a render and says how many entries to show.
    ///
    /// `heights` holds the number of rows of every entry, `list_height` the
    /// rows there are. With no entry or no row nothing changes and nothing is
    /// shown. The entries to draw are the `shown` ones from the new offset on.
    pub fn scroll_to_selected(&mut self, heights: &Vec<usize>, list_height: usize, margins: &ScrollOffset) -> (shown: usize)
        ensures
            final(self)@ == old(self)@.scrolled(
                heights@,
                list_height,
                margins.top_margin(),
                margins.bottom_margin(),
            ),
            shown == old(self)@.shown(heights@, list_height),
    {
        let len = heights.len();
        if len == 0 || list_height == 0 {
            return 0;
        }
        let ghost hs = heights@;
        let ghost limit = list_height as int;
        let first = if self.offset < len {
            self.offset
        } else {
            len
        };
        let mut start = first;
        let mut end = first;
        let mut height: u128 = 0;
        while end < len && height + heights[end] as u128 <= list_height as u128
            invariant
                hs == heights@,
                len == hs.len(),
                limit == list_height,
                start == first <= end <= len,
                height == rows_in(hs, start as int, end as int) <= limit,
                grow_end(hs, first as int, first as int, limit) == grow_end(hs, first as int, end as int, limit),
            decreases len - end,
        {
            height = height + heights[end] as u128;
            end += 1;
        }
        let ghost filled = end as int;
        assert(filled == grow_end(hs, first as int, first as int, limit));

        let selected = match self.selected {
            Some(i) => if i < len {
                i
            } else {
                len - 1
            },
            None => 0,
        };
        assert(selected == old(self)@.target(hs.len()));

        while selected >= end
            invariant
                hs == heights@,
                len == hs.len(),
                limit == list_height,
                selected < len,
                first <= start <= end <= len,
                filled <= end,
                end > filled ==> end <= selected + 1,
                height == rows_in(hs, start as int, end as int) <= limit,
                start == shrink_start(hs, first as int, end as int, limit),
            decreases len - end,
        {
            proof {
                lemma_shrink_start_step(hs, first as int, end as int, limit);
                lemma_rows_in_monotone(hs, start as int, end as int, end + 1, end + 1);
            }
            height = height + heights[end] as u128;
            end += 1;
            while height > list_height as u128
                invariant
                    hs == heights@,
                    limit == list_height,
                    first <= start <= end <= len == hs.len(),
                    height == rows_in(hs, start as int, end as int),
                    height <= limit + usize::MAX,
                    shrink_start(hs, start as int, end as int, limit) == shrink_start(
                        hs,
                        first as int,
                        end as int,
                        limit,
                    ),
                decreases end - start,
            {
                proof {
                    assert(start < end);
                    lemma_rows_in_split(hs, start as int, start + 1, end as int);
                    lemma_rows_in_nonnegative(hs, start + 1, end as int);
                    assert(rows_in(hs, start as int, start + 1) == rows_in(hs, start as int, start as int)
                        + hs[start as int]);
                }
                height = height - heights[start] as u128;
                start += 1;
            }
        }
        let ghost reach = end as int;
        assert(reach == if selected < filled {
            filled
        } else {
            selected + 1
        });

        let ghost trimmed = start as int;
        while selected < start
            invariant
                hs == heights@,
                len == hs.len(),
                limit == list_height,
                selected < len,
                start <= end <= reach <= len,
                trimmed == shrink_start(hs, first as int, reach, limit),
                start <= trimmed,
                selected < trimmed ==> selected <= start,
                selected >= trimmed ==> start == trimmed,
                height == rows_in(hs, start as int, end as int) <= limit,
                end == shrink_end(hs, start as int, reach, limit),
            decreases start,
        {
            proof {
                lemma_shrink_end_step(hs, start as int, reach, limit);
                lemma_rows_in_split(hs, start - 1, start as int, end as int);
                assert(rows_in(hs, start - 1, start as int) == rows_in(hs, start - 1, start - 1) + hs[start
                    - 1]);
            }
            start -= 1;
            height = height + heights[start] as u128;
            while height > list_height as u128
                invariant
                    hs == heights@,
                    limit == list_height,
                    selected <= start <= end <= reach <= len == hs.len(),
                    height == rows_in(hs, start as int, end as int),
                    height <= limit + usize::MAX,
                    shrink_end(hs, start as int, end as int, limit) == shrink_end(hs, start as int, reach, limit),
                decreases end - start,
            {
                proof {
                    assert(start < end);
                    lemma_rows_in_nonnegative(hs, start as int, end - 1);
                }
                end -= 1;
                height = height - heights[end] as u128;
            }
        }
        proof {
            let w = window_for(hs, limit, old(self)@.offset as int, selected as int);
            assert(w.start == start && w.end == end);
        }

        let mut offset = start;
        if selected - offset < margins.top && offset > 0 {
            offset -= 1;
        }
        if selected as u128 + margins.bottom as u128 >= list_height as u128 + offset as u128 {
            offset += 1;
        }
        self.offset = offset;
        end - start
    }
}

} // verus!

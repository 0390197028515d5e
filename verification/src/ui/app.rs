//! What the input handler asks of the application that it drives.

use vstd::prelude::*;

use crate::ui::cmd_parse::SearchCmd;

verus! {

/// What the bottom line of the screen is used for.
#[derive(Debug, Clone, Copy, PartialEq, Eq, Structural)]
pub enum BottomBarState {
    /// A search is typed.
    Input,
    /// The state of the search is shown.
    Normal,
}

impl Default for BottomBarState {
    fn default() -> (state: Self)
        ensures
            state == BottomBarState::Normal,
    {
        BottomBarState::Normal
    }
}

impl BottomBarState {
    /// What leaving means: while a search is typed, the typing ends; else
    /// the program ends. The result holds the use of the bottom line from
    /// now on, and whether the program ends.
    pub fn after_exit(self) -> (next: (BottomBarState, bool))
        ensures
            next == (BottomBarState::Normal, self == BottomBarState::Normal),
    {
        match self {
            BottomBarState::Normal => (BottomBarState::Normal, true),
            BottomBarState::Input => (BottomBarState::Normal, false),
        }
    }
}

/// The margin on either side of a pane that takes `percent` of a length and
/// stands in its middle, in percent of that length.
pub fn centered_margin(percent: u16) -> (margin: u16)
    requires
        percent <= 100,
    ensures
        margin == (100 - percent) / 2,
{
    (100 - percent) / 2
}

/// The first line shown beside a result: half of the `height` lines of the
/// pane stand above line `line_number`, as far as there are lines above it.
pub fn first_context_line(line_number: u64, height: u64) -> (first: u64)
    ensures
        first == if line_number >= height / 2 {
            line_number - height / 2
        } else {
            0
        },
{
    line_number.saturating_sub(height / 2)
}

/// The application as the input handler sees it: two questions about its
/// mode, and one method for everything that a key can ask for.
pub trait Application {
    fn update_cmd(&mut self, cmd: SearchCmd);

    fn is_searching(&self) -> bool;

    fn is_input_searching(&self) -> bool;

    fn is_normal(&self) -> bool;

    fn on_next_match(&mut self);

    fn on_previous_match(&mut self);

    fn on_next_file(&mut self);

    fn on_previous_file(&mut self);

    fn on_top(&mut self);

    fn on_bottom(&mut self);

    fn on_remove_current_entry(&mut self);

    fn on_remove_current_file(&mut self);

    fn on_toggle_context_viewer_vertical(&mut self);

    fn on_toggle_context_viewer_horizontal(&mut self);

    fn on_open_file(&mut self);

    fn on_search(&mut self);

    fn on_exit(&mut self);

    fn on_show_help(&mut self);

    fn on_input_search(&mut self);

    fn on_to_normal(&mut self);

    fn jump_to(&mut self, line: usize);

    fn jump_to_relative(&mut self, delta: i32);
}

} // verus!

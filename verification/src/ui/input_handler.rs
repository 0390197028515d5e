//! Keys typed by the user, turned into what the application is asked to do.
//!
//! In normal mode single characters and pairs of characters are commands;
//! while a pair is incomplete, or after a key that is no command, the state
//! says so. In input mode characters are collected for the search line, and
//! the arrow keys walk through the searches made before.

use vstd::prelude::*;

use crate::ui::app::Application;

verus! {

/// `String::push` puts one character behind the others.
pub assume_specification[ String::push ](s: &mut String, ch: char)
    ensures
        final(s)@ == old(s)@.push(ch),
;

/// `String::pop` takes the last character away and returns it, or returns
/// `None` and leaves an empty string as it is.
pub assume_specification[ String::pop ](s: &mut String) -> (last: Option<char>)
    ensures
        old(s)@.len() > 0 ==> last == Some(old(s)@.last()) && final(s)@ == old(s)@.drop_last(),
        old(s)@.len() == 0 ==> last is None && final(s)@ == old(s)@,
;

/// `String::clear` leaves the string empty.
pub assume_specification[ String::clear ](s: &mut String)
    ensures
        final(s)@ == Seq::<char>::empty(),
;

/// How long the keyboard is waited for while a search runs, in
/// milliseconds: short, so that results show up as they arrive.
pub const SEARCHING_POLL_MILLIS: u64 = 1;

/// How long the keyboard is waited for while no search runs, in milliseconds.
pub const IDLE_POLL_MILLIS: u64 = 100;

/// The time to wait for a key, in milliseconds.
pub fn poll_timeout_millis(searching: bool) -> (millis: u64)
    ensures
        millis == if searching {
            SEARCHING_POLL_MILLIS
        } else {
            IDLE_POLL_MILLIS
        },
{
    if searching {
        SEARCHING_POLL_MILLIS
    } else {
        IDLE_POLL_MILLIS
    }
}

/// What the input line shows of the keys typed so far.
#[derive(Clone, Debug, PartialEq, Eq)]
pub enum InputState {
    /// Nothing pending.
    Valid,
    /// The start of a command, or the search line as far as it is typed.
    Incomplete(String),
    /// Keys that are no command.
    Invalid(String),
}

/// The mathematical value of an [`InputState`].
pub enum InputStateView {
    Valid,
    Incomplete(Seq<char>),
    Invalid(Seq<char>),
}

impl View for InputState {
    type V = InputStateView;

    open spec fn view(&self) -> InputStateView {
        match *self {
            InputState::Valid => InputStateView::Valid,
            InputState::Incomplete(text) => InputStateView::Incomplete(text@),
            InputState::Invalid(text) => InputStateView::Invalid(text@),
        }
    }
}

impl Default for InputState {
    fn default() -> (state: Self)
        ensures
            state@ == InputStateView::Valid,
    {
        InputState::Valid
    }
}

/// A key that is not a character.
#[derive(Clone, Copy, Debug, PartialEq, Eq)]
pub enum Key {
    Enter,
    Backspace,
    Delete,
    Esc,
    Up,
    Down,
    Left,
    Right,
    PageUp,
    PageDown,
    Home,
    End,
    /// A function key with its number.
    F(u8),
    /// Any other key.
    Other,
}

/// What a key asks the application to do.
#[derive(Clone, Copy, Debug, PartialEq, Eq)]
pub enum Action {
    NextMatch,
    PreviousMatch,
    NextFile,
    PreviousFile,
    Top,
    Bottom,
    RemoveCurrentEntry,
    RemoveCurrentFile,
    ToggleContextViewerVertical,
    ToggleContextViewerHorizontal,
    OpenFile,
    Search,
    Exit,
    ShowHelp,
    InputSearch,
}

/// The text shown while the second character of a command is awaited.
pub open spec fn pending(first: char) -> Seq<char> {
    seq![first, '\u{2026}']
}

/// The command that the characters of `buffer` spell in normal mode.
pub open spec fn command_of(buffer: Seq<char>) -> Option<Action> {
    if buffer == seq!['j'] {
        Some(Action::NextMatch)
    } else if buffer == seq!['k'] {
        Some(Action::PreviousMatch)
    } else if buffer == seq!['l'] {
        Some(Action::NextFile)
    } else if buffer == seq!['h'] {
        Some(Action::PreviousFile)
    } else if buffer == seq!['g', 'g'] {
        Some(Action::Top)
    } else if buffer == seq!['G'] {
        Some(Action::Bottom)
    } else if buffer == seq!['d', 'd'] {
        Some(Action::RemoveCurrentEntry)
    } else if buffer == seq!['d', 'w'] {
        Some(Action::RemoveCurrentFile)
    } else if buffer == seq!['v'] {
        Some(Action::ToggleContextViewerVertical)
    } else if buffer == seq!['s'] {
        Some(Action::ToggleContextViewerHorizontal)
    } else if buffer == seq!['q'] {
        Some(Action::Exit)
    } else {
        None
    }
}

/// What a key that is not a character asks for in normal mode.
pub open spec fn key_action(key: Key) -> Option<Action> {
    match key {
        Key::Down => Some(Action::NextMatch),
        Key::Up => Some(Action::PreviousMatch),
        Key::Right => Some(Action::NextFile),
        Key::PageDown => Some(Action::NextFile),
        Key::Left => Some(Action::PreviousFile),
        Key::PageUp => Some(Action::PreviousFile),
        Key::Home => Some(Action::Top),
        Key::End => Some(Action::Bottom),
        Key::Delete => Some(Action::RemoveCurrentEntry),
        Key::Enter => Some(Action::OpenFile),
        Key::F(n) => if n == 5 {
            Some(Action::Search)
        } else if n == 1 {
            Some(Action::ShowHelp)
        } else if n == 2 {
            Some(Action::InputSearch)
        } else {
            None
        },
        Key::Esc => Some(Action::Exit),
        _ => None,
    }
}

/// The mathematical value of an [`InputSearchHistory`]: the searches, the
/// last one first, and the position that is shown.
pub struct InputSearchHistoryView {
    pub history: Seq<Seq<char>>,
    pub curse: nat,
}

/// The position of the first text at or after `from` that equals `record`,
/// or the length of `history`.
pub open spec fn position_of(history: Seq<Seq<char>>, record: Seq<char>, from: int) -> int
    decreases history.len() - from,
{
    if from >= history.len() {
        history.len() as int
    } else if history[from] == record {
        from
    } else {
        position_of(history, record, from + 1)
    }
}

impl InputSearchHistoryView {
    /// A history is never empty, and its position lies in it.
    pub open spec fn wf(self) -> bool {
        self.curse < self.history.len()
    }

    /// The history with `record` as its first entry. A search that is in
    /// the history already moves to the front.
    pub open spec fn push(self, record: Seq<char>) -> InputSearchHistoryView {
        let at = position_of(self.history, record, 0);
        InputSearchHistoryView {
            history: if at < self.history.len() {
                seq![record] + self.history.remove(at)
            } else {
                seq![record] + self.history
            },
            curse: self.curse,
        }
    }

    /// The entry that is shown.
    pub open spec fn get(self) -> Seq<char> {
        self.history[self.curse as int]
    }

    /// The history one step toward the last search.
    pub open spec fn pre(self) -> InputSearchHistoryView {
        InputSearchHistoryView {
            curse: if self.curse > 0 {
                (self.curse - 1) as nat
            } else {
                self.curse
            },
            ..self
        }
    }

    /// The history one step toward the oldest search.
    pub open spec fn next(self) -> InputSearchHistoryView {
        InputSearchHistoryView {
            curse: if self.curse + 1 < self.history.len() {
                self.curse + 1
            } else {
                self.curse
            },
            ..self
        }
    }
}

/// The searches made in the input line.
pub struct InputSearchHistory {
    history: Vec<String>,
    curse: usize,
}

impl View for InputSearchHistory {
    type V = InputSearchHistoryView;

    closed spec fn view(&self) -> InputSearchHistoryView {
        InputSearchHistoryView {
            history: self.history@.map_values(|s: String| s@),
            curse: self.curse as nat,
        }
    }
}

impl Default for InputSearchHistory {
    fn default() -> (history: Self)
        ensures
            history@ == (InputSearchHistoryView { history: seq!["没有记录了"@], curse: 0 }),
            history@.wf(),
    {
        let mut history: Vec<String> = Vec::new();
        history.push("没有记录了".to_owned());
        let made = Self { history, curse: 0 };
        assert(made@.history =~= seq!["没有记录了"@]);
        made
    }
}

impl InputSearchHistory {
    #[verifier::type_invariant]
    spec fn well_formed(self) -> bool {
        self@.wf()
    }

    /// Puts `record` at the front of the history.
    pub fn push(&mut self, record: String)
        ensures
            final(self)@ == old(self)@.push(record@),
            final(self)@.wf(),
    {
        proof {
            use_type_invariant(&*self);
        }
        let mut taken = InputSearchHistory::default();
        core::mem::swap(self, &mut taken);
        let InputSearchHistory { history, curse } = taken;
        let mut history = history;
        let len = history.len();
        let ghost texts = history@.map_values(|s: String| s@);
        let mut at: usize = 0;
        while at < len && !(history[at] == record)
            invariant
                len == history.len(),
                texts == history@.map_values(|s: String| s@),
                at <= len,
                position_of(texts, record@, at as int) == position_of(texts, record@, 0),
            decreases len - at,
        {
            at += 1;
        }
        if at < len {
            let select = history.remove(at);
            history.insert(0, select);
            assert(history@.map_values(|s: String| s@) =~= seq![record@] + texts.remove(at as int));
        } else {
            history.insert(0, record);
            assert(history@.map_values(|s: String| s@) =~= seq![record@] + texts);
        }
        *self = InputSearchHistory { history, curse };
    }

    /// The entry that is shown.
    pub fn get(&self) -> (record: &str)
        ensures
            record@ == self@.get(),
            self@.wf(),
    {
        proof {
            use_type_invariant(self);
        }
        self.history[self.curse].as_str()
    }

    /// Steps toward the last search and returns the entry that is then shown.
    pub fn pre(&mut self) -> (record: &str)
        ensures
            final(self)@ == old(self)@.pre(),
            final(self)@.wf(),
            record@ == final(self)@.get(),
    {
        proof {
            use_type_invariant(&*self);
        }
        if self.curse > 0 {
            self.curse = self.curse - 1;
        }
        self.history[self.curse].as_str()
    }

    /// Steps toward the oldest search and returns the entry that is then shown.
    pub fn next(&mut self) -> (record: &str)
        ensures
            final(self)@ == old(self)@.next(),
            final(self)@.wf(),
            record@ == final(self)@.get(),
    {
        proof {
            use_type_invariant(&*self);
        }
        let len = self.history.len();
        if self.curse < len - 1 {
            self.curse = self.curse + 1;
        }
        self.history[self.curse].as_str()
    }
}

/// The mathematical value of an [`InputHandler`].
pub struct InputHandlerView {
    /// The characters typed and not yet used.
    pub buffer: Seq<char>,
    pub history: InputSearchHistoryView,
    pub state: InputStateView,
}

impl InputHandlerView {
    /// The handler after the character `c` is typed.
    ///
    /// In input mode the character joins the search line. In normal mode it
    /// joins the characters typed before: a command empties the buffer, `g`
    /// and `d` alone wait for a second character, and anything else is shown
    /// as invalid and forgotten.
    pub open spec fn after_char(self, c: char, input_searching: bool) -> InputHandlerView {
        let buffer = self.buffer.push(c);
        if input_searching {
            InputHandlerView { buffer, state: InputStateView::Incomplete(buffer), ..self }
        } else if command_of(buffer) is Some {
            InputHandlerView { buffer: Seq::empty(), state: InputStateView::Valid, ..self }
        } else if buffer == seq!['g'] || buffer == seq!['d'] {
            InputHandlerView { buffer, state: InputStateView::Incomplete(pending(c)), ..self }
        } else {
            InputHandlerView { buffer: Seq::empty(), state: InputStateView::Invalid(buffer), ..self }
        }
    }

    /// What the character `c` asks the application to do.
    pub open spec fn char_action(self, c: char, input_searching: bool) -> Option<Action> {
        if input_searching {
            None
        } else {
            command_of(self.buffer.push(c))
        }
    }

    /// The handler after a key that is not a character.
    ///
    /// In input mode Enter stores the search line in the history, the arrow
    /// keys fetch an older or a newer search, and Backspace takes the last
    /// character away. In normal mode every such key empties the buffer.
    pub open spec fn after_key(self, key: Key, input_searching: bool) -> InputHandlerView {
        if input_searching {
            match key {
                Key::Enter => InputHandlerView {
                    history: self.history.push(self.buffer),
                    state: InputStateView::Valid,
                    ..self
                },
                Key::Down => InputHandlerView {
                    buffer: self.history.next().get(),
                    history: self.history.next(),
                    state: InputStateView::Incomplete(self.history.next().get()),
                },
                Key::Up => InputHandlerView {
                    buffer: self.history.pre().get(),
                    history: self.history.pre(),
                    state: InputStateView::Incomplete(self.history.pre().get()),
                },
                Key::Backspace => {
                    let buffer = if self.buffer.len() > 0 {
                        self.buffer.drop_last()
                    } else {
                        self.buffer
                    };
                    InputHandlerView { buffer, state: InputStateView::Incomplete(buffer), ..self }
                },
                _ => self,
            }
        } else {
            InputHandlerView {
                buffer: Seq::empty(),
                state: if key == Key::F(2) {
                    InputStateView::Incomplete(Seq::empty())
                } else {
                    InputStateView::Valid
                },
                ..self
            }
        }
    }

    /// What a key that is not a character asks the application to do.
    pub open spec fn key_action(self, key: Key, input_searching: bool) -> Option<Action> {
        if input_searching {
            if key == Key::Enter {
                Some(Action::Search)
            } else {
                None
            }
        } else {
            key_action(key)
        }
    }
}

/// Collects the keys and keeps what the input line shows.
pub struct InputHandler {
    input_buffer: String,
    input_search_history: InputSearchHistory,
    input_state: InputState,
}

impl View for InputHandler {
    type V = InputHandlerView;

    closed spec fn view(&self) -> InputHandlerView {
        InputHandlerView {
            buffer: self.input_buffer@,
            history: self.input_search_history@,
            state: self.input_state@,
        }
    }
}

impl Default for InputHandler {
    fn default() -> (handler: Self)
        ensures
            handler@.buffer == Seq::<char>::empty(),
            handler@.state == InputStateView::Valid,
            handler@.history == (InputSearchHistoryView { history: seq!["没有记录了"@], curse: 0 }),
    {
        Self {
            input_buffer: String::new(),
            input_search_history: InputSearchHistory::default(),
            input_state: InputState::Valid,
        }
    }
}

/// Whether `text` is the one character `a`.
fn is_char(text: &str, a: char) -> (same: bool)
    ensures
        same == (text@ == seq![a]),
{
    let same = text.unicode_len() == 1 && text.get_char(0) == a;
    proof {
        if same {
            assert(text@ =~= seq![a]);
        }
    }
    same
}

/// Whether `text` is the two characters `a` and `b`.
fn is_pair(text: &str, a: char, b: char) -> (same: bool)
    ensures
        same == (text@ == seq![a, b]),
{
    let same = text.unicode_len() == 2 && text.get_char(0) == a && text.get_char(1) == b;
    proof {
        if same {
            assert(text@ =~= seq![a, b]);
        }
    }
    same
}

/// The command that the characters of `buffer` spell in normal mode.
fn command(buffer: &str) -> (action: Option<Action>)
    ensures
        action == command_of(buffer@),
{
    if is_char(buffer, 'j') {
        Some(Action::NextMatch)
    } else if is_char(buffer, 'k') {
        Some(Action::PreviousMatch)
    } else if is_char(buffer, 'l') {
        Some(Action::NextFile)
    } else if is_char(buffer, 'h') {
        Some(Action::PreviousFile)
    } else if is_pair(buffer, 'g', 'g') {
        Some(Action::Top)
    } else if is_char(buffer, 'G') {
        Some(Action::Bottom)
    } else if is_pair(buffer, 'd', 'd') {
        Some(Action::RemoveCurrentEntry)
    } else if is_pair(buffer, 'd', 'w') {
        Some(Action::RemoveCurrentFile)
    } else if is_char(buffer, 'v') {
        Some(Action::ToggleContextViewerVertical)
    } else if is_char(buffer, 's') {
        Some(Action::ToggleContextViewerHorizontal)
    } else if is_char(buffer, 'q') {
        Some(Action::Exit)
    } else {
        None
    }
}

/// Asks the application for what `action` names, by one call of the method that belongs to it.
pub fn perform<A: Application>(action: Action, app: &mut A)
    ensures
        exists|call: &mut A|
            mut_ref_current(call) == *old(app) && mut_ref_future(call) == *final(app) && #[trigger] answers(
                action,
                call,
            ),
{
    let ghost before = *app;
    match action {
        Action::NextMatch => {
            app.on_next_match();
            proof {
                let call = choose|call: &mut A|
                    mut_ref_current(call) == before && mut_ref_future(call) == *app && #[trigger] call_ensures(
                        A::on_next_match,
                        (call,),
                        (),
                    );
                assert(answers(action, call));
            }
        },
        Action::PreviousMatch => {
            app.on_previous_match();
            proof {
                let call = choose|call: &mut A|
                    mut_ref_current(call) == before && mut_ref_future(call) == *app && #[trigger] call_ensures(
                        A::on_previous_match,
                        (call,),
                        (),
                    );
                assert(answers(action, call));
            }
        },
        Action::NextFile => {
            app.on_next_file();
            proof {
                let call = choose|call: &mut A|
                    mut_ref_current(call) == before && mut_ref_future(call) == *app && #[trigger] call_ensures(
                        A::on_next_file,
                        (call,),
                        (),
                    );
                assert(answers(action, call));
            }
        },
        Action::PreviousFile => {
            app.on_previous_file();
            proof {
                let call = choose|call: &mut A|
                    mut_ref_current(call) == before && mut_ref_future(call) == *app && #[trigger] call_ensures(
                        A::on_previous_file,
                        (call,),
                        (),
                    );
                assert(answers(action, call));
            }
        },
        Action::Top => {
            app.on_top();
            proof {
                let call = choose|call: &mut A|
                    mut_ref_current(call) == before && mut_ref_future(call) == *app && #[trigger] call_ensures(
                        A::on_top,
                        (call,),
                        (),
                    );
                assert(answers(action, call));
            }
        },
        Action::Bottom => {
            app.on_bottom();
            proof {
                let call = choose|call: &mut A|
                    mut_ref_current(call) == before && mut_ref_future(call) == *app && #[trigger] call_ensures(
                        A::on_bottom,
                        (call,),
                        (),
                    );
                assert(answers(action, call));
            }
        },
        Action::RemoveCurrentEntry => {
            app.on_remove_current_entry();
            proof {
                let call = choose|call: &mut A|
                    mut_ref_current(call) == before && mut_ref_future(call) == *app && #[trigger] call_ensures(
                        A::on_remove_current_entry,
                        (call,),
                        (),
                    );
                assert(answers(action, call));
            }
        },
        Action::RemoveCurrentFile => {
            app.on_remove_current_file();
            proof {
                let call = choose|call: &mut A|
                    mut_ref_current(call) == before && mut_ref_future(call) == *app && #[trigger] call_ensures(
                        A::on_remove_current_file,
                        (call,),
                        (),
                    );
                assert(answers(action, call));
            }
        },
        Action::ToggleContextViewerVertical => {
            app.on_toggle_context_viewer_vertical();
            proof {
                let call = choose|call: &mut A|
                    mut_ref_current(call) == before && mut_ref_future(call) == *app && #[trigger] call_ensures(
                        A::on_toggle_context_viewer_vertical,
                        (call,),
                        (),
                    );
                assert(answers(action, call));
            }
        },
        Action::ToggleContextViewerHorizontal => {
            app.on_toggle_context_viewer_horizontal();
            proof {
                let call = choose|call: &mut A|
                    mut_ref_current(call) == before && mut_ref_future(call) == *app && #[trigger] call_ensures(
                        A::on_toggle_context_viewer_horizontal,
                        (call,),
                        (),
                    );
                assert(answers(action, call));
            }
        },
        Action::OpenFile => {
            app.on_open_file();
            proof {
                let call = choose|call: &mut A|
                    mut_ref_current(call) == before && mut_ref_future(call) == *app && #[trigger] call_ensures(
                        A::on_open_file,
                        (call,),
                        (),
                    );
                assert(answers(action, call));
            }
        },
        Action::Search => {
            app.on_search();
            proof {
                let call = choose|call: &mut A|
                    mut_ref_current(call) == before && mut_ref_future(call) == *app && #[trigger] call_ensures(
                        A::on_search,
                        (call,),
                        (),
                    );
                assert(answers(action, call));
            }
        },
        Action::Exit => {
            app.on_exit();
            proof {
                let call = choose|call: &mut A|
                    mut_ref_current(call) == before && mut_ref_future(call) == *app && #[trigger] call_ensures(
                        A::on_exit,
                        (call,),
                        (),
                    );
                assert(answers(action, call));
            }
        },
        Action::ShowHelp => {
            app.on_show_help();
            proof {
                let call = choose|call: &mut A|
                    mut_ref_current(call) == before && mut_ref_future(call) == *app && #[trigger] call_ensures(
                        A::on_show_help,
                        (call,),
                        (),
                    );
                assert(answers(action, call));
            }
        },
        Action::InputSearch => {
            app.on_input_search();
            proof {
                let call = choose|call: &mut A|
                    mut_ref_current(call) == before && mut_ref_future(call) == *app && #[trigger] call_ensures(
                        A::on_input_search,
                        (call,),
                        (),
                    );
                assert(answers(action, call));
            }
        },
    }
}

/// Whether a call of the method that belongs to `action` can go as `app`
/// tells: begin with the application in the state that `app` holds, and
/// return with it in the state that `app` has in the end.
pub open spec fn answers<A: Application>(action: Action, app: &mut A) -> bool {
    match action {
        Action::NextMatch => call_ensures(A::on_next_match, (app,), ()),
        Action::PreviousMatch => call_ensures(A::on_previous_match, (app,), ()),
        Action::NextFile => call_ensures(A::on_next_file, (app,), ()),
        Action::PreviousFile => call_ensures(A::on_previous_file, (app,), ()),
        Action::Top => call_ensures(A::on_top, (app,), ()),
        Action::Bottom => call_ensures(A::on_bottom, (app,), ()),
        Action::RemoveCurrentEntry => call_ensures(A::on_remove_current_entry, (app,), ()),
        Action::RemoveCurrentFile => call_ensures(A::on_remove_current_file, (app,), ()),
        Action::ToggleContextViewerVertical => call_ensures(A::on_toggle_context_viewer_vertical, (app,), ()),
        Action::ToggleContextViewerHorizontal => call_ensures(
            A::on_toggle_context_viewer_horizontal,
            (app,),
            (),
        ),
        Action::OpenFile => call_ensures(A::on_open_file, (app,), ()),
        Action::Search => call_ensures(A::on_search, (app,), ()),
        Action::Exit => call_ensures(A::on_exit, (app,), ()),
        Action::ShowHelp => call_ensures(A::on_show_help, (app,), ()),
        Action::InputSearch => call_ensures(A::on_input_search, (app,), ()),
    }
}

impl InputHandler {
    /// Takes the character `character`, typed while the application is in
    /// input mode or not, and returns what the application is to do.
    pub fn char_input(&mut self, character: char, input_searching: bool) -> (action: Option<Action>)
        ensures
            final(self)@ == old(self)@.after_char(character, input_searching),
            action == old(self)@.char_action(character, input_searching),
    {
        self.input_buffer.push(character);
        let ghost buffer = self.input_buffer@;
        assert(buffer == old(self)@.buffer.push(character));
        assert(buffer.last() == character);
        if input_searching {
            self.input_state = InputState::Incomplete(self.input_buffer.clone());
            None
        } else {
            let action = command(self.input_buffer.as_str());
            if action.is_some() {
                self.input_state = InputState::Valid;
                self.input_buffer.clear();
            } else if is_char(self.input_buffer.as_str(), 'g') {
                let shown = "g\u{2026}";
                proof {
                    reveal_strlit("g\u{2026}");
                    assert(shown@ =~= pending('g'));
                    assert(buffer[0] == 'g');
                }
                self.input_state = InputState::Incomplete(shown.to_owned());
            } else if is_char(self.input_buffer.as_str(), 'd') {
                let shown = "d\u{2026}";
                proof {
                    reveal_strlit("d\u{2026}");
                    assert(shown@ =~= pending('d'));
                    assert(buffer[0] == 'd');
                }
                self.input_state = InputState::Incomplete(shown.to_owned());
            } else {
                self.input_state = InputState::Invalid(self.input_buffer.clone());
                self.input_buffer.clear();
            }
            action
        }
    }

    /// Takes a key that is not a character, pressed while the application is
    /// in input mode or not, and returns what the application is to do.
    pub fn key_input(&mut self, key: Key, input_searching: bool) -> (action: Option<Action>)
        ensures
            final(self)@ == old(self)@.after_key(key, input_searching),
            action == old(self)@.key_action(key, input_searching),
    {
        if input_searching {
            match key {
                Key::Enter => {
                    self.input_search_history.push(self.input_buffer.clone());
                    self.input_state = InputState::Valid;
                    Some(Action::Search)
                },
                Key::Down => {
                    let history = self.input_search_history.next();
                    self.input_buffer = history.to_owned();
                    self.input_state = InputState::Incomplete(self.input_buffer.clone());
                    None
                },
                Key::Up => {
                    let history = self.input_search_history.pre();
                    self.input_buffer = history.to_owned();
                    self.input_state = InputState::Incomplete(self.input_buffer.clone());
                    None
                },
                Key::Backspace => {
                    let _ = self.input_buffer.pop();
                    self.input_state = InputState::Incomplete(self.input_buffer.clone());
                    None
                },
                _ => None,
            }
        } else {
            self.input_buffer.clear();
            self.input_state = InputState::Valid;
            match key {
                Key::Down => Some(Action::NextMatch),
                Key::Up => Some(Action::PreviousMatch),
                Key::Right | Key::PageDown => Some(Action::NextFile),
                Key::Left | Key::PageUp => Some(Action::PreviousFile),
                Key::Home => Some(Action::Top),
                Key::End => Some(Action::Bottom),
                Key::Delete => Some(Action::RemoveCurrentEntry),
                Key::Enter => Some(Action::OpenFile),
                Key::F(n) => {
                    if n == 5 {
                        Some(Action::Search)
                    } else if n == 1 {
                        Some(Action::ShowHelp)
                    } else if n == 2 {
                        self.input_state = InputState::Incomplete(self.input_buffer.clone());
                        Some(Action::InputSearch)
                    } else {
                        None
                    }
                },
                Key::Esc => Some(Action::Exit),
                _ => None,
            }
        }
    }

    /// Takes a character and has the application do what it asks for. The
    /// application says whether it is in input mode: with its answer the
    /// handler changes as [`InputHandlerView::after_char`] says, and the
    /// application is asked for what [`InputHandlerView::char_action`]
    /// gives, or left alone if that gives nothing.
    pub fn handle_char_input<A: Application>(&mut self, character: char, app: &mut A)
        ensures
            final(self)@ == old(self)@.after_char(character, true) || final(self)@ == old(self)@.after_char(
                character,
                false,
            ),
            exists|input_searching: bool|
                {
                    &&& #[trigger] call_ensures(A::is_input_searching, (&*old(app),), input_searching)
                    &&& final(self)@ == old(self)@.after_char(character, input_searching)
                    &&& match old(self)@.char_action(character, input_searching) {
                        Some(action) => exists|call: &mut A|
                            mut_ref_current(call) == *old(app) && mut_ref_future(call) == *final(app)
                                && #[trigger] answers(action, call),
                        None => *final(app) == *old(app),
                    }
                },
    {
        let input_searching = app.is_input_searching();
        if let Some(action) = self.char_input(character, input_searching) {
            perform(action, app);
        }
    }

    /// Takes a key that is not a character and has the application do what
    /// it asks for, as [`InputHandler::handle_char_input`] does for a
    /// character, with [`InputHandlerView::after_key`] and
    /// [`InputHandlerView::key_action`].
    pub fn handle_non_char_input<A: Application>(&mut self, key: Key, app: &mut A)
        ensures
            final(self)@ == old(self)@.after_key(key, true) || final(self)@ == old(self)@.after_key(key, false),
            exists|input_searching: bool|
                {
                    &&& #[trigger] call_ensures(A::is_input_searching, (&*old(app),), input_searching)
                    &&& final(self)@ == old(self)@.after_key(key, input_searching)
                    &&& match old(self)@.key_action(key, input_searching) {
                        Some(action) => exists|call: &mut A|
                            mut_ref_current(call) == *old(app) && mut_ref_future(call) == *final(app)
                                && #[trigger] answers(action, call),
                        None => *final(app) == *old(app),
                    }
                },
    {
        let input_searching = app.is_input_searching();
        if let Some(action) = self.key_input(key, input_searching) {
            perform(action, app);
        }
    }

    pub fn get_state(&self) -> (state: &InputState)
        ensures
            state@ == self@.state,
    {
        &self.input_state
    }

    /// The characters typed and not yet used: in input mode, the search line.
    pub fn get_buffer(&self) -> (buffer: &str)
        ensures
            buffer@ == self@.buffer,
    {
        self.input_buffer.as_str()
    }
}

} // verus!

use igrep::ui::app::centered_margin;
use igrep::ui::app::first_context_line;
use igrep::ui::app::Application;
use igrep::ui::app::BottomBarState;
use igrep::ui::cmd_parse::SearchCmd;
use igrep::ui::input_handler::perform;
use igrep::ui::input_handler::poll_timeout_millis;
use igrep::ui::input_handler::Action;
use igrep::ui::input_handler::InputHandler;
use igrep::ui::input_handler::InputSearchHistory;
use igrep::ui::input_handler::InputState;
use igrep::ui::input_handler::Key;

#[derive(Default)]
struct RecordingApp {
    input_searching: bool,
    calls: Vec<&'static str>,
}

impl Application for RecordingApp {
    fn update_cmd(&mut self, _cmd: SearchCmd) {
        self.calls.push("update_cmd");
    }
    fn is_searching(&self) -> bool {
        false
    }
    fn is_input_searching(&self) -> bool {
        self.input_searching
    }
    fn is_normal(&self) -> bool {
        !self.input_searching
    }
    fn on_next_match(&mut self) {
        self.calls.push("on_next_match");
    }
    fn on_previous_match(&mut self) {
        self.calls.push("on_previous_match");
    }
    fn on_next_file(&mut self) {
        self.calls.push("on_next_file");
    }
    fn on_previous_file(&mut self) {
        self.calls.push("on_previous_file");
    }
    fn on_top(&mut self) {
        self.calls.push("on_top");
    }
    fn on_bottom(&mut self) {
        self.calls.push("on_bottom");
    }
    fn on_remove_current_entry(&mut self) {
        self.calls.push("on_remove_current_entry");
    }
    fn on_remove_current_file(&mut self) {
        self.calls.push("on_remove_current_file");
    }
    fn on_toggle_context_viewer_vertical(&mut self) {
        self.calls.push("on_toggle_context_viewer_vertical");
    }
    fn on_toggle_context_viewer_horizontal(&mut self) {
        self.calls.push("on_toggle_context_viewer_horizontal");
    }
    fn on_open_file(&mut self) {
        self.calls.push("on_open_file");
    }
    fn on_search(&mut self) {
        self.calls.push("on_search");
    }
    fn on_exit(&mut self) {
        self.calls.push("on_exit");
    }
    fn on_show_help(&mut self) {
        self.calls.push("on_show_help");
    }
    fn on_input_search(&mut self) {
        self.calls.push("on_input_search");
    }
    fn on_to_normal(&mut self) {
        self.calls.push("on_to_normal");
    }
    fn jump_to(&mut self, _line: usize) {
        self.calls.push("jump_to");
    }
    fn jump_to_relative(&mut self, _delta: i32) {
        self.calls.push("jump_to_relative");
    }
}

enum Typed {
    Char(char),
    Key(Key),
}

fn handle(input_handler: &mut InputHandler, typed: &Typed, app: &mut RecordingApp) {
    match typed {
        Typed::Char(character) => input_handler.handle_char_input(*character, app),
        Typed::Key(key) => input_handler.handle_non_char_input(*key, app),
    }
}

fn handle_key(typed: Typed, app: &mut RecordingApp) {
    let mut input_handler = InputHandler::default();
    handle(&mut input_handler, &typed, app);
}

fn handle_key_series(typed: &[Typed], app: &mut RecordingApp) {
    let mut input_handler = InputHandler::default();
    for key in typed {
        handle(&mut input_handler, key, app);
    }
}

#[test]
fn toggle_vertical_context_viewer() {
    let mut app_mock = RecordingApp::default();
    handle_key(Typed::Char('v'), &mut app_mock);
    assert_eq!(app_mock.calls, vec!["on_toggle_context_viewer_vertical"]);
}

#[test]
fn toggle_horizontal_context_viewer() {
    let mut app_mock = RecordingApp::default();
    handle_key(Typed::Char('s'), &mut app_mock);
    assert_eq!(app_mock.calls, vec!["on_toggle_context_viewer_horizontal"]);
}

#[test]
fn open_file() {
    let mut app_mock = RecordingApp::default();
    handle_key(Typed::Key(Key::Enter), &mut app_mock);
    assert_eq!(app_mock.calls, vec!["on_open_file"]);
}

#[test]
fn search() {
    let mut app_mock = RecordingApp::default();
    handle_key(Typed::Key(Key::F(5)), &mut app_mock);
    assert_eq!(app_mock.calls, vec!["on_search"]);
}

#[test]
fn next_match_keys() {
    for typed in [Typed::Key(Key::Down), Typed::Char('j')] {
        let mut app_mock = RecordingApp::default();
        handle_key(typed, &mut app_mock);
        assert_eq!(app_mock.calls, vec!["on_next_match"]);
    }
}

#[test]
fn previous_match_keys() {
    for typed in [Typed::Key(Key::Up), Typed::Char('k')] {
        let mut app_mock = RecordingApp::default();
        handle_key(typed, &mut app_mock);
        assert_eq!(app_mock.calls, vec!["on_previous_match"]);
    }
}

#[test]
fn next_file_keys() {
    for typed in [Typed::Key(Key::Right), Typed::Key(Key::PageDown), Typed::Char('l')] {
        let mut app_mock = RecordingApp::default();
        handle_key(typed, &mut app_mock);
        assert_eq!(app_mock.calls, vec!["on_next_file"]);
    }
}

#[test]
fn previous_file_keys() {
    for typed in [Typed::Key(Key::Left), Typed::Key(Key::PageUp), Typed::Char('h')] {
        let mut app_mock = RecordingApp::default();
        handle_key(typed, &mut app_mock);
        assert_eq!(app_mock.calls, vec!["on_previous_file"]);
    }
}

#[test]
fn top_keys() {
    let mut app_mock = RecordingApp::default();
    handle_key_series(&[Typed::Key(Key::Home)], &mut app_mock);
    assert_eq!(app_mock.calls, vec!["on_top"]);
    let mut app_mock = RecordingApp::default();
    handle_key_series(&[Typed::Char('g'), Typed::Char('g')], &mut app_mock);
    assert_eq!(app_mock.calls, vec!["on_top"]);
}

#[test]
fn bottom_keys() {
    for typed in [Typed::Key(Key::End), Typed::Char('G')] {
        let mut app_mock = RecordingApp::default();
        handle_key(typed, &mut app_mock);
        assert_eq!(app_mock.calls, vec!["on_bottom"]);
    }
}

#[test]
fn remove_current_entry_keys() {
    let mut app_mock = RecordingApp::default();
    handle_key_series(&[Typed::Key(Key::Delete)], &mut app_mock);
    assert_eq!(app_mock.calls, vec!["on_remove_current_entry"]);
    let mut app_mock = RecordingApp::default();
    handle_key_series(&[Typed::Char('d'), Typed::Char('d')], &mut app_mock);
    assert_eq!(app_mock.calls, vec!["on_remove_current_entry"]);
    let mut app_mock = RecordingApp::default();
    let series = [
        Typed::Char('g'),
        Typed::Char('d'),
        Typed::Char('w'),
        Typed::Char('d'),
        Typed::Char('d'),
    ];
    handle_key_series(&series, &mut app_mock);
    assert_eq!(app_mock.calls, vec!["on_remove_current_entry"]);
}

#[test]
fn remove_current_file_keys() {
    let mut app_mock = RecordingApp::default();
    handle_key_series(&[Typed::Char('d'), Typed::Char('w')], &mut app_mock);
    assert_eq!(app_mock.calls, vec!["on_remove_current_file"]);
    let mut app_mock = RecordingApp::default();
    handle_key_series(&[Typed::Char('w'), Typed::Char('d'), Typed::Char('w')], &mut app_mock);
    assert_eq!(app_mock.calls, vec!["on_remove_current_file"]);
}

#[test]
fn exit_keys() {
    let mut app_mock = RecordingApp::default();
    handle_key_series(&[Typed::Char('q')], &mut app_mock);
    assert_eq!(app_mock.calls, vec!["on_exit"]);
    let mut app_mock = RecordingApp::default();
    handle_key_series(&[Typed::Key(Key::Esc)], &mut app_mock);
    assert_eq!(app_mock.calls, vec!["on_exit"]);
    let mut app_mock = RecordingApp::default();
    handle_key_series(&[Typed::Char('a'), Typed::Char('b'), Typed::Key(Key::Esc)], &mut app_mock);
    assert_eq!(app_mock.calls, vec!["on_exit"]);
}

#[test]
fn help_and_input_keys() {
    let mut app_mock = RecordingApp::default();
    let mut handler = InputHandler::default();
    handler.handle_non_char_input(Key::F(1), &mut app_mock);
    assert_eq!(*handler.get_state(), InputState::Valid);
    handler.handle_non_char_input(Key::F(2), &mut app_mock);
    assert_eq!(*handler.get_state(), InputState::Incomplete(String::new()));
    handler.handle_non_char_input(Key::F(3), &mut app_mock);
    handler.handle_non_char_input(Key::Other, &mut app_mock);
    handler.handle_non_char_input(Key::Backspace, &mut app_mock);
    assert_eq!(app_mock.calls, vec!["on_show_help", "on_input_search"]);
}

#[test]
fn states_in_normal_mode() {
    let mut handler = InputHandler::default();
    assert_eq!(*handler.get_state(), InputState::Valid);
    assert_eq!(handler.char_input('g', false), None);
    assert_eq!(*handler.get_state(), InputState::Incomplete("g…".to_owned()));
    assert_eq!(handler.get_buffer(), "g");
    assert_eq!(handler.char_input('g', false), Some(Action::Top));
    assert_eq!(*handler.get_state(), InputState::Valid);
    assert_eq!(handler.get_buffer(), "");
    assert_eq!(handler.char_input('d', false), None);
    assert_eq!(*handler.get_state(), InputState::Incomplete("d…".to_owned()));
    assert_eq!(handler.char_input('x', false), None);
    assert_eq!(*handler.get_state(), InputState::Invalid("dx".to_owned()));
    assert_eq!(handler.get_buffer(), "");
    assert_eq!(handler.char_input('z', false), None);
    assert_eq!(*handler.get_state(), InputState::Invalid("z".to_owned()));
    assert_eq!(handler.char_input('d', false), None);
    assert_eq!(handler.key_input(Key::Other, false), None);
    assert_eq!(*handler.get_state(), InputState::Valid);
    assert_eq!(handler.get_buffer(), "");
}

#[test]
fn every_command_in_normal_mode() {
    let commands = [
        ("j", Action::NextMatch),
        ("k", Action::PreviousMatch),
        ("l", Action::NextFile),
        ("h", Action::PreviousFile),
        ("gg", Action::Top),
        ("G", Action::Bottom),
        ("dd", Action::RemoveCurrentEntry),
        ("dw", Action::RemoveCurrentFile),
        ("v", Action::ToggleContextViewerVertical),
        ("s", Action::ToggleContextViewerHorizontal),
        ("q", Action::Exit),
    ];
    for (keys, action) in commands {
        let mut handler = InputHandler::default();
        let mut last = None;
        for c in keys.chars() {
            last = handler.char_input(c, false);
        }
        assert_eq!(last, Some(action));
        assert_eq!(*handler.get_state(), InputState::Valid);
    }
}

#[test]
fn search_line_in_input_mode() {
    let mut handler = InputHandler::default();
    assert_eq!(handler.char_input('a', true), None);
    assert_eq!(handler.char_input('j', true), None);
    assert_eq!(*handler.get_state(), InputState::Incomplete("aj".to_owned()));
    assert_eq!(handler.key_input(Key::Backspace, true), None);
    assert_eq!(*handler.get_state(), InputState::Incomplete("a".to_owned()));
    assert_eq!(handler.key_input(Key::Backspace, true), None);
    assert_eq!(handler.key_input(Key::Backspace, true), None);
    assert_eq!(*handler.get_state(), InputState::Incomplete(String::new()));
    assert_eq!(handler.char_input('x', true), None);
    assert_eq!(handler.key_input(Key::Delete, true), None);
    assert_eq!(handler.get_buffer(), "x");
    assert_eq!(handler.key_input(Key::Enter, true), Some(Action::Search));
    assert_eq!(*handler.get_state(), InputState::Valid);
    assert_eq!(handler.get_buffer(), "x");
    assert_eq!(handler.key_input(Key::Down, true), None);
    assert_eq!(*handler.get_state(), InputState::Incomplete("没有记录了".to_owned()));
    assert_eq!(handler.key_input(Key::Up, true), None);
    assert_eq!(*handler.get_state(), InputState::Incomplete("x".to_owned()));
    assert_eq!(handler.get_buffer(), "x");
}

#[test]
fn input_mode_through_the_application() {
    let mut app_mock = RecordingApp {
        input_searching: true,
        calls: Vec::new(),
    };
    let mut handler = InputHandler::default();
    handler.handle_char_input('q', &mut app_mock);
    assert_eq!(*handler.get_state(), InputState::Incomplete("q".to_owned()));
    handler.handle_non_char_input(Key::Esc, &mut app_mock);
    assert_eq!(app_mock.calls, Vec::<&str>::new());
    handler.handle_non_char_input(Key::Enter, &mut app_mock);
    assert_eq!(app_mock.calls, vec!["on_search"]);
}

#[test]
fn every_action_reaches_the_application() {
    let actions = [
        (Action::NextMatch, "on_next_match"),
        (Action::PreviousMatch, "on_previous_match"),
        (Action::NextFile, "on_next_file"),
        (Action::PreviousFile, "on_previous_file"),
        (Action::Top, "on_top"),
        (Action::Bottom, "on_bottom"),
        (Action::RemoveCurrentEntry, "on_remove_current_entry"),
        (Action::RemoveCurrentFile, "on_remove_current_file"),
        (Action::ToggleContextViewerVertical, "on_toggle_context_viewer_vertical"),
        (Action::ToggleContextViewerHorizontal, "on_toggle_context_viewer_horizontal"),
        (Action::OpenFile, "on_open_file"),
        (Action::Search, "on_search"),
        (Action::Exit, "on_exit"),
        (Action::ShowHelp, "on_show_help"),
        (Action::InputSearch, "on_input_search"),
    ];
    for (action, call) in actions {
        let mut app_mock = RecordingApp::default();
        perform(action, &mut app_mock);
        assert_eq!(app_mock.calls, vec![call]);
    }
}

#[test]
fn history_keeps_the_last_search_first() {
    let mut history = InputSearchHistory::default();
    assert_eq!(history.get(), "没有记录了");
    assert_eq!(history.pre(), "没有记录了");
    assert_eq!(history.next(), "没有记录了");
    history.push("one".to_owned());
    history.push("two".to_owned());
    assert_eq!(history.get(), "two");
    assert_eq!(history.next(), "one");
    assert_eq!(history.next(), "没有记录了");
    assert_eq!(history.next(), "没有记录了");
    assert_eq!(history.pre(), "one");
    history.push("one".to_owned());
    assert_eq!(history.get(), "two");
    assert_eq!(history.pre(), "one");
    assert_eq!(history.pre(), "one");
    assert_eq!(history.next(), "two");
    assert_eq!(history.next(), "没有记录了");
    assert_eq!(history.next(), "没有记录了");
    history.push("没有记录了".to_owned());
    assert_eq!(history.get(), "two");
    assert_eq!(history.pre(), "one");
    assert_eq!(history.pre(), "没有记录了");
}

#[test]
fn the_keyboard_is_polled_faster_while_a_search_runs() {
    assert_eq!(poll_timeout_millis(true), 1);
    assert_eq!(poll_timeout_millis(false), 100);
}

#[test]
fn leaving_ends_the_typing_first() {
    assert_eq!(BottomBarState::default(), BottomBarState::Normal);
    assert_eq!(BottomBarState::Input.after_exit(), (BottomBarState::Normal, false));
    assert_eq!(BottomBarState::Normal.after_exit(), (BottomBarState::Normal, true));
}

#[test]
fn a_pane_in_the_middle() {
    assert_eq!(centered_margin(50), 25);
    assert_eq!(centered_margin(70), 15);
    assert_eq!(centered_margin(100), 0);
    assert_eq!(centered_margin(0), 50);
    assert_eq!(centered_margin(99), 0);
}

#[test]
fn the_lines_beside_a_result() {
    assert_eq!(first_context_line(100, 20), 90);
    assert_eq!(first_context_line(10, 20), 0);
    assert_eq!(first_context_line(3, 20), 0);
    assert_eq!(first_context_line(3, 7), 0);
    assert_eq!(first_context_line(4, 7), 1);
    assert_eq!(first_context_line(u64::MAX, 0), u64::MAX);
    assert_eq!(first_context_line(0, u64::MAX), 0);
}

use igrep::file_entry::FileEntry as Found;
use igrep::grep_match::GrepMatch as Reported;
use igrep::ig::search_config::ConfigError as BadConfig;
use igrep::ig::search_config::SearchConfig as Config;
use igrep::ig::searcher::closing_events;
use igrep::ig::searcher::Event;
use igrep::ig::searcher::Phase;
use igrep::ig::searcher::Session;

fn found(name: &str) -> Event {
    Event::NewEntry(Found::new(
        name.to_owned(),
        vec![Reported::new(1, "m".to_owned(), Some(vec![]))],
    ))
}

#[test]
fn a_session_begins_idle() {
    let session = Session::new();
    assert_eq!(session, Session { id: 0, phase: Phase::Idle, failed: false });
    assert!(session.is_idle());
    assert!(!session.is_searching());
    assert!(!session.exit_requested());
}

#[test]
fn a_search_runs_until_it_is_finished() {
    let mut session = Session::new();
    let id = session.start_search();
    assert_eq!(id, 1);
    assert!(session.is_searching());
    assert!(!session.is_idle());
    let entry = session.handle_event(id, found("a")).unwrap();
    assert_eq!(entry.len(), 2);
    assert!(session.is_searching());
    assert!(session.handle_event(id, Event::SearchingFinished).is_none());
    assert!(session.is_idle());
    assert!(!session.failed);
    assert!(session.handle_event(id, found("late")).is_none());
    assert!(session.is_idle());
}

#[test]
fn a_failed_search_ends_too() {
    let mut session = Session::new();
    let id = session.start_search();
    for event in closing_events(true) {
        assert!(session.handle_event(id, event).is_none());
    }
    assert!(session.is_idle());
    assert!(session.failed);
    let id = session.start_search();
    assert_eq!(id, 2);
    assert!(!session.failed);
    for event in closing_events(false) {
        assert!(session.handle_event(id, event).is_none());
    }
    assert!(session.is_idle());
    assert!(!session.failed);
}

#[test]
fn closing_events_end_with_finished() {
    let events = closing_events(false);
    assert_eq!(events.len(), 1);
    assert!(matches!(events[0], Event::SearchingFinished));
    let events = closing_events(true);
    assert_eq!(events.len(), 2);
    assert!(matches!(events[0], Event::Error));
    assert!(matches!(events[1], Event::SearchingFinished));
}

#[test]
fn events_of_a_replaced_search_are_dropped() {
    let mut session = Session::new();
    let first = session.start_search();
    let second = session.start_search();
    assert!(first != second);
    assert!(session.handle_event(first, found("old")).is_none());
    assert!(session.handle_event(first, Event::Error).is_none());
    assert!(session.handle_event(first, Event::SearchingFinished).is_none());
    assert_eq!(session, Session { id: second, phase: Phase::Searching, failed: false });
    assert!(session.handle_event(second, found("new")).is_some());
}

#[test]
fn nothing_starts_after_the_user_has_left() {
    let mut session = Session::new();
    let id = session.start_search();
    session.exit();
    assert!(session.exit_requested());
    assert!(!session.is_idle());
    assert!(session.handle_event(id, found("a")).is_none());
    assert!(session.handle_event(id, Event::SearchingFinished).is_none());
    assert!(session.exit_requested());
    assert_eq!(session.start_search(), id);
    assert!(session.exit_requested());
}

#[test]
fn the_numbers_of_searches_start_over() {
    let mut session = Session { id: u64::MAX, phase: Phase::Idle, failed: true };
    assert_eq!(session.start_search(), 0);
    assert_eq!(session, Session { id: 0, phase: Phase::Searching, failed: false });
}

#[test]
fn a_batch_of_events() {
    let mut session = Session::new();
    let old = session.start_search();
    let id = session.start_search();
    let batch = vec![
        (old, found("stale")),
        (id, found("a")),
        (old, Event::SearchingFinished),
        (id, found("b")),
        (id, Event::Error),
        (id, found("c")),
        (id, Event::SearchingFinished),
        (id, found("after the end")),
    ];
    let entries = session.handle_events(batch);
    assert_eq!(entries.len(), 3);
    let names: Vec<String> = entries
        .into_iter()
        .map(|entry| match entry.get_entries().into_iter().next() {
            Some(igrep::file_entry::EntryType::Header(name)) => name,
            _ => String::new(),
        })
        .collect();
    assert_eq!(names, vec!["a", "b", "c"]);
    assert_eq!(session, Session { id, phase: Phase::Idle, failed: true });
    assert!(session.handle_events(vec![]).is_empty());
    assert!(session.handle_events(vec![(id, found("late"))]).is_empty());
}

#[test]
fn a_bad_pattern_starts_no_search() {
    let mut config = match Config::from("(".to_owned(), vec![]) {
        Ok(config) => config,
        Err(error) => panic!("{error:?}"),
    };
    let mut session = Session::new();
    assert_eq!(session.start_search_for(&config).err(), Some(BadConfig::Pattern));
    assert_eq!(session, Session::new());
    config.pattern = "fine".to_owned();
    match session.start_search_for(&config) {
        Ok((id, _)) => assert_eq!(id, 1),
        Err(error) => panic!("{error:?}"),
    }
    assert!(session.is_searching());
    config.pattern = "[".to_owned();
    assert_eq!(session.start_search_for(&config).err(), Some(BadConfig::Pattern));
    assert_eq!(session, Session { id: 1, phase: Phase::Searching, failed: false });
}

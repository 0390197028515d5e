use igrep::file_entry::separator;
use igrep::file_entry::EntryType;
use igrep::file_entry::FileEntry;
use igrep::grep_match::GrepMatch;
use igrep::ui::result_list::ResultList;

fn line(n: u64, text: &str) -> GrepMatch {
    GrepMatch::new(n, text.to_owned(), Some(vec![(0, 1)]))
}

fn context_line(n: u64, text: &str) -> GrepMatch {
    GrepMatch::new(n, text.to_owned(), None)
}

fn gap() -> GrepMatch {
    GrepMatch::new(0, separator(), None)
}

fn file(name: &str, lines: usize) -> FileEntry {
    FileEntry::new(
        name.to_owned(),
        (0..lines).map(|n| line(n as u64 + 1, "x")).collect(),
    )
}

fn list_of(files: &[usize]) -> ResultList {
    let mut list = ResultList::default();
    for (i, lines) in files.iter().enumerate() {
        let entry = file(&format!("f{i}"), *lines);
        assert!(list.accepts(&entry));
        list.add_entry(entry);
    }
    list
}

fn selected(list: &ResultList) -> Option<usize> {
    list.get_state().selected()
}

fn shape(list: &ResultList) -> String {
    list.entries()
        .iter()
        .map(|e| match e {
            EntryType::Header(name) if *name == separator() => '-',
            EntryType::Header(_) => 'H',
            EntryType::Match(_, _, Some(_)) => 'm',
            EntryType::Match(_, _, None) => 'c',
        })
        .collect()
}

#[test]
fn test_empty_list() {
    let mut list = ResultList::default();
    assert_eq!(list.get_state().selected(), None);
    list.next_match();
    assert_eq!(list.get_state().selected(), None);
    list.previous_match();
    assert_eq!(list.get_state().selected(), None);
}

#[test]
fn test_add_entry() {
    let mut list = ResultList::default();
    list.add_entry(FileEntry::new(
        "entry1".into(),
        vec![GrepMatch::new(0, "e1m1".into(), Some(vec![]))],
    ));
    assert_eq!(list.entries().len(), 2);
    assert_eq!(list.get_state().selected(), Some(1));

    list.add_entry(FileEntry::new(
        "entry2".into(),
        vec![
            GrepMatch::new(0, "e1m2".into(), Some(vec![])),
            GrepMatch::new(0, "e2m2".into(), Some(vec![])),
        ],
    ));
    assert_eq!(list.entries().len(), 5);
    assert_eq!(list.get_state().selected(), Some(1));
}

#[test]
fn every_operation_leaves_an_empty_list_alone() {
    let mut list = ResultList::default();
    assert!(list.is_empty());
    list.next_file();
    list.previous_file();
    list.top();
    list.bottom();
    list.jump_to(5);
    list.jump_to_relative(-3);
    list.remove_current_entry();
    list.remove_current_file();
    assert!(list.is_empty());
    assert_eq!(selected(&list), None);
    assert_eq!(list.get_state().offset(), 0);
    assert_eq!(list.get_selected_entry(), None);
    assert_eq!(list.get_current_match_index(), 0);
    assert_eq!(list.get_current_number_of_matches(), 0);
    assert_eq!(list.get_total_number_of_matches(), 0);
    assert_eq!(list.get_total_number_of_file_entries(), 0);
    assert_eq!(list.get_filtered_matches_count(), 0);
}

#[test]
fn removing_a_file_from_an_empty_list() {
    let mut list = ResultList::default();
    list.remove_current_file();
    assert!(list.is_empty());
    assert_eq!(selected(&list), None);
    assert_eq!(list.get_filtered_matches_count(), 0);
}

#[test]
fn two_files_are_laid_out_in_order() {
    let mut list = ResultList::default();
    list.add_entry(FileEntry::new(
        "f1".to_owned(),
        vec![GrepMatch::new(1, "hello world".to_owned(), Some(vec![(0, 5)]))],
    ));
    list.add_entry(FileEntry::new(
        "f2".to_owned(),
        vec![GrepMatch::new(2, "bye".to_owned(), None)],
    ));
    let entries = list.entries();
    assert_eq!(entries.len(), 4);
    assert!(matches!(&entries[0], EntryType::Header(name) if name == "f1"));
    assert!(matches!(
        &entries[1],
        EntryType::Match(1, text, Some(offsets)) if text == "hello world" && *offsets == vec![(0, 5)]
    ));
    assert!(matches!(&entries[2], EntryType::Header(name) if name == "f2"));
    assert!(matches!(&entries[3], EntryType::Match(2, text, None) if text == "bye"));
    assert_eq!(list.get_total_number_of_matches(), 1);
    assert_eq!(list.get_total_number_of_file_entries(), 2);
    assert_eq!(list.get_current_number_of_matches(), 2);
    assert_eq!(selected(&list), Some(1));
}

#[test]
fn removing_the_only_match_removes_the_file() {
    let mut list = list_of(&[1]);
    assert_eq!(selected(&list), Some(1));
    list.remove_current_entry();
    assert!(list.is_empty());
    assert_eq!(list.get_filtered_matches_count(), 1);
    assert_eq!(selected(&list), None);
    assert_eq!(list.get_total_number_of_matches(), 1);
    assert_eq!(list.get_total_number_of_file_entries(), 1);
}

#[test]
fn a_step_forward_and_back_returns() {
    let list_shape = [3, 1, 2];
    let len = list_of(&list_shape).len();
    for start in 1..len {
        let mut list = list_of(&list_shape);
        list.jump_to(start);
        let from = selected(&list).unwrap();
        list.next_match();
        let there = selected(&list).unwrap();
        list.previous_match();
        if from == len - 1 {
            assert_eq!(there, from);
        } else {
            assert!(there > from);
            assert_eq!(selected(&list), Some(from));
        }
    }
}

#[test]
fn steps_pass_over_headers_and_stop_at_the_ends() {
    let mut list = list_of(&[2, 1]);
    assert_eq!(shape(&list), "HmmHm");
    list.previous_match();
    assert_eq!(selected(&list), Some(1));
    list.next_match();
    assert_eq!(selected(&list), Some(2));
    list.next_match();
    assert_eq!(selected(&list), Some(4));
    list.next_match();
    assert_eq!(selected(&list), Some(4));
    list.previous_match();
    assert_eq!(selected(&list), Some(2));
    list.previous_match();
    assert_eq!(selected(&list), Some(1));
}

#[test]
fn the_total_does_not_depend_on_the_order_of_the_files() {
    let first = || {
        FileEntry::new(
            "a".to_owned(),
            vec![context_line(1, "c"), line(2, "m"), context_line(3, "c")],
        )
    };
    let second = || FileEntry::new("b".to_owned(), vec![line(7, "m"), line(9, "m")]);
    let third = || FileEntry::new("c".to_owned(), vec![context_line(4, "c")]);
    assert_eq!(first().get_matches_count(), 1);
    assert_eq!(second().get_matches_count(), 2);
    assert_eq!(third().get_matches_count(), 0);

    let mut one = ResultList::default();
    one.add_entry(first());
    one.add_entry(second());
    one.add_entry(third());
    let mut other = ResultList::default();
    other.add_entry(third());
    other.add_entry(second());
    other.add_entry(first());
    assert_eq!(one.get_total_number_of_matches(), 3);
    assert_eq!(other.get_total_number_of_matches(), 3);
    assert_eq!(one.get_total_number_of_file_entries(), 3);
    assert_eq!(one.get_current_number_of_matches(), 6);
    assert_eq!(shape(&one), "HcmcHmmHc");
    assert_eq!(shape(&other), "HcHmmHcmc");
}

#[test]
fn separators_become_headers_and_count_as_nothing() {
    let entry = FileEntry::new(
        "a".to_owned(),
        vec![line(1, "m"), context_line(2, "c"), gap(), context_line(8, "c"), line(9, "m")],
    );
    assert_eq!(entry.get_matches_count(), 2);
    assert_eq!(entry.len(), 6);
    assert!(entry.is_file_block());
    let mut list = ResultList::default();
    list.add_entry(entry);
    assert_eq!(shape(&list), "Hmc-cm");
    assert_eq!(list.get_total_number_of_matches(), 2);
    assert_eq!(list.get_current_number_of_matches(), 4);
}

#[test]
fn files_to_the_next_and_the_one_before() {
    let mut list = list_of(&[2, 3, 1]);
    assert_eq!(shape(&list), "HmmHmmmHm");
    list.previous_file();
    assert_eq!(selected(&list), Some(1));
    list.next_match();
    list.previous_file();
    assert_eq!(selected(&list), Some(2));
    list.next_file();
    assert_eq!(selected(&list), Some(4));
    list.next_match();
    list.next_match();
    assert_eq!(selected(&list), Some(6));
    list.previous_file();
    assert_eq!(selected(&list), Some(1));
    list.next_file();
    list.next_file();
    assert_eq!(selected(&list), Some(8));
    list.next_file();
    assert_eq!(selected(&list), Some(8));
    list.previous_file();
    assert_eq!(selected(&list), Some(4));
}

#[test]
fn a_separator_starts_a_block_for_steps_between_files() {
    let mut list = ResultList::default();
    list.add_entry(FileEntry::new(
        "a".to_owned(),
        vec![line(1, "m"), gap(), line(9, "m")],
    ));
    list.add_entry(file("b", 1));
    assert_eq!(shape(&list), "Hm-mHm");
    list.next_file();
    assert_eq!(selected(&list), Some(3));
    list.next_file();
    assert_eq!(selected(&list), Some(5));
    list.previous_file();
    assert_eq!(selected(&list), Some(3));
    list.previous_file();
    assert_eq!(selected(&list), Some(1));
}

#[test]
fn top_and_bottom() {
    let mut list = list_of(&[150, 150]);
    assert_eq!(list.len(), 302);
    list.bottom();
    assert_eq!(selected(&list), Some(301));
    assert_eq!(list.get_state().offset(), 202);
    list.top();
    assert_eq!(selected(&list), Some(1));
    assert_eq!(list.get_state().offset(), 0);
    let mut list = list_of(&[3]);
    list.bottom();
    assert_eq!(selected(&list), Some(3));
    assert_eq!(list.get_state().offset(), 0);
}

#[test]
fn jumps_land_on_lines() {
    let mut list = list_of(&[2, 2]);
    assert_eq!(shape(&list), "HmmHmm");
    list.jump_to(0);
    assert_eq!(selected(&list), Some(1));
    list.jump_to(2);
    assert_eq!(selected(&list), Some(2));
    list.jump_to(3);
    assert_eq!(selected(&list), Some(4));
    list.jump_to(5);
    assert_eq!(selected(&list), Some(5));
    list.jump_to(6);
    assert_eq!(selected(&list), Some(5));
    list.jump_to(usize::MAX);
    assert_eq!(selected(&list), Some(5));
    list.jump_to_relative(-2);
    assert_eq!(selected(&list), Some(4));
    list.jump_to_relative(-2);
    assert_eq!(selected(&list), Some(2));
    list.jump_to_relative(i32::MIN);
    assert_eq!(selected(&list), Some(1));
    list.jump_to_relative(2);
    assert_eq!(selected(&list), Some(4));
    list.jump_to_relative(0);
    assert_eq!(selected(&list), Some(4));
    list.jump_to_relative(i32::MAX);
    assert_eq!(selected(&list), Some(5));
    assert_eq!(list.get_state().offset(), 0);
}

#[test]
fn only_long_jumps_move_the_window() {
    let mut list = list_of(&[500]);
    list.jump_to(101);
    assert_eq!(selected(&list), Some(101));
    assert_eq!(list.get_state().offset(), 0);
    list.jump_to(202);
    assert_eq!(list.get_state().offset(), 202);
    list.jump_to(102);
    assert_eq!(list.get_state().offset(), 202);
    list.jump_to_relative(101);
    assert_eq!(selected(&list), Some(203));
    assert_eq!(list.get_state().offset(), 203);
    list.jump_to_relative(-100);
    assert_eq!(selected(&list), Some(103));
    assert_eq!(list.get_state().offset(), 203);
    list.jump_to(401);
    assert_eq!(list.get_state().offset(), 401);
    list.jump_to(200);
    list.jump_to(402);
    assert_eq!(selected(&list), Some(402));
    assert_eq!(list.get_state().offset(), 401);
    list.jump_to(500);
    assert_eq!(list.get_state().offset(), 401);
    list.jump_to(1);
    assert_eq!(list.get_state().offset(), 1);
}

#[test]
fn removing_lines_one_by_one() {
    let mut list = list_of(&[3, 1]);
    assert_eq!(shape(&list), "HmmmHm");
    list.next_match();
    assert_eq!(selected(&list), Some(2));
    list.remove_current_entry();
    assert_eq!(shape(&list), "HmmHm");
    assert_eq!(selected(&list), Some(2));
    assert_eq!(list.get_filtered_matches_count(), 1);
    list.remove_current_entry();
    assert_eq!(shape(&list), "HmHm");
    assert_eq!(selected(&list), Some(1));
    assert_eq!(list.get_filtered_matches_count(), 2);
    list.remove_current_entry();
    assert_eq!(shape(&list), "Hm");
    assert_eq!(selected(&list), Some(1));
    assert_eq!(list.get_filtered_matches_count(), 3);
    list.remove_current_entry();
    assert_eq!(shape(&list), "");
    assert_eq!(selected(&list), None);
    assert_eq!(list.get_filtered_matches_count(), 4);
    assert_eq!(list.get_total_number_of_matches(), 4);
    assert_eq!(list.get_total_number_of_file_entries(), 2);
}

#[test]
fn removing_files() {
    let mut list = list_of(&[2, 3, 1]);
    list.jump_to(5);
    list.remove_current_file();
    assert_eq!(shape(&list), "HmmHm");
    assert_eq!(selected(&list), Some(2));
    assert_eq!(list.get_filtered_matches_count(), 3);
    list.next_match();
    assert_eq!(selected(&list), Some(4));
    list.remove_current_file();
    assert_eq!(shape(&list), "Hmm");
    assert_eq!(selected(&list), Some(2));
    assert_eq!(list.get_filtered_matches_count(), 4);
    list.remove_current_file();
    assert_eq!(shape(&list), "");
    assert_eq!(selected(&list), None);
    assert_eq!(list.get_filtered_matches_count(), 6);
    assert_eq!(list.get_state().offset(), 0);
}

#[test]
fn removing_the_first_file_keeps_row_one_selected() {
    let mut list = list_of(&[2, 2]);
    list.remove_current_file();
    assert_eq!(shape(&list), "Hmm");
    assert_eq!(selected(&list), Some(1));
    let mut list = list_of(&[2, 2]);
    list.next_match();
    list.remove_current_file();
    assert_eq!(shape(&list), "Hmm");
    assert_eq!(selected(&list), Some(1));
}

#[test]
fn a_file_is_removed_with_its_separators() {
    let mut list = ResultList::default();
    list.add_entry(file("a", 1));
    list.add_entry(FileEntry::new(
        "b".to_owned(),
        vec![line(1, "m"), context_line(2, "c"), gap(), context_line(8, "c"), line(9, "m")],
    ));
    list.add_entry(file("c", 1));
    assert_eq!(shape(&list), "HmHmc-cmHm");
    list.jump_to(6);
    assert_eq!(selected(&list), Some(6));
    list.remove_current_file();
    assert_eq!(shape(&list), "HmHm");
    assert_eq!(selected(&list), Some(1));
    assert_eq!(list.get_filtered_matches_count(), 5);
}

#[test]
fn the_only_line_of_a_block_takes_its_file_along() {
    let mut list = ResultList::default();
    list.add_entry(FileEntry::new(
        "a".to_owned(),
        vec![line(1, "m"), line(2, "m"), gap(), line(9, "m")],
    ));
    assert_eq!(shape(&list), "Hmm-m");
    list.bottom();
    assert_eq!(selected(&list), Some(4));
    list.remove_current_entry();
    assert_eq!(shape(&list), "");
    assert_eq!(selected(&list), None);
    assert_eq!(list.get_filtered_matches_count(), 4);
}

#[test]
fn the_selected_entry_names_file_and_line() {
    let mut list = ResultList::default();
    list.add_entry(FileEntry::new(
        "src/a.rs".to_owned(),
        vec![line(3, "m"), context_line(4, "c"), gap(), context_line(40, "c"), line(41, "m")],
    ));
    list.add_entry(FileEntry::new("src/b.rs".to_owned(), vec![line(7, "1 starts with a digit"), line(8, "m")]));
    assert_eq!(list.get_selected_entry(), Some(("src/a.rs".to_owned(), 3)));
    list.next_match();
    assert_eq!(list.get_selected_entry(), Some(("src/a.rs".to_owned(), 4)));
    list.next_match();
    assert_eq!(list.get_selected_entry(), Some(("src/a.rs".to_owned(), 40)));
    list.next_match();
    assert_eq!(list.get_selected_entry(), Some(("src/a.rs".to_owned(), 41)));
    list.next_match();
    assert_eq!(list.get_selected_entry(), Some(("src/b.rs".to_owned(), 7)));
    list.next_match();
    assert_eq!(list.get_selected_entry(), Some(("src/b.rs".to_owned(), 8)));
}

#[test]
fn the_position_among_the_lines() {
    let mut list = list_of(&[2, 2]);
    assert_eq!(list.get_current_match_index(), 1);
    list.next_match();
    assert_eq!(list.get_current_match_index(), 2);
    list.next_match();
    assert_eq!(selected(&list), Some(4));
    assert_eq!(list.get_current_match_index(), 3);
    list.next_match();
    assert_eq!(list.get_current_match_index(), 4);
    assert_eq!(list.get_current_number_of_matches(), 4);
    list.remove_current_entry();
    assert_eq!(list.get_current_match_index(), 3);
    assert_eq!(list.get_current_number_of_matches(), 3);
}

#[test]
fn the_wrapper_switch() {
    let mut list = ResultList::default();
    assert!(!list.is_text_wrapped());
    list.toggel_text_wrapper();
    assert!(list.is_text_wrapped());
    list.toggel_text_wrapper();
    assert!(!list.is_text_wrapped());
}

#[test]
fn rows_that_are_no_file_block_are_not_accepted() {
    let list = ResultList::default();
    assert!(!list.accepts(&FileEntry::new("a".to_owned(), vec![])));
    assert!(!list.accepts(&FileEntry::new("a".to_owned(), vec![gap(), line(1, "m")])));
    assert!(!list.accepts(&FileEntry::new("a".to_owned(), vec![line(1, "m"), gap()])));
    assert!(!list.accepts(&FileEntry::new(
        "a".to_owned(),
        vec![line(1, "m"), gap(), gap(), line(5, "m")]
    )));
    assert!(!list.accepts(&FileEntry::new(separator(), vec![line(1, "m")])));
    assert!(list.accepts(&FileEntry::new("a".to_owned(), vec![context_line(1, "c")])));
    assert!(list.accepts(&FileEntry::new(
        "a".to_owned(),
        vec![line(1, "m"), gap(), line(5, "m")]
    )));
}

#[test]
fn the_rows_can_be_walked() {
    let list = list_of(&[2, 1]);
    assert_eq!(list.iter().count(), 5);
    assert!(matches!(list.iter().next(), Some(EntryType::Header(name)) if name == "f0"));
}

#[test]
fn the_list_state_can_be_put_back() {
    let mut list = list_of(&[30]);
    list.jump_to(12);
    let mut state = *list.get_state();
    let shown = state.scroll_to_selected(
        &vec![1; 31],
        10,
        &igrep::ui::scroll_offset_list::ScrollOffset::default().top(1),
    );
    assert_eq!(shown, 10);
    assert_eq!(state.offset(), 3);
    state.select(Some(7));
    list.set_state(state);
    assert_eq!(list.get_state().offset(), 3);
    assert_eq!(selected(&list), Some(12));
}

#[test]
fn the_band_that_is_laid_out() {
    let list = ResultList::default();
    assert_eq!(list.band(), (0, 0));
    let list = list_of(&[9]);
    assert_eq!(list.band(), (0, 10));
    let mut list = list_of(&[500]);
    assert_eq!(list.band(), (0, 200));
    list.jump_to(300);
    assert_eq!(list.get_state().get_skip(), 200);
    assert_eq!(list.band(), (200, 400));
    list.bottom();
    assert_eq!(list.get_state().get_skip(), 400);
    assert_eq!(list.band(), (400, 501));
    let mut state = *list.get_state();
    state.set_skip(usize::MAX);
    list.set_state(state);
    assert_eq!(list.band(), (501, 501));
}

#[test]
fn the_widget_counts_from_the_start_of_the_band() {
    let list = ResultList::default();
    let state = list.band_state();
    assert_eq!((state.get_skip(), state.offset(), state.selected()), (0, 0, None));
    let mut list = list_of(&[500]);
    list.jump_to(300);
    assert_eq!(list.band(), (200, 400));
    assert_eq!(list.get_state().offset(), 300);
    let state = list.band_state();
    assert_eq!((state.get_skip(), state.offset(), state.selected()), (0, 100, Some(100)));
    list.set_band_offset(95);
    assert_eq!(list.get_state().offset(), 295);
    assert_eq!(selected(&list), Some(300));
    assert_eq!(list.get_state().get_skip(), 200);
    let mut state = *list.get_state();
    state.set_offset(10);
    list.set_state(state);
    let state = list.band_state();
    assert_eq!((state.offset(), state.selected()), (0, Some(100)));
    list.set_band_offset(usize::MAX);
    assert_eq!(list.get_state().offset(), usize::MAX);
}

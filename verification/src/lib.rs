//! Search-result browsing for an interactive grep front end.
//!
//! The crate holds the parts of the tool that decide things, each with a
//! contract that Verus checks:
//!
//! - [`grep_match`] and [`file_entry`]: the lines that the searcher reports
//!   for a file, and the rows that they become;
//! - [`ig::search_config`]: what is searched for, and where;
//! - [`ig::sink`] and [`ig::searcher`]: how the reports of one file are
//!   collected, and how the events of a background search are taken;
//! - [`ui::result_list`]: the flat list of all rows, with its selection,
//!   its steps and jumps, and the removal of lines and files;
//! - [`ui::scroll_offset_list`]: the window that follows the selection;
//! - [`ui::soft_warp`] and [`ui::row_spans`]: how a line is cut into display
//!   rows and highlighted spans;
//! - [`ui::cmd_parse`], [`ui::input_handler`] and [`ui::app`]: the search
//!   command, the keys typed by the user, and what they ask of the program.
//!
//! Walking the file tree, reading the keyboard and drawing the screen are
//! left to the program that uses the crate.

pub mod file_entry;
pub mod grep_match;
pub mod ig;
pub mod ui;

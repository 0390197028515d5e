//! The parts of the interface that decide what is selected and shown.

pub mod app;
pub mod cmd_parse;
pub mod input_handler;
pub mod result_list;
pub mod row_spans;
pub mod scroll_offset_list;
pub mod soft_warp;

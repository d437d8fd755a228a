//! Generic widgets: a one-line paragraph and a selectable list.

mod line_paragraph;
mod list_view;

pub use line_paragraph::LineParagraph;
pub use list_view::{last_index, next_index, prev_index, LineItem, ListView};

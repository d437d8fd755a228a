//! The terminal views: the list of codes and the line that shows how much
//! of the current time step has passed.

pub mod totp_line_paragraph;
pub mod totp_list_view;
pub mod widgets;

pub use totp_line_paragraph::TotpLineParagraph;
pub use totp_list_view::TotpListView;

//! Arrange a second monitor beside the first one and set a wallpaper.
//!
//! The crate holds the decisions of the tool: how the output of the
//! display-listing command is read, which commands arrange the screens and
//! set the background, and what is reported when no monitor is connected.
//! Running the commands is left to the caller.

pub mod argsparser;
pub mod decimal;
pub mod listing;
pub mod screenspliter;
pub mod text;

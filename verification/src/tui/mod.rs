//! The terminal interface, as data: styled lines for each panel and the
//! navigation state with its key handling. Drawing them is left to the
//! terminal front end.
pub mod style;
pub mod sidebyside;
pub mod impact_panel;
pub mod app;
pub mod summary_panel;
pub mod panels;

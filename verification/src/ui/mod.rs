//! What the user sees and types: the panel and the hint overlay.

pub mod hints_window;
pub mod laws;
pub mod matching;
pub mod panel;
pub mod shell;

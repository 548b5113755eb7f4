//! Vimium-style mouseless navigation: which elements can be acted on, how they
//! are labelled, how a label or a search selects one of them, and what is then
//! done with it.

pub mod atspi;
pub mod daemon;
pub mod geometry;
pub mod hints;
pub mod niri;
pub mod overlay;
pub mod paths;
pub mod pointer;
pub mod rank;
pub mod report;
pub mod session;
pub mod text;
pub mod ui;

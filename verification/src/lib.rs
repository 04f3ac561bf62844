//! Layout-solving core of a widget toolkit: the bookkeeping that keeps an
//! incremental linear-constraint engine in step with the widgets that own
//! its variables.

pub mod scalar;
pub mod seqs;
pub mod engine;
pub mod assoc;
pub mod layout;
pub mod names;
pub mod format;
pub mod model;
pub mod solver;
pub mod laws;
pub mod event;
pub mod edit_text;

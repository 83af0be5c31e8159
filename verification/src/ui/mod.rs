//! Widgets and their transitions.

pub mod transition;
pub mod widget;

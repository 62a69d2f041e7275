//! Control core of a terminal audio mixer: entry model, page projection,
//! UI-mode state machine with the entry-reordering protocol, redraw
//! directive merging and the per-event dispatch step.
pub mod dispatch;
pub mod entries;
pub mod entry;
pub mod mode;
pub mod move_entry;
pub mod moves;
pub mod page;
pub mod redraw;
pub mod state;

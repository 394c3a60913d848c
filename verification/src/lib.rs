//! Optimistic reordering of a shared kanban board: the drag state, the
//! position rewriting that keeps every column ordered, the set of issues that
//! still have to be pushed upstream, and the outbound queue that holds
//! messages while the channel is not open. Beside the board stand the
//! registry of the style sheet bundler and the stored names of an issue's
//! enumerations.

pub mod counting;
pub mod order;
pub mod issue;
pub mod drag;
pub mod message;
pub mod model;
pub mod ws;
pub mod project;
pub mod invariants;
pub mod css;
pub mod css_line;
pub mod errors;
pub mod requests;
pub mod sql;

//! Layout of the rows that make up one pane card in the agent sidebar.
//!
//! The crate computes, from the state of a pane, the exact sequence of styled
//! text spans that the sidebar draws for it: the status row, the branch/ports
//! row, task progress, sub-agents, wait reason and the wrapped prompt.

pub mod width;
pub mod text;
pub mod style;
pub mod pane;
pub mod theme;
pub mod row;
pub mod wrap;
pub mod card;
pub mod content;

//! A verified core for a terminal git history browser: text search,
//! the lane graph of the commit list, hunk staging, license status,
//! viewport arithmetic and the key-driven state machine.

pub mod action;
pub mod args;
pub mod commit_graph;
pub mod complete;
pub mod details;
pub mod details_panel;
pub mod file_tree;
pub mod highlight;
pub mod hunk;
pub mod layout;
pub mod license;
pub mod list_view;
pub mod normal;
pub mod prompt;
pub mod repo;
pub mod search;
pub mod search_bar;
pub mod sha;
pub mod staging;
pub mod staging_panels;
pub mod state;
pub mod text;
pub mod ui_state;
pub mod utils;
pub mod viewport;
pub mod worktree;

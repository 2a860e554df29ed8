//! The source panel of a terminal workspace manager.

pub mod app_state;
pub mod diff_pane;
pub mod explorer;
pub mod file_tree;
pub mod geometry;
pub mod ids;
pub mod input;
pub mod numbering;
pub mod order;
pub mod panel;
pub mod path;
pub mod path_map;
pub mod render;
pub mod source_control;
pub mod tab;
pub mod text;
pub mod watcher;
pub mod workspace;

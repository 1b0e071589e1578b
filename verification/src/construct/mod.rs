//! The constructs: one state machine for each piece of syntax.
pub mod blank_line;
pub mod list;
pub mod list_proof;
pub mod partial_space_or_tab;
pub mod partial_space_or_tab_proof;
pub mod partial_title;
pub mod partial_title_proof;
pub mod thematic_break;

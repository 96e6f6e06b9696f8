//! Layout engines and interaction state machines for terminal user interface components.
pub mod geometry;
pub mod space;
pub mod flex;
pub mod grid;
pub mod keys;
pub mod list;
pub mod text;
pub mod dropdown;
pub mod menu;
pub mod list_control;
pub mod image;
pub mod form_field;
pub mod diff;
pub mod reorder;
pub mod tree_reorder;

//! Core logic of a floating Wayland compositor: workspaces, window stacking,
//! layer-shell layout, configure bookkeeping and key-binding parsing.

pub mod geometry;
pub mod slot_vec;
pub mod wm;
pub mod input;
pub mod config;
pub mod popup;
pub mod gpu;
pub mod surfaces;
pub mod cursor;
pub mod draw_order;

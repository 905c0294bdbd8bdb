//! A floating window manager: windows on numbered workspaces, layer-shell
//! surfaces in four layers, transient (parent/child) windows kept together.

pub mod types;
pub mod floating;
pub mod locate;
pub mod window_props;
pub mod laws;
pub mod mapping;
pub mod layer_layout;
pub mod queries;
pub mod flat;
pub mod transient;
pub mod stacking;
pub mod configure;
pub mod interactive;
pub mod swipe;
pub mod focus;

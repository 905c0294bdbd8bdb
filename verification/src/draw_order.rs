//! The order in which windows are drawn: by layer, bottom to top.
//!
//! Layer-shell surfaces keep their shell layer (background 0, bottom 1,
//! top 3, overlay 4, any other layer counted as top); workspace windows sit
//! at 2, between bottom and top. For drawing, a fullscreen workspace window
//! rises to 4, above the top layer, and the overlay to 5, above it.

use vstd::prelude::*;

verus! {

/// The drawing layer of a window: its shell layer for a layer-shell
/// surface, 2 for a workspace window.
pub open spec fn base_layer_of(is_layer_surface: bool, layer: u32) -> u32 {
    if !is_layer_surface {
        2
    } else if layer == 0 {
        0
    } else if layer == 1 {
        1
    } else if layer == 3 {
        4
    } else {
        3
    }
}

/// The drawing layer of a window (see `base_layer_of`).
pub fn base_layer(is_layer_surface: bool, layer: u32) -> (r: u32)
    ensures
        r == base_layer_of(is_layer_surface, layer),
{
    if !is_layer_surface {
        2
    } else {
        match layer {
            0 => 0,
            1 => 1,
            2 => 3,
            3 => 4,
            _ => 3,
        }
    }
}

/// The key windows are drawn by, from their drawing layer: a fullscreen
/// workspace window at 4, the overlay at 5, any other layer as it is.
pub open spec fn draw_key_of(base: u32, fullscreen_window: bool) -> u32 {
    if base == 2 && fullscreen_window {
        4
    } else if base == 4 {
        5
    } else {
        base
    }
}

/// The key a window is drawn by (see `draw_key_of`); `fullscreen_window`
/// tells a fullscreen window that is no layer-shell surface.
pub fn draw_key(base: u32, fullscreen_window: bool) -> (r: u32)
    ensures
        r == draw_key_of(base, fullscreen_window),
{
    match base {
        2 if fullscreen_window => 4,
        4 => 5,
        other => other,
    }
}

/// The key a window still known to the manager is drawn by: from its shell
/// layer, whether it is a layer-shell surface, and whether it is fullscreen.
pub fn window_draw_key(is_layer_surface: bool, layer: u32, fullscreen: bool) -> (r: u32)
    ensures
        r == draw_key_of(base_layer_of(is_layer_surface, layer), fullscreen && !is_layer_surface),
{
    draw_key(base_layer(is_layer_surface, layer), fullscreen && !is_layer_surface)
}

/// A layer-shell surface is drawn below every workspace window when it is
/// in the background or bottom layer, and above every workspace window that
/// is not fullscreen when it is in any other layer; the overlay is drawn
/// above every window that is no overlay surface.
pub proof fn law_layers_stack(layer: u32, fullscreen: bool, other_layer: u32, other_is_layer: bool, other_fullscreen: bool)
    ensures
        layer <= 1 ==> draw_key_of(base_layer_of(true, layer), false) < draw_key_of(base_layer_of(false, 0), fullscreen),
        layer >= 2 ==> draw_key_of(base_layer_of(true, layer), false) > draw_key_of(base_layer_of(false, 0), false),
        layer == 3 && !(other_is_layer && other_layer == 3) ==> draw_key_of(base_layer_of(true, 3), false) > draw_key_of(
            base_layer_of(other_is_layer, other_layer),
            other_fullscreen && !other_is_layer,
        ),
{
}

} // verus!

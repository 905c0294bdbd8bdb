//! The window manager's data: windows, popups, workspaces and outputs.
//!
//! Surfaces and toplevels are named by integer handles that the embedding
//! server hands out, one per protocol object; equal handles mean the same object.

use vstd::prelude::*;
use crate::geometry::Rect;
use crate::slot_vec::{Slot, SlotVec};

verus! {

/// A configure event sent to a client and not yet applied.
#[derive(Clone, Copy, Debug, PartialEq, Eq)]
pub struct ConfigureState {
    pub serial: u32,
    pub maximized: bool,
    pub fullscreen: bool,
    pub resizing: bool,
    pub edges: u32,
    pub w: i32,
    pub h: i32,
}

/// One window (a toplevel or a layer-shell surface).
pub struct WindowState {
    /// Handle of the window's surface.
    pub surface_id: u64,
    /// The surface's protocol id, by which commands name a window.
    pub protocol_id: u32,
    /// Handle of the toplevel role object, once assigned.
    pub toplevel_id: Option<u64>,
    /// Whether the window is a layer-shell surface.
    pub is_layer_surface: bool,
    /// Toplevel handle of the window's transient parent.
    pub parent_id: Option<u64>,
    pub w: i32,
    pub h: i32,
    pub geometry: Rect,
    pub title: Option<String>,
    pub app_id: Option<String>,
    pub ssd: bool,
    pub maximized: bool,
    pub fullscreen: bool,
    pub minimized: bool,
    pub modal: bool,
    /// Size to restore when leaving maximized or fullscreen state.
    pub saved_size: Option<(i32, i32)>,
    pub layer: u32,
    pub anchor: u32,
    pub exclusive_zone: i32,
    /// Margins: top, right, bottom, left.
    pub margin: (i32, i32, i32, i32),
    pub keyboard_interactivity: u32,
    pub is_interacting: bool,
    pub sent_configures: Vec<ConfigureState>,
    pub acknowledged_serial: Option<u32>,
}

/// A popup surface, placed relative to its parent surface.
#[derive(Clone, Copy, Debug)]
pub struct PopupState {
    pub surface_id: u64,
    pub parent_surface_id: u64,
    pub x: i32,
    pub y: i32,
    pub geometry: Rect,
}

/// The windows of one layer-shell layer, bottom-most first.
pub struct DisplayLayerState {
    pub windows: Vec<WindowState>,
}

impl DisplayLayerState {
    /// A layer without windows.
    pub fn new() -> (r: Self)
        ensures
            r.windows@ == Seq::<WindowState>::empty(),
    {
        DisplayLayerState { windows: Vec::new() }
    }
}

/// A workspace: its id and its windows, bottom-most first.
pub struct Workspace {
    pub id: usize,
    pub windows: Vec<WindowState>,
}

impl Workspace {
    /// An empty workspace with the given id.
    pub fn new(id: usize) -> (r: Self)
        ensures
            r.id == id,
            r.windows@ == Seq::<WindowState>::empty(),
    {
        Workspace { id, windows: Vec::new() }
    }
}

/// Number of workspaces an output starts with.
pub const INITIAL_WORKSPACES: usize = 10;

/// One output (monitor): its workspaces and its four layer-shell layers.
pub struct OutputState {
    pub id: usize,
    pub workspaces: SlotVec<Workspace>,
    pub active_workspace: usize,
    pub background: DisplayLayerState,
    pub bottom: DisplayLayerState,
    pub top: DisplayLayerState,
    pub overlay: DisplayLayerState,
    pub usable_area: Rect,
}

/// Whether slot `s` holds an empty workspace with id `id`.
pub open spec fn is_fresh_workspace(s: Slot<Workspace>, id: int) -> bool {
    &&& s is Occupied
    &&& s->Occupied_0.id == id
    &&& s->Occupied_0.windows@.len() == 0
}

impl OutputState {
    /// An output with ten empty workspaces, the first one active, and empty layers.
    pub fn new(id: usize) -> (r: Self)
        ensures
            r.id == id,
            r.workspaces@.len() == INITIAL_WORKSPACES,
            forall|i: int| 0 <= i < INITIAL_WORKSPACES ==> is_fresh_workspace(#[trigger] r.workspaces@[i], i),
            r.active_workspace == 0,
            r.background.windows@.len() == 0,
            r.bottom.windows@.len() == 0,
            r.top.windows@.len() == 0,
            r.overlay.windows@.len() == 0,
            r.usable_area == (Rect { x: 0, y: 0, w: 0, h: 0 }),
    {
        let mut wx: SlotVec<Workspace> = SlotVec::new(INITIAL_WORKSPACES);
        let mut i: usize = 0;
        while i < INITIAL_WORKSPACES
            invariant
                i <= INITIAL_WORKSPACES,
                wx@.len() == INITIAL_WORKSPACES,
                forall|j: int| 0 <= j < i ==> is_fresh_workspace(#[trigger] wx@[j], j),
            decreases INITIAL_WORKSPACES - i,
        {
            wx.inner.set(i, Slot::Occupied(Workspace::new(i)));
            i = i + 1;
        }
        OutputState {
            id,
            workspaces: wx,
            active_workspace: 0,
            background: DisplayLayerState::new(),
            bottom: DisplayLayerState::new(),
            top: DisplayLayerState::new(),
            overlay: DisplayLayerState::new(),
            usable_area: Rect { x: 0, y: 0, w: 0, h: 0 },
        }
    }
}

/// Where a new workspace goes, relative to an existing one.
#[derive(Clone, Copy, Debug)]
pub enum WorkspaceInsertPosition {
    After(usize),
    Before(usize),
}

/// An interactive resize in progress: the window, the edges being dragged,
/// and the window geometry when it began.
#[derive(Clone, Copy, Debug)]
pub struct ResizeState {
    pub surface_id: u64,
    pub edges: u32,
    pub start_geometry: Rect,
}

} // verus!

//! The compositor's configuration: key bindings and the commands they run.
//!
//! The configuration script builds commands through functions taking
//! options; the values it gave are read by the embedding server and handed
//! to the builders here, which decide on the command.

pub mod keybinds;

use vstd::prelude::*;

verus! {

/// A command of the compositor, as a binding or the configuration script
/// asks for it. Workspace numbers here count from 0.
#[derive(Clone, Debug)]
#[allow(inconsistent_fields)]
pub enum CompositorCommand {
    Quit,
    Exec { full_sh_cmd: String },
    CloseWindow { id: Option<u32> },
    FullscreenWindow { id: Option<u32>, toggle: bool, value: bool },
    FocusWorkspace { id: Option<usize>, next: bool, previous: bool },
    DragWindow,
    ResizeWindow,
    MoveWindowToWorkspace { id: Option<u32>, workspace: usize },
}

/// The 0-based number of workspace `n` as the configuration counts it from
/// 1 (0 stays 0).
pub open spec fn from_one_based(n: usize) -> usize {
    if n > 0 {
        (n - 1) as usize
    } else {
        0
    }
}

/// The fullscreen command for the options given: a window `id`, a `value`
/// to set (which turns toggling off) and `toggle` (also read under the key
/// `toogle`). Without options it toggles the active window.
pub fn fullscreen_command(id: Option<u32>, value: Option<bool>, toggle: Option<bool>) -> (r: CompositorCommand)
    ensures
        r == (CompositorCommand::FullscreenWindow {
            id: id,
            toggle: match toggle {
                Some(t) => t,
                None => value is None,
            },
            value: match value {
                Some(v) => v,
                None => false,
            },
        }),
{
    let mut tgl = true;
    let mut val = false;
    if let Some(v) = value {
        val = v;
        tgl = false;
    }
    if let Some(t) = toggle {
        tgl = t;
    }
    CompositorCommand::FullscreenWindow { id, toggle: tgl, value: val }
}

/// The command moving a window (`id`, else the focused one) to workspace
/// `workspace`, counted from 1.
pub fn move_command(workspace: usize, id: Option<u32>) -> (r: CompositorCommand)
    ensures
        r == (CompositorCommand::MoveWindowToWorkspace { id: id, workspace: from_one_based(workspace) }),
{
    let target_ws = if workspace > 0 {
        workspace - 1
    } else {
        0
    };
    CompositorCommand::MoveWindowToWorkspace { id, workspace: target_ws }
}

/// The command focusing a workspace: by position `id` (from 0), else by
/// `workspace` (counted from 1), or the next or the previous one.
pub fn focus_command(id: Option<usize>, workspace: Option<usize>, next: Option<bool>, previous: Option<bool>) -> (r: CompositorCommand)
    ensures
        r == (CompositorCommand::FocusWorkspace {
            id: match id {
                Some(i) => Some(i),
                None => match workspace {
                    Some(w) => Some(from_one_based(w)),
                    None => None,
                },
            },
            next: match next {
                Some(n) => n,
                None => false,
            },
            previous: match previous {
                Some(p) => p,
                None => false,
            },
        }),
{
    let mut target = id;
    if target.is_none() {
        if let Some(ws) = workspace {
            target = Some(if ws > 0 {
                ws - 1
            } else {
                0
            });
        }
    }
    let nx = match next {
        Some(n) => n,
        None => false,
    };
    let pv = match previous {
        Some(p) => p,
        None => false,
    };
    CompositorCommand::FocusWorkspace { id: target, next: nx, previous: pv }
}

} // verus!

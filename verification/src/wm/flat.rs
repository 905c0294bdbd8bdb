//! All windows of the manager as one sequence, in search order.

use vstd::prelude::*;
use crate::slot_vec::Slot;
use crate::wm::types::{OutputState, WindowState, Workspace};

verus! {

/// The windows of slot `s` (none when empty).
pub open spec fn slot_windows(s: Slot<Workspace>) -> Seq<WindowState> {
    match s {
        Slot::Occupied(ws) => ws.windows@,
        Slot::Empty => Seq::empty(),
    }
}

/// The windows of all workspaces of `s`, workspace by workspace.
pub open spec fn ws_concat(s: Seq<Slot<Workspace>>) -> Seq<WindowState>
    decreases s.len(),
{
    if s.len() == 0 {
        Seq::empty()
    } else {
        ws_concat(s.drop_last()) + slot_windows(s.last())
    }
}

/// The windows of output `o` in search order: background, bottom, the
/// workspaces in position order, top, overlay; bottom-most first in each.
pub open spec fn output_flat(o: OutputState) -> Seq<WindowState> {
    o.background.windows@ + o.bottom.windows@ + ws_concat(o.workspaces@) + o.top.windows@ + o.overlay.windows@
}

/// The windows of the outputs `os`, output by output.
pub open spec fn outputs_flat(os: Seq<OutputState>) -> Seq<WindowState>
    decreases os.len(),
{
    if os.len() == 0 {
        Seq::empty()
    } else {
        outputs_flat(os.drop_last()) + output_flat(os.last())
    }
}

} // verus!

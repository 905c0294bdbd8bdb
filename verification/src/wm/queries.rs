//! Read-only questions about the window manager's state.

use vstd::prelude::*;
use crate::slot_vec::Slot;
use crate::wm::floating::{Wm, first_output};
use crate::wm::flat::{output_flat, outputs_flat, slot_windows, ws_concat};
use crate::wm::locate::{WindowKey, key_matches, position_in};
use crate::wm::types::{ConfigureState, OutputState, ResizeState, WindowState, Workspace};

verus! {

/// Whether `w` can take keyboard focus: an ordinary window, or a layer
/// surface that asks for keyboard interactivity.
pub open spec fn focusable(w: WindowState) -> bool {
    !w.is_layer_surface || w.keyboard_interactivity > 0
}

/// The surface of the top-most focusable window of `s`.
pub open spec fn last_focusable(s: Seq<WindowState>) -> Option<u64>
    decreases s.len(),
{
    if s.len() == 0 {
        None
    } else if focusable(s.last()) {
        Some(s.last().surface_id)
    } else {
        last_focusable(s.drop_last())
    }
}

/// A window's data as values: strings and configure lists by their contents.
pub struct WindowView {
    pub surface_id: u64,
    pub protocol_id: u32,
    pub toplevel_id: Option<u64>,
    pub is_layer_surface: bool,
    pub parent_id: Option<u64>,
    pub w: i32,
    pub h: i32,
    pub geometry: crate::geometry::Rect,
    pub title: Option<Seq<char>>,
    pub app_id: Option<Seq<char>>,
    pub ssd: bool,
    pub maximized: bool,
    pub fullscreen: bool,
    pub minimized: bool,
    pub modal: bool,
    pub saved_size: Option<(i32, i32)>,
    pub layer: u32,
    pub anchor: u32,
    pub exclusive_zone: i32,
    pub margin: (i32, i32, i32, i32),
    pub keyboard_interactivity: u32,
    pub is_interacting: bool,
    pub sent_configures: Seq<ConfigureState>,
    pub acknowledged_serial: Option<u32>,
}

/// The contents of an optional string.
pub open spec fn opt_string_view(s: Option<String>) -> Option<Seq<char>> {
    match s {
        Some(t) => Some(t@),
        None => None,
    }
}

impl View for WindowState {
    type V = WindowView;

    open spec fn view(&self) -> WindowView {
        WindowView {
            surface_id: self.surface_id,
            protocol_id: self.protocol_id,
            toplevel_id: self.toplevel_id,
            is_layer_surface: self.is_layer_surface,
            parent_id: self.parent_id,
            w: self.w,
            h: self.h,
            geometry: self.geometry,
            title: opt_string_view(self.title),
            app_id: opt_string_view(self.app_id),
            ssd: self.ssd,
            maximized: self.maximized,
            fullscreen: self.fullscreen,
            minimized: self.minimized,
            modal: self.modal,
            saved_size: self.saved_size,
            layer: self.layer,
            anchor: self.anchor,
            exclusive_zone: self.exclusive_zone,
            margin: self.margin,
            keyboard_interactivity: self.keyboard_interactivity,
            is_interacting: self.is_interacting,
            sent_configures: self.sent_configures@,
            acknowledged_serial: self.acknowledged_serial,
        }
    }
}

/// A copy of an optional string.
fn clone_opt_string(s: &Option<String>) -> (r: Option<String>)
    ensures
        opt_string_view(r) == opt_string_view(*s),
{
    match s {
        Some(t) => Some(t.clone()),
        None => None,
    }
}

/// A copy of a configure list.
fn clone_configures(v: &Vec<ConfigureState>) -> (r: Vec<ConfigureState>)
    ensures
        r@ == v@,
{
    let mut out: Vec<ConfigureState> = Vec::new();
    let mut i: usize = 0;
    while i < v.len()
        invariant
            i <= v@.len(),
            out@ == v@.take(i as int),
        decreases v@.len() - i,
    {
        out.push(v[i]);
        proof {
            assert(v@.take(i as int + 1) =~= v@.take(i as int).push(v@[i as int]));
        }
        i = i + 1;
    }
    proof {
        assert(v@.take(v@.len() as int) =~= v@);
    }
    out
}

/// A copy of a window.
pub fn clone_window(w: &WindowState) -> (r: WindowState)
    ensures
        r@ == w@,
{
    WindowState {
        surface_id: w.surface_id,
        protocol_id: w.protocol_id,
        toplevel_id: w.toplevel_id,
        is_layer_surface: w.is_layer_surface,
        parent_id: w.parent_id,
        w: w.w,
        h: w.h,
        geometry: w.geometry,
        title: clone_opt_string(&w.title),
        app_id: clone_opt_string(&w.app_id),
        ssd: w.ssd,
        maximized: w.maximized,
        fullscreen: w.fullscreen,
        minimized: w.minimized,
        modal: w.modal,
        saved_size: w.saved_size,
        layer: w.layer,
        anchor: w.anchor,
        exclusive_zone: w.exclusive_zone,
        margin: w.margin,
        keyboard_interactivity: w.keyboard_interactivity,
        is_interacting: w.is_interacting,
        sent_configures: clone_configures(&w.sent_configures),
        acknowledged_serial: w.acknowledged_serial,
    }
}

/// Copies of the windows of `v`, in order.
pub fn clone_windows(v: &Vec<WindowState>) -> (r: Vec<WindowState>)
    ensures
        r@.len() == v@.len(),
        forall|i: int| 0 <= i < v@.len() ==> (#[trigger] r@[i])@ == v@[i]@,
{
    let mut out: Vec<WindowState> = Vec::new();
    let mut i: usize = 0;
    while i < v.len()
        invariant
            i <= v@.len(),
            out@.len() == i,
            forall|j: int| 0 <= j < i ==> (#[trigger] out@[j])@ == v@[j]@,
        decreases v@.len() - i,
    {
        out.push(clone_window(&v[i]));
        i = i + 1;
    }
    out
}

/// Window view `v`, marked as interacting when its surface is the one being
/// dragged or resized.
pub open spec fn marked(v: WindowView, drag: Option<u64>, resize: Option<ResizeState>) -> WindowView {
    WindowView {
        is_interacting: v.is_interacting || drag == Some(v.surface_id) || (resize is Some
            && resize->Some_0.surface_id == v.surface_id),
        ..v
    }
}

/// `r` holds, in order, copies of the windows `s` marked as interacting
/// (see `marked`).
pub open spec fn marked_copies(r: Seq<WindowState>, s: Seq<WindowState>, drag: Option<u64>, resize: Option<ResizeState>) -> bool {
    &&& r.len() == s.len()
    &&& forall|i: int| 0 <= i < s.len() ==> (#[trigger] r[i])@ == marked(s[i]@, drag, resize)
}

/// Appends to `out` marked copies of the windows of `v`.
fn push_marked(out: &mut Vec<WindowState>, v: &Vec<WindowState>, drag: Option<u64>, resize: Option<ResizeState>, Ghost(s): Ghost<Seq<WindowState>>)
    requires
        marked_copies(old(out)@, s, drag, resize),
    ensures
        marked_copies(final(out)@, s + v@, drag, resize),
{
    let ghost start = out@;
    let mut i: usize = 0;
    while i < v.len()
        invariant
            i <= v@.len(),
            out@.len() == start.len() + i,
            forall|j: int| 0 <= j < start.len() ==> #[trigger] out@[j] == start[j],
            forall|j: int| 0 <= j < i ==> (#[trigger] out@[start.len() + j])@ == marked(v@[j]@, drag, resize),
            marked_copies(start, s, drag, resize),
        decreases v@.len() - i,
    {
        let mut c = clone_window(&v[i]);
        let hit = match drag {
            Some(d) => d == c.surface_id,
            None => false,
        } || match resize {
            Some(rs) => rs.surface_id == c.surface_id,
            None => false,
        };
        if hit {
            c.is_interacting = true;
        }
        out.push(c);
        proof {
            assert(out@[start.len() + i as int] == c);
        }
        i = i + 1;
    }
    proof {
        assert forall|j: int| 0 <= j < (s + v@).len() implies (#[trigger] out@[j])@ == marked((s + v@)[j]@, drag, resize) by {
            if j >= s.len() {
                assert(out@[start.len() + (j - s.len())] == out@[j]);
            }
        }
    }
}

/// The id of the first workspace among slots `s` holding a window of surface `sid`.
pub open spec fn slots_workspace_of(s: Seq<Slot<Workspace>>, sid: u64) -> Option<usize>
    decreases s.len(),
{
    if s.len() == 0 {
        None
    } else {
        match slots_workspace_of(s.drop_last(), sid) {
            Some(id) => Some(id),
            None => if s.last() is Occupied && exists|j: int|
                0 <= j < s.last()->Occupied_0.windows@.len() && (#[trigger] s.last()->Occupied_0.windows@[j]).surface_id == sid {
                Some(s.last()->Occupied_0.id)
            } else {
                None
            },
        }
    }
}

/// The id of the first workspace of the outputs `os`, output by output,
/// holding a window of surface `sid`.
pub open spec fn outputs_workspace_of(os: Seq<OutputState>, sid: u64) -> Option<usize>
    decreases os.len(),
{
    if os.len() == 0 {
        None
    } else {
        match outputs_workspace_of(os.drop_last(), sid) {
            Some(id) => Some(id),
            None => slots_workspace_of(os.last().workspaces@, sid),
        }
    }
}

/// The surface of the top-most focusable window of `v`.
fn last_focusable_in(v: &Vec<WindowState>) -> (r: Option<u64>)
    ensures
        r == last_focusable(v@),
{
    let mut i: usize = v.len();
    proof {
        assert(v@.take(v@.len() as int) =~= v@);
    }
    while i > 0
        invariant
            i <= v@.len(),
            last_focusable(v@) == last_focusable(v@.take(i as int)),
        decreases i,
    {
        proof {
            assert(v@.take(i as int).drop_last() =~= v@.take(i as int - 1));
        }
        if v[i - 1].is_layer_surface == false || v[i - 1].keyboard_interactivity > 0 {
            return Some(v[i - 1].surface_id);
        }
        i = i - 1;
    }
    None
}

/// The windows that take keyboard focus first, top-most layer first.
pub open spec fn focused_window(wm: Wm) -> Option<u64> {
    if wm.outputs@.len() == 0 {
        None
    } else {
        let o = first_output(wm);
        let ws = if o.active_workspace < o.workspaces@.len() && o.workspaces@[o.active_workspace as int] is Occupied {
            last_focusable(o.workspaces@[o.active_workspace as int]->Occupied_0.windows@)
        } else {
            None
        };
        if last_focusable(o.overlay.windows@) is Some {
            last_focusable(o.overlay.windows@)
        } else if last_focusable(o.top.windows@) is Some {
            last_focusable(o.top.windows@)
        } else if ws is Some {
            ws
        } else if last_focusable(o.bottom.windows@) is Some {
            last_focusable(o.bottom.windows@)
        } else {
            last_focusable(o.background.windows@)
        }
    }
}

impl Wm {
    /// The surface that should have keyboard focus: the top-most focusable
    /// window of the overlay layer, else of the top layer, else of the active
    /// workspace, else of the bottom layer, else of the background layer.
    pub fn get_focused_window(&self) -> (r: Option<u64>)
        ensures
            r == focused_window(*self),
    {
        if self.outputs.len() == 0 {
            return None;
        }
        let out = &self.outputs[0];
        if let Some(w) = last_focusable_in(&out.overlay.windows) {
            return Some(w);
        }
        if let Some(w) = last_focusable_in(&out.top.windows) {
            return Some(w);
        }
        if out.active_workspace < out.workspaces.inner.len() {
            if let Slot::Occupied(ws) = &out.workspaces.inner[out.active_workspace] {
                if let Some(w) = last_focusable_in(&ws.windows) {
                    return Some(w);
                }
            }
        }
        if let Some(w) = last_focusable_in(&out.bottom.windows) {
            return Some(w);
        }
        if let Some(w) = last_focusable_in(&out.background.windows) {
            return Some(w);
        }
        None
    }

    /// Copies of the windows of workspace `workspace_id` of the first output
    /// (none when there is no such workspace).
    pub fn get_workspace_windows_by_id(&self, workspace_id: usize) -> (r: Vec<WindowState>)
        ensures
            ({
                let ws: Seq<WindowState> = if self.outputs@.len() > 0 && workspace_id < first_output(*self).workspaces@.len()
                    && first_output(*self).workspaces@[workspace_id as int] is Occupied {
                    first_output(*self).workspaces@[workspace_id as int]->Occupied_0.windows@
                } else {
                    Seq::empty()
                };
                &&& r@.len() == ws.len()
                &&& forall|i: int| 0 <= i < ws.len() ==> (#[trigger] r@[i])@ == ws[i]@
            }),
    {
        if self.outputs.len() == 0 {
            return Vec::new();
        }
        let out = &self.outputs[0];
        if workspace_id < out.workspaces.inner.len() {
            if let Slot::Occupied(ws) = &out.workspaces.inner[workspace_id] {
                return clone_windows(&ws.windows);
            }
        }
        Vec::new()
    }

    /// Copies of the windows of the active workspace of the first output.
    pub fn get_workspace_windows(&self) -> (r: Vec<WindowState>)
        ensures
            ({
                let ws: Seq<WindowState> = if self.outputs@.len() > 0
                    && first_output(*self).active_workspace < first_output(*self).workspaces@.len()
                    && first_output(*self).workspaces@[first_output(*self).active_workspace as int] is Occupied {
                    first_output(*self).workspaces@[first_output(*self).active_workspace as int]->Occupied_0.windows@
                } else {
                    Seq::empty()
                };
                &&& r@.len() == ws.len()
                &&& forall|i: int| 0 <= i < ws.len() ==> (#[trigger] r@[i])@ == ws[i]@
            }),
    {
        if self.outputs.len() == 0 {
            return Vec::new();
        }
        let active = self.outputs[0].active_workspace;
        self.get_workspace_windows_by_id(active)
    }

    /// Copies of the background layer's windows of the first output.
    pub fn get_background(&self) -> (r: Vec<WindowState>)
        ensures
            self.outputs@.len() == 0 ==> r@.len() == 0,
            self.outputs@.len() > 0 ==> r@.len() == first_output(*self).background.windows@.len()
                && forall|i: int| 0 <= i < r@.len() ==> (#[trigger] r@[i])@ == first_output(*self).background.windows@[i]@,
    {
        if self.outputs.len() == 0 {
            return Vec::new();
        }
        clone_windows(&self.outputs[0].background.windows)
    }

    /// Copies of the bottom layer's windows of the first output.
    pub fn get_bottom(&self) -> (r: Vec<WindowState>)
        ensures
            self.outputs@.len() == 0 ==> r@.len() == 0,
            self.outputs@.len() > 0 ==> r@.len() == first_output(*self).bottom.windows@.len()
                && forall|i: int| 0 <= i < r@.len() ==> (#[trigger] r@[i])@ == first_output(*self).bottom.windows@[i]@,
    {
        if self.outputs.len() == 0 {
            return Vec::new();
        }
        clone_windows(&self.outputs[0].bottom.windows)
    }

    /// Copies of the top layer's windows of the first output.
    pub fn get_top(&self) -> (r: Vec<WindowState>)
        ensures
            self.outputs@.len() == 0 ==> r@.len() == 0,
            self.outputs@.len() > 0 ==> r@.len() == first_output(*self).top.windows@.len()
                && forall|i: int| 0 <= i < r@.len() ==> (#[trigger] r@[i])@ == first_output(*self).top.windows@[i]@,
    {
        if self.outputs.len() == 0 {
            return Vec::new();
        }
        clone_windows(&self.outputs[0].top.windows)
    }

    /// Copies of the overlay layer's windows of the first output.
    pub fn get_overlay(&self) -> (r: Vec<WindowState>)
        ensures
            self.outputs@.len() == 0 ==> r@.len() == 0,
            self.outputs@.len() > 0 ==> r@.len() == first_output(*self).overlay.windows@.len()
                && forall|i: int| 0 <= i < r@.len() ==> (#[trigger] r@[i])@ == first_output(*self).overlay.windows@[i]@,
    {
        if self.outputs.len() == 0 {
            return Vec::new();
        }
        clone_windows(&self.outputs[0].overlay.windows)
    }

    /// The popups, in mapping order.
    pub fn get_popups(&self) -> (r: Vec<crate::wm::types::PopupState>)
        ensures
            r@ == self.popups@,
    {
        let mut out: Vec<crate::wm::types::PopupState> = Vec::new();
        let mut i: usize = 0;
        while i < self.popups.len()
            invariant
                i <= self.popups@.len(),
                out@ == self.popups@.take(i as int),
            decreases self.popups@.len() - i,
        {
            out.push(self.popups[i]);
            proof {
                assert(self.popups@.take(i as int + 1) =~= self.popups@.take(i as int).push(self.popups@[i as int]));
            }
            i = i + 1;
        }
        proof {
            assert(self.popups@.take(self.popups@.len() as int) =~= self.popups@);
        }
        out
    }

    /// Whether a resize is in progress.
    pub fn is_resizing(&self) -> (r: bool)
        ensures
            r == self.resize_state is Some,
    {
        self.resize_state.is_some()
    }

    /// Whether a drag is in progress.
    pub fn is_dragging(&self) -> (r: bool)
        ensures
            r == self.drag_target is Some,
    {
        self.drag_target.is_some()
    }

    /// Whether a workspace swipe is in progress.
    pub fn is_workspace_swiping(&self) -> (r: bool)
        ensures
            r == self.is_swiping,
    {
        self.is_swiping
    }

    /// Ends the drag in progress.
    pub fn end_drag(&mut self)
        ensures
            *final(self) == (Wm { drag_target: None, ..*old(self) }),
    {
        self.drag_target = None;
    }

    /// Answers whether a compaction moved the active workspace since the last
    /// time this was asked, and forgets it.
    pub fn take_compaction_occurred(&mut self) -> (r: bool)
        ensures
            r == old(self).compaction_occurred,
            *final(self) == (Wm { compaction_occurred: false, ..*old(self) }),
    {
        let r = self.compaction_occurred;
        self.compaction_occurred = false;
        r
    }

    /// Copies of all windows in search order (see `flat`), the one being
    /// dragged or resized marked as interacting.
    pub fn all_windows(&self) -> (r: Vec<WindowState>)
        ensures
            marked_copies(r@, outputs_flat(self.outputs@), self.drag_target, self.resize_state),
    {
        let drag = self.drag_target;
        let resize = self.resize_state;
        let mut list: Vec<WindowState> = Vec::new();
        let mut k: usize = 0;
        while k < self.outputs.len()
            invariant
                k <= self.outputs@.len(),
                drag == self.drag_target,
                resize == self.resize_state,
                marked_copies(list@, outputs_flat(self.outputs@.take(k as int)), drag, resize),
            decreases self.outputs@.len() - k,
        {
            let o = &self.outputs[k];
            let ghost pre = outputs_flat(self.outputs@.take(k as int));
            push_marked(&mut list, &o.background.windows, drag, resize, Ghost(pre));
            push_marked(&mut list, &o.bottom.windows, drag, resize, Ghost(pre + o.background.windows@));
            let ghost pre2 = pre + o.background.windows@ + o.bottom.windows@;
            proof {
                assert(o.workspaces@.take(0) =~= Seq::<Slot<Workspace>>::empty());
                assert(pre2 + ws_concat(o.workspaces@.take(0)) =~= pre2);
            }
            let mut j: usize = 0;
            while j < o.workspaces.inner.len()
                invariant
                    j <= o.workspaces@.len(),
                    drag == self.drag_target,
                    resize == self.resize_state,
                    marked_copies(list@, pre2 + ws_concat(o.workspaces@.take(j as int)), drag, resize),
                decreases o.workspaces@.len() - j,
            {
                proof {
                    assert(o.workspaces@.take(j as int + 1).drop_last() =~= o.workspaces@.take(j as int));
                }
                match &o.workspaces.inner[j] {
                    Slot::Occupied(ws) => {
                        push_marked(&mut list, &ws.windows, drag, resize, Ghost(pre2 + ws_concat(o.workspaces@.take(j as int))));
                    },
                    Slot::Empty => {},
                }
                proof {
                    assert(pre2 + ws_concat(o.workspaces@.take(j as int + 1)) =~= pre2 + ws_concat(o.workspaces@.take(j as int)) + slot_windows(o.workspaces@[j as int]));
                }
                j = j + 1;
            }
            proof {
                assert(o.workspaces@.take(o.workspaces@.len() as int) =~= o.workspaces@);
            }
            push_marked(&mut list, &o.top.windows, drag, resize, Ghost(pre2 + ws_concat(o.workspaces@)));
            push_marked(&mut list, &o.overlay.windows, drag, resize, Ghost(pre2 + ws_concat(o.workspaces@) + o.top.windows@));
            proof {
                assert(self.outputs@.take(k as int + 1).drop_last() =~= self.outputs@.take(k as int));
                assert(outputs_flat(self.outputs@.take(k as int + 1)) =~= pre2 + ws_concat(o.workspaces@) + o.top.windows@ + o.overlay.windows@);
            }
            k = k + 1;
        }
        proof {
            assert(self.outputs@.take(self.outputs@.len() as int) =~= self.outputs@);
        }
        list
    }

    /// The id of the first workspace, output by output, holding a window of
    /// surface `surface_id`.
    pub fn get_workspace_id_for_window(&self, surface_id: u64) -> (r: Option<usize>)
        ensures
            r == outputs_workspace_of(self.outputs@, surface_id),
    {
        let mut k: usize = 0;
        while k < self.outputs.len()
            invariant
                k <= self.outputs@.len(),
                outputs_workspace_of(self.outputs@.take(k as int), surface_id) is None,
            decreases self.outputs@.len() - k,
        {
            proof {
                assert(self.outputs@.take(k as int + 1).drop_last() =~= self.outputs@.take(k as int));
            }
            let o = &self.outputs[k];
            let mut j: usize = 0;
            while j < o.workspaces.inner.len()
                invariant
                    j <= o.workspaces@.len(),
                    k < self.outputs@.len(),
                    *o == self.outputs@[k as int],
                    outputs_workspace_of(self.outputs@.take(k as int), surface_id) is None,
                    slots_workspace_of(o.workspaces@.take(j as int), surface_id) is None,
                decreases o.workspaces@.len() - j,
            {
                proof {
                    assert(o.workspaces@.take(j as int + 1).drop_last() =~= o.workspaces@.take(j as int));
                }
                match &o.workspaces.inner[j] {
                    Slot::Occupied(ws) => {
                        match position_in(&ws.windows, WindowKey::Surface(surface_id)) {
                            Some(i) => {
                                proof {
                                    assert(ws.windows@[i as int].surface_id == surface_id);
                                    assert(slots_workspace_of(o.workspaces@.take(j as int + 1), surface_id) == Some(ws.id));
                                    lemma_workspace_of_prefix(self.outputs@, k as int, o.workspaces@, j as int + 1, surface_id);
                                }
                                return Some(ws.id);
                            },
                            None => {
                                proof {
                                    assert forall|m: int| 0 <= m < ws.windows@.len() implies (#[trigger] ws.windows@[m]).surface_id != surface_id by {
                                        assert(!key_matches(ws.windows@[m], WindowKey::Surface(surface_id)));
                                    }
                                }
                            },
                        }
                    },
                    Slot::Empty => {},
                }
                j = j + 1;
            }
            proof {
                assert(o.workspaces@.take(o.workspaces@.len() as int) =~= o.workspaces@);
            }
            k = k + 1;
        }
        proof {
            assert(self.outputs@.take(self.outputs@.len() as int) =~= self.outputs@);
        }
        None
    }
}

/// A workspace found in a prefix of the slots of output `k` answers the
/// search over all outputs when no earlier output answers it.
proof fn lemma_workspace_of_prefix(os: Seq<OutputState>, k: int, s: Seq<Slot<Workspace>>, j: int, sid: u64)
    requires
        0 <= k < os.len(),
        s == os[k].workspaces@,
        0 < j <= s.len(),
        outputs_workspace_of(os.take(k), sid) is None,
        slots_workspace_of(s.take(j), sid) is Some,
    ensures
        outputs_workspace_of(os, sid) == slots_workspace_of(s.take(j), sid),
    decreases os.len(),
{
    lemma_slots_prefix(s, j, sid);
    if k == os.len() - 1 {
        assert(os.drop_last() =~= os.take(k));
    } else {
        assert(os.drop_last().take(k) =~= os.take(k));
        lemma_workspace_of_prefix(os.drop_last(), k, s, j, sid);
        lemma_outputs_some_stays(os, sid);
    }
}

/// A workspace found among the first `j` slots is the one found among all.
proof fn lemma_slots_prefix(s: Seq<Slot<Workspace>>, j: int, sid: u64)
    requires
        0 < j <= s.len(),
        slots_workspace_of(s.take(j), sid) is Some,
    ensures
        slots_workspace_of(s, sid) == slots_workspace_of(s.take(j), sid),
    decreases s.len(),
{
    if j < s.len() {
        assert(s.drop_last().take(j) =~= s.take(j));
        lemma_slots_prefix(s.drop_last(), j, sid);
    } else {
        assert(s.take(j) =~= s);
    }
}

/// Once an earlier output answers the search, later outputs do not change it.
proof fn lemma_outputs_some_stays(os: Seq<OutputState>, sid: u64)
    requires
        os.len() > 0,
        outputs_workspace_of(os.drop_last(), sid) is Some,
    ensures
        outputs_workspace_of(os, sid) == outputs_workspace_of(os.drop_last(), sid),
{
}

} // verus!

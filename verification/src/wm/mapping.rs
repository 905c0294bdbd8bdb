//! Mapping and unmapping windows and popups, and moving windows between workspaces.

use vstd::prelude::*;
use crate::geometry::Rect;
use crate::slot_vec::Slot;
use crate::wm::floating::{Wm, compacted, ensured, find_output, first_output, output_wf, lemma_find_output_same_ids, lemma_find_output_valid};
use crate::wm::locate::{
    WindowKey, WindowLayer, WindowLoc, is_first_match, layer_windows, lemma_removed_wf, loc_valid, lemma_first_match_unique,
    no_match, removed_at, search_result, window_at,
};
use crate::slot_vec::grown_to;
use crate::wm::types::{OutputState, PopupState, WindowState, Workspace};

verus! {

/// Width given to a newly mapped window.
pub const DEFAULT_WINDOW_WIDTH: i32 = 800;

/// Height given to a newly mapped window.
pub const DEFAULT_WINDOW_HEIGHT: i32 = 600;

/// Whether `w` is the window that mapping surface `surface_id` creates.
pub open spec fn is_new_toplevel_window(w: WindowState, surface_id: u64, protocol_id: u32) -> bool {
    &&& w.surface_id == surface_id
    &&& w.protocol_id == protocol_id
    &&& w.toplevel_id is None
    &&& !w.is_layer_surface
    &&& w.parent_id is None
    &&& w.w == DEFAULT_WINDOW_WIDTH
    &&& w.h == DEFAULT_WINDOW_HEIGHT
    &&& w.geometry == (Rect { x: 0, y: 0, w: DEFAULT_WINDOW_WIDTH, h: DEFAULT_WINDOW_HEIGHT })
    &&& w.title is None
    &&& w.app_id is None
    &&& !w.ssd && !w.maximized && !w.fullscreen && !w.minimized && !w.modal
    &&& w.saved_size is None
    &&& w.layer == 0 && w.anchor == 0 && w.exclusive_zone == 0
    &&& w.margin == (0i32, 0i32, 0i32, 0i32)
    &&& w.keyboard_interactivity == 0
    &&& !w.is_interacting
    &&& w.sent_configures@.len() == 0
    &&& w.acknowledged_serial is None
}

/// Whether `w` is the window that mapping layer surface `surface_id` into `layer` creates.
pub open spec fn is_new_layer_window(w: WindowState, surface_id: u64, protocol_id: u32, layer: u32) -> bool {
    &&& w.surface_id == surface_id
    &&& w.protocol_id == protocol_id
    &&& w.toplevel_id is None
    &&& w.is_layer_surface
    &&& w.parent_id is None
    &&& w.w == 0 && w.h == 0
    &&& w.geometry == (Rect { x: 0, y: 0, w: 0, h: 0 })
    &&& w.title is None
    &&& w.app_id is None
    &&& !w.ssd && !w.maximized && !w.fullscreen && !w.minimized && !w.modal
    &&& w.saved_size is None
    &&& w.layer == layer && w.anchor == 0 && w.exclusive_zone == 0
    &&& w.margin == (0i32, 0i32, 0i32, 0i32)
    &&& w.keyboard_interactivity == 0
    &&& !w.is_interacting
    &&& w.sent_configures@.len() == 0
    &&& w.acknowledged_serial is None
}

/// The layer a layer surface goes into: 0 background, 1 bottom, 2 top,
/// 3 overlay; any other value means top.
pub open spec fn layer_for(layer: u32) -> WindowLayer {
    if layer == 0 {
        WindowLayer::Background
    } else if layer == 1 {
        WindowLayer::Bottom
    } else if layer == 3 {
        WindowLayer::Overlay
    } else {
        WindowLayer::Top
    }
}

/// The windows of `s` other than those of surface `id`, in order.
pub open spec fn without_surface(s: Seq<WindowState>, id: u64) -> Seq<WindowState> {
    s.filter(not_surface(id))
}

/// Whether a window belongs to a surface other than `id`.
pub open spec fn not_surface(id: u64) -> spec_fn(WindowState) -> bool {
    |w: WindowState| w.surface_id != id
}

/// Whether a popup belongs to a surface other than `id`.
pub open spec fn not_popup(id: u64) -> spec_fn(PopupState) -> bool {
    |p: PopupState| p.surface_id != id
}

/// The popups of `s` other than that of surface `id`, in order.
pub open spec fn popups_without(s: Seq<PopupState>, id: u64) -> Seq<PopupState> {
    s.filter(not_popup(id))
}

/// `new_o` is `old_o` with every window of surface `id` taken out.
pub open spec fn removed_from_output(old_o: OutputState, new_o: OutputState, id: u64) -> bool {
    &&& new_o.id == old_o.id
    &&& new_o.active_workspace == old_o.active_workspace
    &&& new_o.usable_area == old_o.usable_area
    &&& new_o.background.windows@ == without_surface(old_o.background.windows@, id)
    &&& new_o.bottom.windows@ == without_surface(old_o.bottom.windows@, id)
    &&& new_o.top.windows@ == without_surface(old_o.top.windows@, id)
    &&& new_o.overlay.windows@ == without_surface(old_o.overlay.windows@, id)
    &&& new_o.workspaces@.len() == old_o.workspaces@.len()
    &&& forall|j: int|
        0 <= j < old_o.workspaces@.len() ==> {
            &&& (#[trigger] new_o.workspaces@[j] is Occupied <==> old_o.workspaces@[j] is Occupied)
            &&& new_o.workspaces@[j] is Occupied ==> {
                &&& new_o.workspaces@[j]->Occupied_0.id == old_o.workspaces@[j]->Occupied_0.id
                &&& new_o.workspaces@[j]->Occupied_0.windows@ == without_surface(
                    old_o.workspaces@[j]->Occupied_0.windows@,
                    id,
                )
            }
        }
}


/// `o2` is `o` with `w` put on top of the workspace in slot `idx`.
pub open spec fn pushed_to_slot(o: OutputState, o2: OutputState, idx: int, w: WindowState) -> bool {
    &&& o2 == (OutputState { workspaces: o2.workspaces, ..o })
    &&& o2.workspaces@.len() == o.workspaces@.len()
    &&& forall|j: int| 0 <= j < o.workspaces@.len() && j != idx ==> #[trigger] o2.workspaces@[j] == o.workspaces@[j]
    &&& o.workspaces@[idx] is Occupied
    &&& o2.workspaces@[idx] is Occupied
    &&& o2.workspaces@[idx]->Occupied_0.id == o.workspaces@[idx]->Occupied_0.id
    &&& o2.workspaces@[idx]->Occupied_0.windows@ == o.workspaces@[idx]->Occupied_0.windows@.push(w)
}

/// `o2` is `o` with its workspace slots grown so that `idx` exists, new slots empty.
pub open spec fn slots_grown(o: OutputState, o2: OutputState, idx: int) -> bool {
    &&& o2 == (OutputState { workspaces: o2.workspaces, ..o })
    &&& o2.workspaces@ == grown_to(o.workspaces@, idx)
}

/// How moving window `w` into workspace `ws_id` of output `output_id`
/// changes the outputs, before the first output is compacted: the target
/// output (found after making sure the first output has that workspace)
/// takes the window when its slot holds a workspace; otherwise the window
/// goes onto the active workspace of the first output.
pub open spec fn placed(s1: Seq<OutputState>, s3: Seq<OutputState>, output_id: usize, ws_id: int, w: WindowState, r: bool) -> bool {
    let k = find_output(s1, output_id);
    let target_ok = k >= 0 && grown_to(s1[k].workspaces@, ws_id)[ws_id] is Occupied;
    &&& s3.len() == s1.len()
    &&& r == target_ok
    &&& target_ok ==> {
        &&& pushed_to_slot(s1[k], s3[k], ws_id, w)
        &&& forall|j: int| 0 <= j < s1.len() && j != k ==> #[trigger] s3[j] == s1[j]
    }
    &&& (!target_ok && k >= 0) ==> {
        &&& k != 0
        &&& slots_grown(s1[k], s3[k], ws_id)
        &&& pushed_to_slot(s1[0], s3[0], s1[0].active_workspace as int, w)
        &&& forall|j: int| 0 <= j < s1.len() && j != k && j != 0 ==> #[trigger] s3[j] == s1[j]
    }
    &&& (!target_ok && k < 0) ==> {
        &&& pushed_to_slot(s1[0], s3[0], s1[0].active_workspace as int, w)
        &&& forall|j: int| 1 <= j < s1.len() ==> #[trigger] s3[j] == s1[j]
    }
}

/// Takes every window of surface `id` out of `v`, keeping the order of the rest.
fn retain_windows(v: &mut Vec<WindowState>, id: u64)
    ensures
        final(v)@ == without_surface(old(v)@, id),
{
    let mut rest: Vec<WindowState> = Vec::new();
    std::mem::swap(&mut rest, v);
    let ghost orig = rest@;
    let total = rest.len();
    let mut i: usize = 0;
    while rest.len() > 0
        invariant
            total == orig.len(),
            i <= orig.len(),
            rest@ == orig.skip(i as int),
            v@ == without_surface(orig.take(i as int), id),
        decreases rest@.len(),
    {
        let ghost prev = v@;
        proof {
            assert(orig.take(i as int + 1).drop_last() =~= orig.take(i as int));
            assert(orig.take(i as int + 1).last() == orig[i as int]);
            assert(orig.skip(i as int + 1) =~= orig.skip(i as int).subrange(1, orig.skip(i as int).len() as int));
        }
        let w = rest.remove(0);
        assert(w == orig[i as int]);
        proof {
            assert(orig.take(i as int + 1) =~= orig.take(i as int).push(orig[i as int]));
            orig.take(i as int).lemma_filter_push(orig[i as int], not_surface(id));
        }
        if w.surface_id != id {
            v.push(w);
        }
        i = i + 1;
    }
    proof {
        assert(orig.take(orig.len() as int) =~= orig);
    }
}

/// Takes every popup of surface `id` out of `v`, keeping the order of the rest.
fn retain_popups(v: &mut Vec<PopupState>, id: u64)
    ensures
        final(v)@ == popups_without(old(v)@, id),
{
    let mut rest: Vec<PopupState> = Vec::new();
    std::mem::swap(&mut rest, v);
    let ghost orig = rest@;
    let total = rest.len();
    let mut i: usize = 0;
    while rest.len() > 0
        invariant
            total == orig.len(),
            i <= orig.len(),
            rest@ == orig.skip(i as int),
            v@ == popups_without(orig.take(i as int), id),
        decreases rest@.len(),
    {
        let ghost prev = v@;
        proof {
            assert(orig.take(i as int + 1).drop_last() =~= orig.take(i as int));
            assert(orig.take(i as int + 1).last() == orig[i as int]);
            assert(orig.skip(i as int + 1) =~= orig.skip(i as int).subrange(1, orig.skip(i as int).len() as int));
        }
        let p = rest.remove(0);
        assert(p == orig[i as int]);
        proof {
            assert(orig.take(i as int + 1) =~= orig.take(i as int).push(orig[i as int]));
            orig.take(i as int).lemma_filter_push(orig[i as int], not_popup(id));
        }
        if p.surface_id != id {
            v.push(p);
        }
        i = i + 1;
    }
    proof {
        assert(orig.take(orig.len() as int) =~= orig);
    }
}

/// Takes every window of surface `id` out of output `out`.
fn remove_from_output(out: &mut OutputState, id: u64)
    ensures
        removed_from_output(*old(out), *final(out), id),
{
    retain_windows(&mut out.background.windows, id);
    retain_windows(&mut out.bottom.windows, id);
    let ghost mid = *out;
    let n = out.workspaces.inner.len();
    let mut w: usize = 0;
    while w < n
        invariant
            n == mid.workspaces@.len(),
            w <= n,
            out.workspaces@.len() == n,
            out.id == mid.id,
            out.active_workspace == mid.active_workspace,
            out.usable_area == mid.usable_area,
            out.background == mid.background,
            out.bottom == mid.bottom,
            out.top == mid.top,
            out.overlay == mid.overlay,
            forall|j: int| w <= j < n ==> #[trigger] out.workspaces@[j] == mid.workspaces@[j],
            forall|j: int|
                0 <= j < w ==> {
                    &&& (#[trigger] out.workspaces@[j] is Occupied <==> mid.workspaces@[j] is Occupied)
                    &&& out.workspaces@[j] is Occupied ==> {
                        &&& out.workspaces@[j]->Occupied_0.id == mid.workspaces@[j]->Occupied_0.id
                        &&& out.workspaces@[j]->Occupied_0.windows@ == without_surface(
                            mid.workspaces@[j]->Occupied_0.windows@,
                            id,
                        )
                    }
                },
        decreases n - w,
    {
        match &mut out.workspaces.inner[w] {
            Slot::Occupied(ws) => {
                retain_windows(&mut ws.windows, id);
            },
            Slot::Empty => {},
        }
        w = w + 1;
    }
    retain_windows(&mut out.top.windows, id);
    retain_windows(&mut out.overlay.windows, id);
}

/// `new` is `old` with a new toplevel window of surface `surface_id` (see
/// `is_new_toplevel_window`) put on top of the active workspace of the
/// first output, and nothing else changed.
pub open spec fn window_mapped(old: Wm, new: Wm, surface_id: u64, protocol_id: u32) -> bool {
    let o = first_output(old);
    let o2 = first_output(new);
    let a = o.active_workspace as int;
    &&& o2 == (OutputState { workspaces: o2.workspaces, ..o })
    &&& o2.workspaces@.len() == o.workspaces@.len()
    &&& forall|j: int| 0 <= j < o.workspaces@.len() && j != a ==> #[trigger] o2.workspaces@[j] == o.workspaces@[j]
    &&& o2.workspaces@[a] is Occupied
    &&& o2.workspaces@[a]->Occupied_0.id == o.workspaces@[a]->Occupied_0.id
    &&& o2.workspaces@[a]->Occupied_0.windows@.len() == o.workspaces@[a]->Occupied_0.windows@.len() + 1
    &&& o2.workspaces@[a]->Occupied_0.windows@.drop_last() == o.workspaces@[a]->Occupied_0.windows@
    &&& is_new_toplevel_window(o2.workspaces@[a]->Occupied_0.windows@.last(), surface_id, protocol_id)
    &&& new.outputs@.len() == old.outputs@.len()
    &&& forall|j: int| 1 <= j < old.outputs@.len() ==> #[trigger] new.outputs@[j] == old.outputs@[j]
    &&& new.popups == old.popups
    &&& new.drag_target == old.drag_target
    &&& new.resize_state == old.resize_state
    &&& new.is_swiping == old.is_swiping
    &&& new.compaction_occurred == old.compaction_occurred
}

/// `new` is `old` after the windows and popups of surface `surface_id` were
/// taken out: from every output (the first one then compacted, see
/// `compacted`), a drag or resize of it ended.
pub open spec fn window_unmapped(old: Wm, new: Wm, surface_id: u64) -> bool {
    &&& new.outputs@.len() == old.outputs@.len()
    &&& forall|j: int| 1 <= j < old.outputs@.len() ==> removed_from_output(
        old.outputs@[j],
        #[trigger] new.outputs@[j],
        surface_id,
    )
    &&& old.outputs@.len() > 0 ==> exists|mid: OutputState|
        #[trigger] removed_from_output(first_output(old), mid, surface_id) && output_wf(mid)
            && compacted(mid, first_output(new))
            && new.compaction_occurred == (old.compaction_occurred
                || first_output(new).active_workspace != mid.active_workspace)
    &&& old.outputs@.len() == 0 ==> new.compaction_occurred == old.compaction_occurred
    &&& new.popups@ == popups_without(old.popups@, surface_id)
    &&& new.drag_target == (if old.drag_target == Some(surface_id) {
        None
    } else {
        old.drag_target
    })
    &&& new.resize_state == (match old.resize_state {
        Some(rs) => if rs.surface_id == surface_id { None } else { old.resize_state },
        None => None,
    })
    &&& new.is_swiping == old.is_swiping
}

/// `new` is `old` after the window of surface `surface_id` was moved to
/// workspace `workspace_id` of output `output_id`, answering `r`: the window
/// was taken out (`s1`), the first output made sure of the workspace (`s2`),
/// the window placed (`s3`, see `placed`), and the first output compacted.
pub open spec fn window_moved(old: Wm, new: Wm, surface_id: u64, output_id: usize, workspace_id: usize, r: bool) -> bool {
    &&& no_match(old, WindowKey::Surface(surface_id)) ==> !r && new == old
    &&& forall|loc: WindowLoc| #[trigger] is_first_match(old, WindowKey::Surface(surface_id), loc) ==>
        exists|s1: Wm, s2: Wm, s3: Wm| {
            &&& removed_at(old, s1, loc)
            &&& s1.outputs@.len() > 0
            &&& ensured(s1.outputs@[0], s2.outputs@[0], workspace_id as int)
            &&& s2.outputs@ == s1.outputs@.update(0, s2.outputs@[0])
            &&& placed(s2.outputs@, s3.outputs@, output_id, workspace_id as int, window_at(old, loc), r)
            &&& output_wf(s3.outputs@[0])
            &&& compacted(s3.outputs@[0], first_output(new))
            &&& new.outputs@.len() == s3.outputs@.len()
            &&& forall|j: int| 1 <= j < s3.outputs@.len() ==> #[trigger] new.outputs@[j] == s3.outputs@[j]
            &&& new.compaction_occurred == (old.compaction_occurred
                || first_output(new).active_workspace != s3.outputs@[0].active_workspace)
        }
    &&& old.outputs@.len() > 0 ==> first_output(new).workspaces@.len() <= if workspace_id < first_output(old).workspaces@.len() {
        first_output(old).workspaces@.len() as int
    } else {
        workspace_id + 1
    }
    &&& new.popups == old.popups
    &&& new.drag_target == old.drag_target
    &&& new.resize_state == old.resize_state
    &&& new.is_swiping == old.is_swiping
}

impl Wm {
    /// Maps a new toplevel window of surface `surface_id` on top of the active
    /// workspace of the first output, at the default size.
    pub fn map_window(&mut self, surface_id: u64, protocol_id: u32)
        requires
            old(self).wf(),
        ensures
            final(self).wf(),
            old(self).outputs@.len() == 0 ==> *final(self) == *old(self),
            old(self).outputs@.len() > 0 ==> window_mapped(*old(self), *final(self), surface_id, protocol_id),
    {
        if self.outputs.len() == 0 {
            return;
        }
        let ghost o = self.outputs@[0];
        let out = &mut self.outputs[0];
        let a = out.active_workspace;
        let window = WindowState {
            surface_id,
            protocol_id,
            toplevel_id: None,
            is_layer_surface: false,
            parent_id: None,
            w: DEFAULT_WINDOW_WIDTH,
            h: DEFAULT_WINDOW_HEIGHT,
            geometry: Rect { x: 0, y: 0, w: DEFAULT_WINDOW_WIDTH, h: DEFAULT_WINDOW_HEIGHT },
            title: None,
            app_id: None,
            ssd: false,
            maximized: false,
            fullscreen: false,
            minimized: false,
            modal: false,
            saved_size: None,
            layer: 0,
            anchor: 0,
            exclusive_zone: 0,
            margin: (0, 0, 0, 0),
            keyboard_interactivity: 0,
            is_interacting: false,
            sent_configures: Vec::new(),
            acknowledged_serial: None,
        };
        match &mut out.workspaces.inner[a] {
            Slot::Occupied(ws) => {
                ws.windows.push(window);
                proof {
                    assert(ws.windows@.drop_last() =~= o.workspaces@[a as int]->Occupied_0.windows@);
                }
            },
            Slot::Empty => {},
        }
    }

    /// Maps a layer-shell surface into the layer named by `layer` of the first
    /// output, on top of that layer.
    pub fn map_layer_surface(&mut self, surface_id: u64, protocol_id: u32, layer: u32)
        requires
            old(self).wf(),
        ensures
            final(self).wf(),
            old(self).outputs@.len() == 0 ==> *final(self) == *old(self),
            old(self).outputs@.len() > 0 ==> {
                let o = first_output(*old(self));
                let o2 = first_output(*final(self));
                let l = layer_for(layer);
                &&& layer_windows(o2, l).len() == layer_windows(o, l).len() + 1
                &&& layer_windows(o2, l).drop_last() == layer_windows(o, l)
                &&& is_new_layer_window(layer_windows(o2, l).last(), surface_id, protocol_id, layer)
                &&& o2.workspaces == o.workspaces
                &&& o2.id == o.id
                &&& o2.active_workspace == o.active_workspace
                &&& o2.usable_area == o.usable_area
                &&& l != WindowLayer::Background ==> o2.background == o.background
                &&& l != WindowLayer::Bottom ==> o2.bottom == o.bottom
                &&& l != WindowLayer::Top ==> o2.top == o.top
                &&& l != WindowLayer::Overlay ==> o2.overlay == o.overlay
                &&& final(self).outputs@.len() == old(self).outputs@.len()
                &&& forall|j: int| 1 <= j < old(self).outputs@.len() ==> #[trigger] final(self).outputs@[j] == old(self).outputs@[j]
                &&& final(self).popups == old(self).popups
                &&& final(self).drag_target == old(self).drag_target
                &&& final(self).resize_state == old(self).resize_state
                &&& final(self).is_swiping == old(self).is_swiping
                &&& final(self).compaction_occurred == old(self).compaction_occurred
            },
    {
        if self.outputs.len() == 0 {
            return;
        }
        let ghost o = self.outputs@[0];
        let out = &mut self.outputs[0];
        let win = WindowState {
            surface_id,
            protocol_id,
            toplevel_id: None,
            is_layer_surface: true,
            parent_id: None,
            w: 0,
            h: 0,
            geometry: Rect { x: 0, y: 0, w: 0, h: 0 },
            title: None,
            app_id: None,
            ssd: false,
            maximized: false,
            fullscreen: false,
            minimized: false,
            modal: false,
            saved_size: None,
            layer,
            anchor: 0,
            exclusive_zone: 0,
            margin: (0, 0, 0, 0),
            keyboard_interactivity: 0,
            is_interacting: false,
            sent_configures: Vec::new(),
            acknowledged_serial: None,
        };
        if layer == 0 {
            out.background.windows.push(win);
            proof { assert(out.background.windows@.drop_last() =~= o.background.windows@); }
        } else if layer == 1 {
            out.bottom.windows.push(win);
            proof { assert(out.bottom.windows@.drop_last() =~= o.bottom.windows@); }
        } else if layer == 2 {
            out.top.windows.push(win);
            proof { assert(out.top.windows@.drop_last() =~= o.top.windows@); }
        } else if layer == 3 {
            out.overlay.windows.push(win);
            proof { assert(out.overlay.windows@.drop_last() =~= o.overlay.windows@); }
        } else {
            out.top.windows.push(win);
            proof { assert(out.top.windows@.drop_last() =~= o.top.windows@); }
        }
    }

    /// Adds a popup.
    pub fn map_popup(&mut self, popup: PopupState)
        ensures
            final(self).popups@ == old(self).popups@.push(popup),
            final(self).outputs == old(self).outputs,
            final(self).drag_target == old(self).drag_target,
            final(self).resize_state == old(self).resize_state,
            final(self).is_swiping == old(self).is_swiping,
            final(self).compaction_occurred == old(self).compaction_occurred,
    {
        self.popups.push(popup);
    }

    /// Removes every popup of surface `popup_surface_id`.
    pub fn unmap_popup(&mut self, popup_surface_id: u64)
        ensures
            final(self).popups@ == popups_without(old(self).popups@, popup_surface_id),
            final(self).outputs == old(self).outputs,
            final(self).drag_target == old(self).drag_target,
            final(self).resize_state == old(self).resize_state,
            final(self).is_swiping == old(self).is_swiping,
            final(self).compaction_occurred == old(self).compaction_occurred,
    {
        retain_popups(&mut self.popups, popup_surface_id);
    }

    /// Position of the first popup of surface `surface_id`.
    pub fn find_popup(&self, surface_id: u64) -> (r: Option<usize>)
        ensures
            match r {
                Some(i) => i < self.popups@.len() && self.popups@[i as int].surface_id == surface_id
                    && forall|j: int| 0 <= j < i ==> (#[trigger] self.popups@[j]).surface_id != surface_id,
                None => forall|j: int| 0 <= j < self.popups@.len() ==> (#[trigger] self.popups@[j]).surface_id != surface_id,
            },
    {
        let mut i: usize = 0;
        while i < self.popups.len()
            invariant
                i <= self.popups@.len(),
                forall|j: int| 0 <= j < i ==> (#[trigger] self.popups@[j]).surface_id != surface_id,
            decreases self.popups@.len() - i,
        {
            if self.popups[i].surface_id == surface_id {
                return Some(i);
            }
            i = i + 1;
        }
        None
    }

    /// Moves the first popup of surface `popup_surface_id` to `(x, y)` relative to its parent.
    pub fn update_popup_position(&mut self, popup_surface_id: u64, x: i32, y: i32)
        ensures
            final(self).outputs == old(self).outputs,
            final(self).drag_target == old(self).drag_target,
            final(self).resize_state == old(self).resize_state,
            final(self).is_swiping == old(self).is_swiping,
            final(self).compaction_occurred == old(self).compaction_occurred,
            forall|i: int| 0 <= i < old(self).popups@.len()
                && old(self).popups@[i].surface_id == popup_surface_id
                && (forall|j: int| 0 <= j < i ==> (#[trigger] old(self).popups@[j]).surface_id != popup_surface_id)
                ==> final(self).popups@ == old(self).popups@.update(i, PopupState { x: x, y: y, ..old(self).popups@[i] }),
            (forall|j: int| 0 <= j < old(self).popups@.len() ==> (#[trigger] old(self).popups@[j]).surface_id != popup_surface_id)
                ==> final(self).popups == old(self).popups,
    {
        if let Some(i) = self.find_popup(popup_surface_id) {
            let mut p = self.popups[i];
            p.x = x;
            p.y = y;
            self.popups.set(i, p);
            proof {
                assert forall|k: int| 0 <= k < old(self).popups@.len()
                    && old(self).popups@[k].surface_id == popup_surface_id
                    && (forall|j: int| 0 <= j < k ==> (#[trigger] old(self).popups@[j]).surface_id != popup_surface_id)
                    implies k == i by {
                    if k < i {
                        assert(old(self).popups@[k].surface_id != popup_surface_id);
                    }
                    if i < k {
                        assert(old(self).popups@[i as int].surface_id != popup_surface_id);
                    }
                }
            }
        }
    }

    /// Takes every window and popup of surface `surface_id` out, ends a drag
    /// or resize of it, and compacts the workspaces of the first output.
    pub fn unmap_window(&mut self, surface_id: u64)
        requires
            old(self).wf(),
        ensures
            final(self).wf(),
            window_unmapped(*old(self), *final(self), surface_id),
    {
        let ghost old_self = *self;
        let mut k: usize = 0;
        while k < self.outputs.len()
            invariant
                k <= self.outputs@.len(),
                self.outputs@.len() == old_self.outputs@.len(),
                forall|j: int| 0 <= j < k ==> removed_from_output(
                    old_self.outputs@[j],
                    #[trigger] self.outputs@[j],
                    surface_id,
                ),
                forall|j: int| k <= j < self.outputs@.len() ==> #[trigger] self.outputs@[j] == old_self.outputs@[j],
                self.popups == old_self.popups,
                self.drag_target == old_self.drag_target,
                self.resize_state == old_self.resize_state,
                self.is_swiping == old_self.is_swiping,
                self.compaction_occurred == old_self.compaction_occurred,
            decreases self.outputs@.len() - k,
        {
            let out = &mut self.outputs[k];
            remove_from_output(out, surface_id);
            k = k + 1;
        }
        retain_popups(&mut self.popups, surface_id);
        match self.drag_target {
            Some(d) => {
                if d == surface_id {
                    self.drag_target = None;
                }
            },
            None => {},
        }
        match self.resize_state {
            Some(rs) => {
                if rs.surface_id == surface_id {
                    self.resize_state = None;
                }
            },
            None => {},
        }
        let ghost mid_self = *self;
        proof {
            assert forall|j: int| 0 <= j < self.outputs@.len() implies (#[trigger] self.outputs@[j]).workspaces@.len() > 0 by {
                assert(removed_from_output(old_self.outputs@[j], self.outputs@[j], surface_id));
            }
            if self.outputs@.len() > 0 {
                let o = old_self.outputs@[0];
                let o2 = self.outputs@[0];
                assert(removed_from_output(o, o2, surface_id));
                assert forall|i: int| 0 <= i < o2.workspaces@.len() && #[trigger] o2.workspaces@[i] is Occupied implies o2.workspaces@[i]->Occupied_0.id == i by {
                }
            }
        }
        self.compact_workspaces();
        proof {
            if old_self.outputs@.len() > 0 {
                assert(removed_from_output(first_output(old_self), first_output(mid_self), surface_id));
                assert(output_wf(first_output(mid_self)));
            }
        }
    }

    /// Moves the window of surface `surface_id` to workspace `workspace_id` of
    /// output `output_id` (first making sure the first output has that
    /// workspace), then compacts the first output. Answers whether the target
    /// took the window; when it did not, the window lands on the active
    /// workspace of the first output.
    pub fn move_window_to_workspace(&mut self, surface_id: u64, output_id: usize, workspace_id: usize) -> (r: bool)
        requires
            old(self).wf(),
            workspace_id < usize::MAX,
        ensures
            final(self).wf(),
            window_moved(*old(self), *final(self), surface_id, output_id, workspace_id, r),
    {
        let loc = match self.locate(WindowKey::Surface(surface_id)) {
            Some(l) => l,
            None => return false,
        };
        let ghost s0 = *self;
        let ghost key = WindowKey::Surface(surface_id);
        let window = self.remove_at(loc);
        proof {
            lemma_removed_wf(s0, *self, loc);
        }
        let ghost s1 = *self;
        let ghost w = window_at(s0, loc);
        self.ensure_workspace(workspace_id);
        let ghost s2 = *self;
        proof {
            assert(s2.outputs@ =~= s1.outputs@.update(0, s2.outputs@[0]));
            lemma_find_output_same_ids(s1.outputs@, s2.outputs@, output_id, 0);
            lemma_find_output_valid(s2.outputs@, output_id, 0);
        }
        if let Some(k) = self.find_output_index(output_id) {
            let output = &mut self.outputs[k];
            let slot = output.workspaces.get_mut(workspace_id).unwrap();
            match slot {
                Slot::Occupied(ws) => {
                    ws.windows.push(window);
                    let ghost s3 = *self;
                    proof {
                        assert(s3.outputs@[k as int].workspaces@[workspace_id as int]->Occupied_0.windows@
                            =~= s2.outputs@[k as int].workspaces@[workspace_id as int]->Occupied_0.windows@.push(w));
                        if k == 0 {
                            assert(grown_to(s2.outputs@[0].workspaces@, workspace_id as int) =~= s2.outputs@[0].workspaces@);
                        } else {
                            assert(s3.outputs@[0] == s2.outputs@[0]);
                        }
                        assert(grown_to(s2.outputs@[k as int].workspaces@, workspace_id as int) =~= s2.outputs@[k as int].workspaces@);
                        assert(pushed_to_slot(s2.outputs@[k as int], s3.outputs@[k as int], workspace_id as int, w));
                        assert(placed(s2.outputs@, s3.outputs@, output_id, workspace_id as int, w, true));
                        assert(output_wf(s3.outputs@[0]));
                        assert forall|j: int| 0 <= j < s3.outputs@.len() implies (#[trigger] s3.outputs@[j]).workspaces@.len() > 0 by {
                            if j != k { assert(s3.outputs@[j] == s2.outputs@[j]); }
                        }
                    }
                    self.compact_workspaces();
                    proof {
                        assert forall|l: WindowLoc| #[trigger] is_first_match(s0, key, l) implies
                            exists|t1: Wm, t2: Wm, t3: Wm| {
                                &&& removed_at(s0, t1, l)
                                &&& t1.outputs@.len() > 0
                                &&& ensured(t1.outputs@[0], t2.outputs@[0], workspace_id as int)
                                &&& t2.outputs@ == t1.outputs@.update(0, t2.outputs@[0])
                                &&& placed(t2.outputs@, t3.outputs@, output_id, workspace_id as int, window_at(s0, l), true)
                                &&& output_wf(t3.outputs@[0])
                                &&& compacted(t3.outputs@[0], first_output(*self))
                                &&& self.outputs@.len() == t3.outputs@.len()
                                &&& forall|j: int| 1 <= j < t3.outputs@.len() ==> #[trigger] self.outputs@[j] == t3.outputs@[j]
                                &&& self.compaction_occurred == (s0.compaction_occurred
                                    || first_output(*self).active_workspace != t3.outputs@[0].active_workspace)
                            } by {
                            lemma_first_match_unique(s0, key, l, loc);
                            assert(removed_at(s0, s1, l));
                        }
                    }
                    return true;
                },
                Slot::Empty => {},
            }
            proof {
                if k == 0 {
                    assert(grown_to(s2.outputs@[0].workspaces@, workspace_id as int) =~= s2.outputs@[0].workspaces@);
                    assert(false);
                }
                assert(self.outputs@[0] == s2.outputs@[0]);
                assert(self.outputs@[k as int].workspaces@ =~= grown_to(s2.outputs@[k as int].workspaces@, workspace_id as int));
                assert(slots_grown(s2.outputs@[k as int], self.outputs@[k as int], workspace_id as int));
            }
        }
        let ghost s25 = *self;
        let out = &mut self.outputs[0];
        let a = out.active_workspace;
        match &mut out.workspaces.inner[a] {
            Slot::Occupied(ws) => {
                ws.windows.push(window);
            },
            Slot::Empty => {},
        }
        let ghost s3 = *self;
        proof {
            let k = find_output(s2.outputs@, output_id);
            assert(s25.outputs@[0] == s2.outputs@[0]);
            assert(s3.outputs@[0].workspaces@[a as int]->Occupied_0.windows@
                =~= s2.outputs@[0].workspaces@[a as int]->Occupied_0.windows@.push(w));
            assert(pushed_to_slot(s2.outputs@[0], s3.outputs@[0], a as int, w));
            if k >= 0 {
                assert(slots_grown(s2.outputs@[k], s3.outputs@[k], workspace_id as int));
            }
            assert(placed(s2.outputs@, s3.outputs@, output_id, workspace_id as int, w, false));
            assert(output_wf(s3.outputs@[0]));
            assert forall|j: int| 0 <= j < s3.outputs@.len() implies (#[trigger] s3.outputs@[j]).workspaces@.len() > 0 by {
                if j != k && j != 0 { assert(s3.outputs@[j] == s2.outputs@[j]); }
            }
        }
        self.compact_workspaces();
        proof {
            assert forall|l: WindowLoc| #[trigger] is_first_match(s0, key, l) implies
                exists|t1: Wm, t2: Wm, t3: Wm| {
                    &&& removed_at(s0, t1, l)
                    &&& t1.outputs@.len() > 0
                    &&& ensured(t1.outputs@[0], t2.outputs@[0], workspace_id as int)
                    &&& t2.outputs@ == t1.outputs@.update(0, t2.outputs@[0])
                    &&& placed(t2.outputs@, t3.outputs@, output_id, workspace_id as int, window_at(s0, l), false)
                    &&& output_wf(t3.outputs@[0])
                    &&& compacted(t3.outputs@[0], first_output(*self))
                    &&& self.outputs@.len() == t3.outputs@.len()
                    &&& forall|j: int| 1 <= j < t3.outputs@.len() ==> #[trigger] self.outputs@[j] == t3.outputs@[j]
                    &&& self.compaction_occurred == (s0.compaction_occurred
                        || first_output(*self).active_workspace != t3.outputs@[0].active_workspace)
                } by {
                lemma_first_match_unique(s0, key, l, loc);
                assert(removed_at(s0, s1, l));
            }
        }
        false
    }
}

} // verus!

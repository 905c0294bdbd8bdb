//! Finding windows. Windows are searched output by output; within an output,
//! the background layer, the bottom layer, the workspaces in position order,
//! the top layer and the overlay layer, each bottom-most window first.

use vstd::prelude::*;
use crate::slot_vec::Slot;
use crate::wm::floating::{Wm, output_wf};
use crate::wm::types::{OutputState, WindowState};

verus! {

/// The container of a window within an output.
#[derive(Clone, Copy, Debug, PartialEq, Eq)]
pub enum WindowLayer {
    Background,
    Bottom,
    Workspace(usize),
    Top,
    Overlay,
}

/// Where a window is: output position, container, position in the container.
#[derive(Clone, Copy, Debug, PartialEq, Eq)]
pub struct WindowLoc {
    pub output: usize,
    pub layer: WindowLayer,
    pub index: usize,
}

/// What a search looks for: a surface handle, a toplevel handle, or the
/// protocol id of a surface.
#[derive(Clone, Copy, Debug, PartialEq, Eq)]
pub enum WindowKey {
    Surface(u64),
    Toplevel(u64),
    Protocol(u32),
}

/// Whether window `w` is the one named by `key`.
pub open spec fn key_matches(w: WindowState, key: WindowKey) -> bool {
    match key {
        WindowKey::Surface(id) => w.surface_id == id,
        WindowKey::Toplevel(id) => w.toplevel_id == Some(id),
        WindowKey::Protocol(id) => w.protocol_id == id,
    }
}

/// The windows of container `l` of output `o` (none for a missing workspace).
pub open spec fn layer_windows(o: OutputState, l: WindowLayer) -> Seq<WindowState> {
    match l {
        WindowLayer::Background => o.background.windows@,
        WindowLayer::Bottom => o.bottom.windows@,
        WindowLayer::Workspace(i) => if i < o.workspaces@.len() && o.workspaces@[i as int] is Occupied {
            o.workspaces@[i as int]->Occupied_0.windows@
        } else {
            Seq::empty()
        },
        WindowLayer::Top => o.top.windows@,
        WindowLayer::Overlay => o.overlay.windows@,
    }
}

/// Whether `loc` names a window of `wm`.
pub open spec fn loc_valid(wm: Wm, loc: WindowLoc) -> bool {
    &&& loc.output < wm.outputs@.len()
    &&& loc.index < layer_windows(wm.outputs@[loc.output as int], loc.layer).len()
}

/// The window that `loc` names.
pub open spec fn window_at(wm: Wm, loc: WindowLoc) -> WindowState {
    layer_windows(wm.outputs@[loc.output as int], loc.layer)[loc.index as int]
}

/// Search order of containers within an output: (kind, workspace position).
pub open spec fn layer_rank(l: WindowLayer) -> (int, int) {
    match l {
        WindowLayer::Background => (0, 0),
        WindowLayer::Bottom => (1, 0),
        WindowLayer::Workspace(i) => (2, i as int),
        WindowLayer::Top => (3, 0),
        WindowLayer::Overlay => (4, 0),
    }
}

/// Whether the search meets `a` before `b`.
pub open spec fn loc_before(a: WindowLoc, b: WindowLoc) -> bool {
    let (ka, wa) = layer_rank(a.layer);
    let (kb, wb) = layer_rank(b.layer);
    ||| a.output < b.output
    ||| (a.output == b.output && ka < kb)
    ||| (a.output == b.output && ka == kb && wa < wb)
    ||| (a.output == b.output && a.layer == b.layer && a.index < b.index)
}

/// `loc` is where the search for `key` stops: a match with no match before it.
pub open spec fn is_first_match(wm: Wm, key: WindowKey, loc: WindowLoc) -> bool {
    &&& loc_valid(wm, loc)
    &&& key_matches(window_at(wm, loc), key)
    &&& forall|l: WindowLoc|
        #![trigger loc_valid(wm, l), loc_before(l, loc)]
        loc_valid(wm, l) && loc_before(l, loc) ==> !key_matches(window_at(wm, l), key)
}

/// No window of `wm` matches `key`.
pub open spec fn no_match(wm: Wm, key: WindowKey) -> bool {
    forall|l: WindowLoc| #![trigger loc_valid(wm, l)] loc_valid(wm, l) ==> !key_matches(window_at(wm, l), key)
}

/// The result of a search for `key`.
pub open spec fn search_result(wm: Wm, key: WindowKey, r: Option<WindowLoc>) -> bool {
    match r {
        Some(loc) => is_first_match(wm, key, loc),
        None => no_match(wm, key),
    }
}


/// The window where the search for `key` stops, if any.
pub open spec fn first_window(wm: Wm, key: WindowKey) -> Option<WindowState> {
    if exists|l: WindowLoc| #[trigger] is_first_match(wm, key, l) {
        Some(window_at(wm, choose|l: WindowLoc| #[trigger] is_first_match(wm, key, l)))
    } else {
        None
    }
}

/// `new` is `old` with the window at `loc` replaced by `w`, and nothing else changed.
pub open spec fn replaced(old: Wm, new: Wm, loc: WindowLoc, w: WindowState) -> bool {
    let k = loc.output as int;
    let o = old.outputs@[k];
    let o2 = new.outputs@[k];
    &&& new.outputs@.len() == old.outputs@.len()
    &&& forall|j: int| 0 <= j < old.outputs@.len() && j != k ==> #[trigger] new.outputs@[j] == old.outputs@[j]
    &&& o2.id == o.id
    &&& o2.active_workspace == o.active_workspace
    &&& o2.usable_area == o.usable_area
    &&& (if loc.layer == WindowLayer::Background {
        o2.background.windows@ == o.background.windows@.update(loc.index as int, w)
    } else {
        o2.background == o.background
    })
    &&& (if loc.layer == WindowLayer::Bottom {
        o2.bottom.windows@ == o.bottom.windows@.update(loc.index as int, w)
    } else {
        o2.bottom == o.bottom
    })
    &&& (if loc.layer == WindowLayer::Top {
        o2.top.windows@ == o.top.windows@.update(loc.index as int, w)
    } else {
        o2.top == o.top
    })
    &&& (if loc.layer == WindowLayer::Overlay {
        o2.overlay.windows@ == o.overlay.windows@.update(loc.index as int, w)
    } else {
        o2.overlay == o.overlay
    })
    &&& (match loc.layer {
        WindowLayer::Workspace(wi) => {
            &&& o2.workspaces@.len() == o.workspaces@.len()
            &&& forall|j: int| 0 <= j < o.workspaces@.len() && j != wi ==> #[trigger] o2.workspaces@[j] == o.workspaces@[j]
            &&& o2.workspaces@[wi as int] is Occupied
            &&& o2.workspaces@[wi as int]->Occupied_0.id == o.workspaces@[wi as int]->Occupied_0.id
            &&& o2.workspaces@[wi as int]->Occupied_0.windows@ == o.workspaces@[wi as int]->Occupied_0.windows@.update(loc.index as int, w)
        },
        _ => o2.workspaces == o.workspaces,
    })
    &&& new.popups == old.popups
    &&& new.drag_target == old.drag_target
    &&& new.resize_state == old.resize_state
    &&& new.is_swiping == old.is_swiping
    &&& new.compaction_occurred == old.compaction_occurred
}


/// `new` is `old` with the window at `loc` taken out, and nothing else changed.
pub open spec fn removed_at(old: Wm, new: Wm, loc: WindowLoc) -> bool {
    let k = loc.output as int;
    let o = old.outputs@[k];
    let o2 = new.outputs@[k];
    &&& new.outputs@.len() == old.outputs@.len()
    &&& forall|j: int| 0 <= j < old.outputs@.len() && j != k ==> #[trigger] new.outputs@[j] == old.outputs@[j]
    &&& o2.id == o.id
    &&& o2.active_workspace == o.active_workspace
    &&& o2.usable_area == o.usable_area
    &&& (if loc.layer == WindowLayer::Background {
        o2.background.windows@ == o.background.windows@.remove(loc.index as int)
    } else {
        o2.background == o.background
    })
    &&& (if loc.layer == WindowLayer::Bottom {
        o2.bottom.windows@ == o.bottom.windows@.remove(loc.index as int)
    } else {
        o2.bottom == o.bottom
    })
    &&& (if loc.layer == WindowLayer::Top {
        o2.top.windows@ == o.top.windows@.remove(loc.index as int)
    } else {
        o2.top == o.top
    })
    &&& (if loc.layer == WindowLayer::Overlay {
        o2.overlay.windows@ == o.overlay.windows@.remove(loc.index as int)
    } else {
        o2.overlay == o.overlay
    })
    &&& (match loc.layer {
        WindowLayer::Workspace(wi) => {
            &&& o2.workspaces@.len() == o.workspaces@.len()
            &&& forall|j: int| 0 <= j < o.workspaces@.len() && j != wi ==> #[trigger] o2.workspaces@[j] == o.workspaces@[j]
            &&& o2.workspaces@[wi as int] is Occupied
            &&& o2.workspaces@[wi as int]->Occupied_0.id == o.workspaces@[wi as int]->Occupied_0.id
            &&& o2.workspaces@[wi as int]->Occupied_0.windows@ == o.workspaces@[wi as int]->Occupied_0.windows@.remove(loc.index as int)
        },
        _ => o2.workspaces == o.workspaces,
    })
    &&& new.popups == old.popups
    &&& new.drag_target == old.drag_target
    &&& new.resize_state == old.resize_state
    &&& new.is_swiping == old.is_swiping
    &&& new.compaction_occurred == old.compaction_occurred
}


/// `new` is `old` with the first window matching `key` changed by `f`;
/// unchanged when none matches.
pub open spec fn updated_first(
    old: Wm,
    new: Wm,
    key: WindowKey,
    f: spec_fn(WindowState) -> WindowState,
) -> bool {
    &&& forall|loc: WindowLoc| #[trigger] is_first_match(old, key, loc) ==> replaced(old, new, loc, f(window_at(old, loc)))
    &&& no_match(old, key) ==> new == old
}

/// Replacing one window keeps the manager well formed.
pub proof fn lemma_replaced_wf(old: Wm, new: Wm, loc: WindowLoc, w: WindowState)
    requires
        old.wf(),
        loc_valid(old, loc),
        replaced(old, new, loc, w),
    ensures
        new.wf(),
{
    assert forall|j: int| 0 <= j < new.outputs@.len() implies (#[trigger] new.outputs@[j]).workspaces@.len() > 0 by {
        if j != loc.output {
            assert(new.outputs@[j] == old.outputs@[j]);
        }
    }
    if new.outputs@.len() > 0 {
        if loc.output == 0 {
            let o = old.outputs@[0];
            let o2 = new.outputs@[0];
            assert forall|i: int| 0 <= i < o2.workspaces@.len() && #[trigger] o2.workspaces@[i] is Occupied implies o2.workspaces@[i]->Occupied_0.id == i by {
                match loc.layer {
                    WindowLayer::Workspace(wi) => {
                        if i != wi {
                            assert(o2.workspaces@[i] == o.workspaces@[i]);
                        }
                    },
                    _ => {},
                }
            }
        } else {
            assert(new.outputs@[0] == old.outputs@[0]);
        }
    }
}

/// `new` holds windows exactly where `old` does, with the same surfaces,
/// protocol ids, toplevels and parents, and the manager's other fields unchanged.
pub open spec fn same_windows(old: Wm, new: Wm) -> bool {
    &&& new.outputs@.len() == old.outputs@.len()
    &&& forall|l: WindowLoc| #[trigger] loc_valid(new, l) == loc_valid(old, l)
    &&& forall|l: WindowLoc| loc_valid(old, l) ==> {
        &&& (#[trigger] window_at(new, l)).surface_id == window_at(old, l).surface_id
        &&& window_at(new, l).protocol_id == window_at(old, l).protocol_id
        &&& window_at(new, l).toplevel_id == window_at(old, l).toplevel_id
        &&& window_at(new, l).parent_id == window_at(old, l).parent_id
    }
    &&& new.popups == old.popups
    &&& new.drag_target == old.drag_target
    &&& new.resize_state == old.resize_state
    &&& new.is_swiping == old.is_swiping
    &&& new.compaction_occurred == old.compaction_occurred
}

/// After a replacement, every container holds what it held, but for the
/// replaced window.
proof fn lemma_replaced_layers(old: Wm, new: Wm, loc: WindowLoc, w: WindowState, l: WindowLoc)
    requires
        replaced(old, new, loc, w),
        loc_valid(old, loc),
        l.output < old.outputs@.len(),
    ensures
        layer_windows(new.outputs@[l.output as int], l.layer) == if l.output == loc.output && l.layer == loc.layer {
            layer_windows(old.outputs@[l.output as int], l.layer).update(loc.index as int, w)
        } else {
            layer_windows(old.outputs@[l.output as int], l.layer)
        },
{
    if l.output == loc.output {
        let o = old.outputs@[l.output as int];
        let o2 = new.outputs@[l.output as int];
        match l.layer {
            WindowLayer::Workspace(i) => {
                match loc.layer {
                    WindowLayer::Workspace(wi) => {
                        if i != wi && i < o.workspaces@.len() {
                            assert(o2.workspaces@[i as int] == o.workspaces@[i as int]);
                        }
                    },
                    _ => {},
                }
            },
            _ => {},
        }
    } else {
        assert(new.outputs@[l.output as int] == old.outputs@[l.output as int]);
    }
}

/// Replacing a window by one with the same surface, toplevel and parent
/// keeps the same windows.
pub proof fn lemma_replaced_same_windows(old: Wm, new: Wm, loc: WindowLoc, w: WindowState)
    requires
        loc_valid(old, loc),
        replaced(old, new, loc, w),
        w.surface_id == window_at(old, loc).surface_id,
        w.protocol_id == window_at(old, loc).protocol_id,
        w.toplevel_id == window_at(old, loc).toplevel_id,
        w.parent_id == window_at(old, loc).parent_id,
    ensures
        same_windows(old, new),
{
    assert forall|l: WindowLoc| #[trigger] loc_valid(new, l) == loc_valid(old, l) by {
        if l.output < old.outputs@.len() {
            lemma_replaced_layers(old, new, loc, w, l);
        }
    }
    assert forall|l: WindowLoc| loc_valid(old, l) implies {
        &&& (#[trigger] window_at(new, l)).surface_id == window_at(old, l).surface_id
        &&& window_at(new, l).protocol_id == window_at(old, l).protocol_id
        &&& window_at(new, l).toplevel_id == window_at(old, l).toplevel_id
        &&& window_at(new, l).parent_id == window_at(old, l).parent_id
    } by {
        lemma_replaced_layers(old, new, loc, w, l);
    }
}

/// Searches give the same answers on the same windows.
pub proof fn lemma_same_windows_search(old: Wm, new: Wm, key: WindowKey)
    requires
        same_windows(old, new),
    ensures
        no_match(new, key) == no_match(old, key),
        forall|l: WindowLoc| #[trigger] is_first_match(new, key, l) == is_first_match(old, key, l),
        forall|l: WindowLoc| loc_valid(old, l) ==> key_matches(#[trigger] window_at(new, l), key) == key_matches(window_at(old, l), key),
{
    assert forall|l: WindowLoc| loc_valid(old, l) implies key_matches(#[trigger] window_at(new, l), key) == key_matches(window_at(old, l), key) by {
        assert(window_at(new, l).surface_id == window_at(old, l).surface_id);
    }
    assert forall|l: WindowLoc| #[trigger] is_first_match(new, key, l) == is_first_match(old, key, l) by {
        if is_first_match(new, key, l) {
            assert(loc_valid(new, l));
            assert forall|m: WindowLoc| loc_valid(old, m) && loc_before(m, l) implies !key_matches(window_at(old, m), key) by {
                assert(loc_valid(new, m));
            }
        }
        if is_first_match(old, key, l) {
            assert(loc_valid(old, l));
            assert forall|m: WindowLoc| loc_valid(new, m) && loc_before(m, l) implies !key_matches(window_at(new, m), key) by {
                assert(loc_valid(old, m));
            }
        }
    }
    if no_match(old, key) {
        assert forall|m: WindowLoc| loc_valid(new, m) implies !key_matches(window_at(new, m), key) by {
            assert(loc_valid(old, m));
        }
    }
    if no_match(new, key) {
        assert forall|m: WindowLoc| loc_valid(old, m) implies !key_matches(window_at(old, m), key) by {
            assert(loc_valid(new, m));
        }
    }
}

/// Taking out one window keeps the manager well formed.
pub proof fn lemma_removed_wf(old: Wm, new: Wm, loc: WindowLoc)
    requires
        old.wf(),
        loc_valid(old, loc),
        removed_at(old, new, loc),
    ensures
        new.wf(),
{
    assert forall|j: int| 0 <= j < new.outputs@.len() implies (#[trigger] new.outputs@[j]).workspaces@.len() > 0 by {
        if j != loc.output {
            assert(new.outputs@[j] == old.outputs@[j]);
        }
    }
    if new.outputs@.len() > 0 {
        if loc.output == 0 {
            let o = old.outputs@[0];
            let o2 = new.outputs@[0];
            assert forall|i: int| 0 <= i < o2.workspaces@.len() && #[trigger] o2.workspaces@[i] is Occupied implies o2.workspaces@[i]->Occupied_0.id == i by {
                match loc.layer {
                    WindowLayer::Workspace(wi) => {
                        if i != wi {
                            assert(o2.workspaces@[i] == o.workspaces@[i]);
                        }
                    },
                    _ => {},
                }
            }
        } else {
            assert(new.outputs@[0] == old.outputs@[0]);
        }
    }
}

/// Replacing the first match by `f` of it is the update that `updated_first` describes.
pub proof fn lemma_updated_first(old: Wm, new: Wm, key: WindowKey, loc: WindowLoc, f: spec_fn(WindowState) -> WindowState)
    requires
        is_first_match(old, key, loc),
        replaced(old, new, loc, f(window_at(old, loc))),
    ensures
        updated_first(old, new, key, f),
{
    assert forall|l: WindowLoc| #[trigger] is_first_match(old, key, l) implies replaced(old, new, l, f(window_at(old, l))) by {
        lemma_first_match_unique(old, key, l, loc);
    }
    assert(!no_match(old, key)) by {
        assert(loc_valid(old, loc));
    }
}

/// Two first matches of one search are the same place.
pub proof fn lemma_first_match_unique(wm: Wm, key: WindowKey, a: WindowLoc, b: WindowLoc)
    requires
        is_first_match(wm, key, a),
        is_first_match(wm, key, b),
    ensures
        a == b,
{
    if a != b {
        assert(loc_before(a, b) || loc_before(b, a)) by {
            if a.output == b.output && a.layer == b.layer {
                assert(a.index != b.index);
            }
        }
    }
}

/// Whether window `w` matches `key`.
pub fn window_matches(w: &WindowState, key: WindowKey) -> (r: bool)
    ensures
        r == key_matches(*w, key),
{
    match key {
        WindowKey::Surface(id) => w.surface_id == id,
        WindowKey::Toplevel(id) => match w.toplevel_id {
            Some(t) => t == id,
            None => false,
        },
        WindowKey::Protocol(id) => w.protocol_id == id,
    }
}

/// Position of the first window of `v` matching `key`.
pub fn position_in(v: &Vec<WindowState>, key: WindowKey) -> (r: Option<usize>)
    ensures
        match r {
            Some(i) => i < v@.len() && key_matches(v@[i as int], key) && forall|j: int|
                0 <= j < i ==> !key_matches(#[trigger] v@[j], key),
            None => forall|j: int| 0 <= j < v@.len() ==> !key_matches(#[trigger] v@[j], key),
        },
{
    let mut i: usize = 0;
    while i < v.len()
        invariant
            i <= v@.len(),
            forall|j: int| 0 <= j < i ==> !key_matches(#[trigger] v@[j], key),
        decreases v@.len() - i,
    {
        if window_matches(&v[i], key) {
            return Some(i);
        }
        i = i + 1;
    }
    None
}

impl Wm {
    /// Where the search for `key` stops, if anywhere.
    pub fn locate(&self, key: WindowKey) -> (r: Option<WindowLoc>)
        ensures
            search_result(*self, key, r),
    {
        let mut k: usize = 0;
        while k < self.outputs.len()
            invariant
                k <= self.outputs@.len(),
                forall|l: WindowLoc|
                    #![trigger loc_valid(*self, l)]
                    loc_valid(*self, l) && l.output < k ==> !key_matches(window_at(*self, l), key),
            decreases self.outputs@.len() - k,
        {
            let out = &self.outputs[k];
            if let Some(i) = position_in(&out.background.windows, key) {
                let r = WindowLoc { output: k, layer: WindowLayer::Background, index: i };
                assert(forall|l: WindowLoc| #![trigger loc_valid(*self, l), loc_before(l, r)]
                    loc_valid(*self, l) && loc_before(l, r) && l.output == k ==> l.layer == WindowLayer::Background && !key_matches(window_at(*self, l), key));
                return Some(r);
            }
            if let Some(i) = position_in(&out.bottom.windows, key) {
                let r = WindowLoc { output: k, layer: WindowLayer::Bottom, index: i };
                assert(forall|l: WindowLoc| #![trigger loc_valid(*self, l), loc_before(l, r)]
                    loc_valid(*self, l) && loc_before(l, r) && l.output == k && l.layer == WindowLayer::Background
                    ==> !key_matches(window_at(*self, l), key));
                return Some(r);
            }
            let n = out.workspaces.inner.len();
            let mut w: usize = 0;
            while w < n
                invariant
                    k < self.outputs@.len(),
                    *out == self.outputs@[k as int],
                    n == out.workspaces@.len(),
                    w <= n,
                    forall|j: int| 0 <= j < out.background.windows@.len() ==> !key_matches(#[trigger] out.background.windows@[j], key),
                    forall|j: int| 0 <= j < out.bottom.windows@.len() ==> !key_matches(#[trigger] out.bottom.windows@[j], key),
                    forall|l: WindowLoc|
                        #![trigger loc_valid(*self, l)]
                        loc_valid(*self, l) && l.output < k ==> !key_matches(window_at(*self, l), key),
                    forall|l: WindowLoc|
                        #![trigger loc_valid(*self, l)]
                        loc_valid(*self, l) && l.output == k && (l.layer matches WindowLayer::Workspace(x) && x < w)
                            ==> !key_matches(window_at(*self, l), key),
                decreases n - w,
            {
                match &out.workspaces.inner[w] {
                    Slot::Occupied(ws) => {
                        if let Some(i) = position_in(&ws.windows, key) {
                            let r = WindowLoc { output: k, layer: WindowLayer::Workspace(w), index: i };
                            return Some(r);
                        }
                    },
                    Slot::Empty => {},
                }
                w = w + 1;
            }
            if let Some(i) = position_in(&out.top.windows, key) {
                let r = WindowLoc { output: k, layer: WindowLayer::Top, index: i };
                return Some(r);
            }
            if let Some(i) = position_in(&out.overlay.windows, key) {
                let r = WindowLoc { output: k, layer: WindowLayer::Overlay, index: i };
                return Some(r);
            }
            k = k + 1;
        }
        None
    }

    /// The window at `loc`, for writing.
    pub fn window_at_mut(&mut self, loc: WindowLoc) -> (r: &mut WindowState)
        requires
            loc_valid(*old(self), loc),
        ensures
            *r == window_at(*old(self), loc),
            replaced(*old(self), *final(self), loc, *final(r)),
    {
        let out = &mut self.outputs[loc.output];
        match loc.layer {
            WindowLayer::Background => &mut out.background.windows[loc.index],
            WindowLayer::Bottom => &mut out.bottom.windows[loc.index],
            WindowLayer::Top => &mut out.top.windows[loc.index],
            WindowLayer::Overlay => &mut out.overlay.windows[loc.index],
            WindowLayer::Workspace(wi) => {
                match &mut out.workspaces.inner[wi] {
                    Slot::Occupied(ws) => &mut ws.windows[loc.index],
                    Slot::Empty => vstd::pervasive::unreached(),
                }
            },
        }
    }

    /// Takes out the window at `loc` and hands it back.
    pub fn remove_at(&mut self, loc: WindowLoc) -> (r: WindowState)
        requires
            loc_valid(*old(self), loc),
        ensures
            r == window_at(*old(self), loc),
            removed_at(*old(self), *final(self), loc),
    {
        let out = &mut self.outputs[loc.output];
        match loc.layer {
            WindowLayer::Background => out.background.windows.remove(loc.index),
            WindowLayer::Bottom => out.bottom.windows.remove(loc.index),
            WindowLayer::Top => out.top.windows.remove(loc.index),
            WindowLayer::Overlay => out.overlay.windows.remove(loc.index),
            WindowLayer::Workspace(wi) => {
                match &mut out.workspaces.inner[wi] {
                    Slot::Occupied(ws) => ws.windows.remove(loc.index),
                    Slot::Empty => vstd::pervasive::unreached(),
                }
            },
        }
    }

    /// The window at `loc`.
    pub fn window_at_ref(&self, loc: WindowLoc) -> (r: &WindowState)
        requires
            loc_valid(*self, loc),
        ensures
            *r == window_at(*self, loc),
    {
        let out = &self.outputs[loc.output];
        match loc.layer {
            WindowLayer::Background => &out.background.windows[loc.index],
            WindowLayer::Bottom => &out.bottom.windows[loc.index],
            WindowLayer::Top => &out.top.windows[loc.index],
            WindowLayer::Overlay => &out.overlay.windows[loc.index],
            WindowLayer::Workspace(wi) => {
                match &out.workspaces.inner[wi] {
                    Slot::Occupied(ws) => &ws.windows[loc.index],
                    Slot::Empty => vstd::pervasive::unreached(),
                }
            },
        }
    }

    /// The window where the search for `key` stops, if any.
    pub fn find_window(&self, key: WindowKey) -> (r: Option<&WindowState>)
        ensures
            match r {
                Some(w) => first_window(*self, key) == Some(*w),
                None => first_window(*self, key) is None,
            },
    {
        match self.locate(key) {
            Some(l) => {
                proof {
                    let c = choose|m: WindowLoc| #[trigger] is_first_match(*self, key, m);
                    lemma_first_match_unique(*self, key, c, l);
                }
                Some(self.window_at_ref(l))
            },
            None => {
                proof {
                    assert forall|m: WindowLoc| !#[trigger] is_first_match(*self, key, m) by {
                        if is_first_match(*self, key, m) {
                            assert(loc_valid(*self, m));
                        }
                    }
                }
                None
            },
        }
    }
}

} // verus!

//! Minimizing, and starting interactive moves and resizes.
//!
//! Pointer positions and window positions are kept by the embedding server;
//! the operations here keep which window is being moved or resized, record
//! the configures that leaving maximized or fullscreen state asks for, and
//! raise and focus the window.

use vstd::prelude::*;
use crate::slot_vec::Slot;
use crate::wm::floating::{Wm, first_output, ws_windows};
use crate::geometry::Rect;
use crate::wm::locate::{
    WindowKey, WindowLayer, WindowLoc, is_first_match, lemma_first_match_unique,
    lemma_replaced_wf, lemma_same_windows_search, loc_valid, no_match, replaced, same_windows,
    window_at,
};
use crate::wm::configure::{
    ToplevelConfigure, fullscreen_set, lemma_toplevel_target_unique, maximized_set, toplevel_target,
};
use crate::wm::stacking::{focus_ok, focus_target, raised};
use crate::wm::transient::{all_links, lemma_replaced_links};
use crate::wm::types::{ResizeState, WindowState};

verus! {

/// The top-most window of `s` that is not minimized and is not of surface `sid`.
pub open spec fn last_other_unminimized(s: Seq<WindowState>, sid: u64) -> Option<u64>
    decreases s.len(),
{
    if s.len() == 0 {
        None
    } else if !s.last().minimized && s.last().surface_id != sid {
        Some(s.last().surface_id)
    } else {
        last_other_unminimized(s.drop_last(), sid)
    }
}

/// The window that takes focus when the window of surface `sid` is
/// minimized: the top-most other window of the first output's active
/// workspace that is not minimized.
pub open spec fn refocus_candidate(wm: Wm, sid: u64) -> Option<u64> {
    let o = first_output(wm);
    last_other_unminimized(ws_windows(o, o.active_workspace as int), sid)
}

/// Window `w`, minimized.
pub open spec fn minimized(w: WindowState) -> WindowState {
    WindowState { minimized: true, ..w }
}

/// Replacing a window of surface `sid` by another of surface `sid` does not
/// change which other window is top-most.
proof fn lemma_last_other_update(s: Seq<WindowState>, sid: u64, i: int, w: WindowState)
    requires
        0 <= i < s.len(),
        s[i].surface_id == sid,
        w.surface_id == sid,
    ensures
        last_other_unminimized(s.update(i, w), sid) == last_other_unminimized(s, sid),
    decreases s.len(),
{
    let u = s.update(i, w);
    if i == s.len() - 1 {
        assert(u.drop_last() =~= s.drop_last());
    } else {
        assert(u.drop_last() =~= s.drop_last().update(i, w));
        lemma_last_other_update(s.drop_last(), sid, i, w);
    }
}

/// The top-most window of `v` that is not minimized and is not of surface `sid`.
fn last_other_unminimized_in(v: &Vec<WindowState>, sid: u64) -> (r: Option<u64>)
    ensures
        r == last_other_unminimized(v@, sid),
{
    let mut i: usize = v.len();
    proof {
        assert(v@.take(i as int) =~= v@);
    }
    while i > 0
        invariant
            i <= v@.len(),
            last_other_unminimized(v@, sid) == last_other_unminimized(v@.take(i as int), sid),
        decreases i,
    {
        let w = &v[i - 1];
        proof {
            assert(v@.take(i as int).last() == v@[i - 1]);
            assert(v@.take(i as int).drop_last() =~= v@.take(i - 1));
        }
        if !w.minimized && w.surface_id != sid {
            return Some(w.surface_id);
        }
        i = i - 1;
    }
    None
}

/// What starting an interactive move or resize did.
pub struct InteractionStart {
    /// The configures sent on leaving fullscreen and maximized state, in order.
    pub configures: Vec<ToplevelConfigure>,
    /// Whether the interaction began.
    pub started: bool,
}

/// The configure sent, if any, as a sequence.
pub open spec fn sent(c: Option<ToplevelConfigure>) -> Seq<ToplevelConfigure> {
    match c {
        Some(c) => seq![c],
        None => Seq::empty(),
    }
}

/// `new` is `old` after the window with toplevel `tid` was asked to leave
/// fullscreen and then maximized state, sending the configures `c`.
pub open spec fn left_states(old: Wm, new: Wm, tid: u64, screen_size: (u16, u16), serial: u32, c: Seq<ToplevelConfigure>) -> bool {
    exists|s1: Wm, fs: Option<ToplevelConfigure>, mx: Option<ToplevelConfigure>|
        #![trigger fullscreen_set(old, s1, tid, false, screen_size, serial, fs), maximized_set(s1, new, tid, false, screen_size, serial, mx)]
        {
            &&& fullscreen_set(old, s1, tid, false, screen_size, serial, fs)
            &&& maximized_set(s1, new, tid, false, screen_size, serial, mx)
            &&& c == sent(fs) + sent(mx)
        }
}

/// Having the same windows is transitive.
proof fn lemma_same_windows_trans(a: Wm, b: Wm, c: Wm)
    requires
        same_windows(a, b),
        same_windows(b, c),
    ensures
        same_windows(a, c),
{
    assert forall|l: WindowLoc| #[trigger] loc_valid(c, l) == loc_valid(a, l) by {
        assert(loc_valid(c, l) == loc_valid(b, l));
        assert(loc_valid(b, l) == loc_valid(a, l));
    }
    assert forall|l: WindowLoc| loc_valid(a, l) implies {
        &&& (#[trigger] window_at(c, l)).surface_id == window_at(a, l).surface_id
        &&& window_at(c, l).protocol_id == window_at(a, l).protocol_id
        &&& window_at(c, l).toplevel_id == window_at(a, l).toplevel_id
        &&& window_at(c, l).parent_id == window_at(a, l).parent_id
    } by {
        assert(loc_valid(b, l));
        assert(window_at(b, l).surface_id == window_at(a, l).surface_id);
        assert(window_at(c, l).surface_id == window_at(b, l).surface_id);
    }
}

/// `new` is `old` after an interactive move of the window of surface `sid`
/// was asked for: when there is such a window, its toplevel left fullscreen
/// and maximized state (sending `c`), it became the window being dragged,
/// no resize is in progress, and it was focused.
pub open spec fn drag_started(old: Wm, new: Wm, sid: u64, screen_size: (u16, u16), serial: u32, c: Seq<ToplevelConfigure>, started: bool) -> bool {
    &&& no_match(old, WindowKey::Surface(sid)) ==> new == old && c.len() == 0 && !started
    &&& forall|loc: WindowLoc| #[trigger] is_first_match(old, WindowKey::Surface(sid), loc) ==> {
        &&& started
        &&& exists|s2: Wm| {
            &&& #[trigger] same_windows(old, s2)
            &&& match window_at(old, loc).toplevel_id {
                Some(t) => left_states(old, s2, t, screen_size, serial, c),
                None => s2 == old && c.len() == 0,
            }
            &&& raised(Wm { drag_target: Some(sid), resize_state: None, ..s2 }, new, focus_target(all_links(old), old.popups@, sid))
        }
    }
}

/// `new` is `s2` after a drag of the window of surface `sid` was asked
/// for (see `drag_started`), sending `c2`; `s2` is `old` with the same windows.
pub open spec fn move_started(old: Wm, s2: Wm, new: Wm, sid: u64, screen_size: (u16, u16), serial: u32, c1: Seq<ToplevelConfigure>, c2: Seq<ToplevelConfigure>, started: bool) -> bool {
    &&& same_windows(old, s2)
    &&& drag_started(s2, new, sid, screen_size, serial, c2, started)
}

/// `new` is `old` after an interactive resize by `edges` of the window with
/// toplevel `tid` was asked for: `s2` is `old` after the toplevel left
/// fullscreen and maximized state (sending `c`); then the first window
/// showing the toplevel became the window being resized, from its window
/// geometry, no drag is in progress, and the window was focused.
pub open spec fn resize_started(old: Wm, s2: Wm, new: Wm, tid: u64, edges: u32, screen_size: (u16, u16), serial: u32, c: Seq<ToplevelConfigure>, started: bool) -> bool {
    &&& left_states(old, s2, tid, screen_size, serial, c)
    &&& no_match(old, WindowKey::Toplevel(tid)) ==> new == s2 && !started
    &&& forall|l: WindowLoc| #[trigger] is_first_match(old, WindowKey::Toplevel(tid), l) ==> {
        let w = window_at(s2, l);
        &&& started
        &&& raised(
            Wm {
                resize_state: Some(ResizeState { surface_id: w.surface_id, edges: edges, start_geometry: w.geometry }),
                drag_target: None,
                ..s2
            },
            new,
            focus_target(all_links(old), old.popups@, w.surface_id),
        )
    }
}

impl Wm {
    /// Minimizes the window with toplevel `toplevel_id`, then focuses the
    /// top-most other window of the active workspace that is not minimized
    /// and answers it, if there is one.
    pub fn set_minimized(&mut self, toplevel_id: u64) -> (r: Option<u64>)
        requires
            old(self).wf(),
            forall|loc: WindowLoc| #[trigger] toplevel_target(*old(self), toplevel_id, loc) ==>
                match refocus_candidate(*old(self), window_at(*old(self), loc).surface_id) {
                    Some(c) => focus_ok(*old(self), c),
                    None => true,
                },
        ensures
            final(self).wf(),
            no_match(*old(self), WindowKey::Toplevel(toplevel_id)) ==> *final(self) == *old(self) && r is None,
            forall|loc: WindowLoc| #[trigger] toplevel_target(*old(self), toplevel_id, loc) ==> {
                &&& r == refocus_candidate(*old(self), window_at(*old(self), loc).surface_id)
                &&& exists|mid: Wm| {
                    &&& #[trigger] replaced(*old(self), mid, loc, minimized(window_at(*old(self), loc)))
                    &&& match r {
                        None => *final(self) == mid,
                        Some(c) => raised(mid, *final(self), focus_target(all_links(*old(self)), old(self).popups@, c)),
                    }
                }
            },
    {
        let loc = match self.locate_toplevel_target(toplevel_id) {
            Some(l) => l,
            None => return None,
        };
        let ghost s0 = *self;
        proof {
            lemma_toplevel_target_unique(s0, toplevel_id, loc);
            assert(loc_valid(s0, loc));
        }
        let sid = self.window_at_ref(loc).surface_id;
        let window = self.window_at_mut(loc);
        window.minimized = true;
        let ghost mid = *self;
        let ghost w2 = minimized(window_at(s0, loc));
        proof {
            assert(window_at(mid, loc) == w2);
            lemma_replaced_wf(s0, mid, loc, w2);
            lemma_replaced_links(s0, mid, loc, w2);
            let o = first_output(s0);
            let o2 = first_output(mid);
            let a = o.active_workspace as int;
            if loc.output == 0 && loc.layer == WindowLayer::Workspace(o.active_workspace) {
                lemma_last_other_update(ws_windows(o, a), sid, loc.index as int, w2);
            } else if loc.output != 0 {
                assert(mid.outputs@[0] == s0.outputs@[0]);
            } else {
                match loc.layer {
                    WindowLayer::Workspace(wi) => {
                        assert(o2.workspaces@[a] == o.workspaces@[a]);
                    },
                    _ => {},
                }
            }
            assert(refocus_candidate(mid, sid) == refocus_candidate(s0, sid));
        }
        let active = self.outputs[0].active_workspace;
        let mut target: Option<u64> = None;
        if let Some(slot) = self.outputs[0].workspaces.get(active) {
            if let Slot::Occupied(ws) = slot {
                target = last_other_unminimized_in(&ws.windows, sid);
            }
        }
        match target {
            Some(c) => {
                self.focus_window(c);
                Some(c)
            },
            None => None,
        }
    }

    /// Starts an interactive move of the window of surface `surface_id`:
    /// its toplevel leaves fullscreen and maximized state, it becomes the
    /// window being dragged, and it is focused (see `drag_started`).
    pub fn begin_drag(&mut self, surface_id: u64, screen_size: (u16, u16), serial: u32) -> (r: InteractionStart)
        requires
            old(self).wf(),
            forall|loc: WindowLoc| #[trigger] is_first_match(*old(self), WindowKey::Surface(surface_id), loc) ==> focus_ok(*old(self), surface_id),
        ensures
            final(self).wf(),
            drag_started(*old(self), *final(self), surface_id, screen_size, serial, r.configures@, r.started),
    {
        let ghost s0 = *self;
        let key = WindowKey::Surface(surface_id);
        let loc = match self.locate(key) {
            Some(l) => l,
            None => return InteractionStart { configures: Vec::new(), started: false },
        };
        proof {
            assert(loc_valid(s0, loc));
            assert forall|l: WindowLoc| #[trigger] is_first_match(s0, key, l) implies l == loc by {
                lemma_first_match_unique(s0, key, l, loc);
            }
        }
        let mut configures: Vec<ToplevelConfigure> = Vec::new();
        if let Some(t) = self.window_at_ref(loc).toplevel_id {
            let fs = self.set_fullscreen(t, false, screen_size, serial);
            let ghost s1 = *self;
            let mx = self.set_maximized(t, false, screen_size, serial);
            if let Some(c) = fs {
                configures.push(c);
            }
            if let Some(c) = mx {
                configures.push(c);
            }
            proof {
                lemma_same_windows_trans(s0, s1, *self);
                assert(configures@ =~= sent(fs) + sent(mx));
                assert(left_states(s0, *self, t, screen_size, serial, configures@));
            }
        } else {
            proof {
                assert(same_windows(s0, s0));
            }
        }
        let ghost s2 = *self;
        proof {
            lemma_same_windows_search(s0, s2, key);
        }
        match self.locate(key) {
            Some(_) => {},
            None => {
                proof {
                    assert(loc_valid(s0, loc));
                }
                return InteractionStart { configures, started: false };
            },
        }
        self.drag_target = Some(surface_id);
        self.resize_state = None;
        proof {
            assert(focus_ok(*self, surface_id));
        }
        self.focus_window(surface_id);
        InteractionStart { configures, started: true }
    }

    /// Starts an interactive move of the window with toplevel `toplevel_id`:
    /// the toplevel leaves fullscreen and maximized state, then a drag of
    /// the first window showing it begins (see `drag_started`).
    pub fn begin_interactive_move(&mut self, toplevel_id: u64, screen_size: (u16, u16), serial: u32) -> (r: InteractionStart)
        requires
            old(self).wf(),
            forall|l: WindowLoc| #[trigger] is_first_match(*old(self), WindowKey::Toplevel(toplevel_id), l)
                ==> focus_ok(*old(self), window_at(*old(self), l).surface_id),
        ensures
            final(self).wf(),
            no_match(*old(self), WindowKey::Toplevel(toplevel_id)) ==> *final(self) == *old(self) && r.configures@.len() == 0 && !r.started,
            forall|l: WindowLoc| #[trigger] is_first_match(*old(self), WindowKey::Toplevel(toplevel_id), l) ==>
                exists|s2: Wm, c1: Seq<ToplevelConfigure>, c2: Seq<ToplevelConfigure>|
                    #[trigger] move_started(*old(self), s2, *final(self), window_at(*old(self), l).surface_id, screen_size, serial, c1, c2, r.started)
                    && left_states(*old(self), s2, toplevel_id, screen_size, serial, c1)
                    && r.configures@ == c1 + c2,
    {
        let ghost s0 = *self;
        let key = WindowKey::Toplevel(toplevel_id);
        let l1 = match self.locate(key) {
            Some(l) => l,
            None => return InteractionStart { configures: Vec::new(), started: false },
        };
        proof {
            assert(loc_valid(s0, l1));
            assert forall|l: WindowLoc| #[trigger] is_first_match(s0, key, l) implies l == l1 by {
                lemma_first_match_unique(s0, key, l, l1);
            }
        }
        let sid = self.window_at_ref(l1).surface_id;
        let fs = self.set_fullscreen(toplevel_id, false, screen_size, serial);
        let ghost s1 = *self;
        let mx = self.set_maximized(toplevel_id, false, screen_size, serial);
        let ghost s2 = *self;
        let mut configures: Vec<ToplevelConfigure> = Vec::new();
        if let Some(c) = fs {
            configures.push(c);
        }
        if let Some(c) = mx {
            configures.push(c);
        }
        let ghost c1 = configures@;
        proof {
            lemma_same_windows_trans(s0, s1, s2);
            assert(configures@ =~= sent(fs) + sent(mx));
            assert(left_states(s0, s2, toplevel_id, screen_size, serial, c1));
            assert forall|loc: WindowLoc| #[trigger] is_first_match(s2, WindowKey::Surface(sid), loc) implies focus_ok(s2, sid) by {
                assert(focus_ok(s0, sid));
            }
        }
        let d = self.begin_drag(sid, screen_size, serial);
        let mut d_configures = d.configures;
        let ghost c2 = d_configures@;
        configures.append(&mut d_configures);
        let r = InteractionStart { configures, started: d.started };
        proof {
            assert(r.configures@ =~= c1 + c2);
            assert forall|l: WindowLoc| #[trigger] is_first_match(*old(self), key, l) implies
                exists|s: Wm, a: Seq<ToplevelConfigure>, b: Seq<ToplevelConfigure>|
                    #[trigger] move_started(*old(self), s, *self, window_at(*old(self), l).surface_id, screen_size, serial, a, b, r.started)
                    && left_states(*old(self), s, toplevel_id, screen_size, serial, a)
                    && r.configures@ == a + b by {
                assert(l == l1);
                assert(move_started(*old(self), s2, *self, window_at(*old(self), l).surface_id, screen_size, serial, c1, c2, r.started));
            }
        }
        r
    }

    /// Starts an interactive resize of the window with toplevel
    /// `toplevel_id` by the given edges: the toplevel leaves fullscreen and
    /// maximized state, then the first window showing it becomes the window
    /// being resized, from its window geometry, and is focused.
    pub fn begin_interactive_resize(&mut self, toplevel_id: u64, edges: u32, screen_size: (u16, u16), serial: u32) -> (r: InteractionStart)
        requires
            old(self).wf(),
            forall|l: WindowLoc| #[trigger] is_first_match(*old(self), WindowKey::Toplevel(toplevel_id), l)
                ==> focus_ok(*old(self), window_at(*old(self), l).surface_id),
        ensures
            final(self).wf(),
            exists|s2: Wm| #[trigger] resize_started(*old(self), s2, *final(self), toplevel_id, edges, screen_size, serial, r.configures@, r.started),
    {
        let ghost s0 = *self;
        let key = WindowKey::Toplevel(toplevel_id);
        let fs = self.set_fullscreen(toplevel_id, false, screen_size, serial);
        let ghost s1 = *self;
        let mx = self.set_maximized(toplevel_id, false, screen_size, serial);
        let ghost s2 = *self;
        let mut configures: Vec<ToplevelConfigure> = Vec::new();
        if let Some(c) = fs {
            configures.push(c);
        }
        if let Some(c) = mx {
            configures.push(c);
        }
        proof {
            lemma_same_windows_trans(s0, s1, s2);
            lemma_same_windows_search(s0, s2, key);
            assert(configures@ =~= sent(fs) + sent(mx));
            assert(left_states(s0, s2, toplevel_id, screen_size, serial, configures@));
        }
        let l1 = match self.locate(key) {
            Some(l) => l,
            None => {
                let r = InteractionStart { configures, started: false };
                proof {
                    assert(resize_started(*old(self), s2, *self, toplevel_id, edges, screen_size, serial, r.configures@, r.started));
                }
                return r;
            },
        };
        proof {
            assert(loc_valid(s2, l1));
            assert forall|l: WindowLoc| #[trigger] is_first_match(s0, key, l) implies l == l1 by {
                lemma_first_match_unique(s2, key, l, l1);
            }
            assert(loc_valid(s0, l1));
        }
        let w = self.window_at_ref(l1);
        let sid = w.surface_id;
        let geometry = w.geometry;
        self.resize_state = Some(ResizeState { surface_id: sid, edges, start_geometry: geometry });
        self.drag_target = None;
        proof {
            assert(window_at(s2, l1).surface_id == window_at(s0, l1).surface_id);
            assert(focus_ok(s0, sid));
            assert(focus_ok(*self, sid));
        }
        self.focus_window(sid);
        let r = InteractionStart { configures, started: true };
        proof {
            assert(resize_started(*old(self), s2, *self, toplevel_id, edges, screen_size, serial, r.configures@, r.started));
        }
        r
    }
}


/// A move and a resize never run together: once a drag of an existing
/// window starts, it is the window being dragged and no resize is in progress.
pub proof fn law_drag_ends_resize(old: Wm, new: Wm, sid: u64, screen_size: (u16, u16), serial: u32, c: Seq<ToplevelConfigure>, started: bool, loc: WindowLoc)
    requires
        drag_started(old, new, sid, screen_size, serial, c, started),
        is_first_match(old, WindowKey::Surface(sid), loc),
    ensures
        started,
        new.drag_target == Some(sid),
        new.resize_state is None,
{
    let s2 = choose|s2: Wm| {
        &&& #[trigger] same_windows(old, s2)
        &&& match window_at(old, loc).toplevel_id {
            Some(t) => left_states(old, s2, t, screen_size, serial, c),
            None => s2 == old && c.len() == 0,
        }
        &&& raised(Wm { drag_target: Some(sid), resize_state: None, ..s2 }, new, focus_target(all_links(old), old.popups@, sid))
    };
}

/// A move and a resize never run together: once a resize of an existing
/// window starts, it is the window being resized, from its window
/// geometry, and no drag is in progress.
pub proof fn law_resize_ends_drag(old: Wm, s2: Wm, new: Wm, tid: u64, edges: u32, screen_size: (u16, u16), serial: u32, c: Seq<ToplevelConfigure>, started: bool, l: WindowLoc)
    requires
        resize_started(old, s2, new, tid, edges, screen_size, serial, c, started),
        is_first_match(old, WindowKey::Toplevel(tid), l),
    ensures
        started,
        new.resize_state == Some(ResizeState { surface_id: window_at(s2, l).surface_id, edges: edges, start_geometry: window_at(s2, l).geometry }),
        new.drag_target is None,
{
}

/// The window that takes focus when a window is minimized is another
/// window, and one that is not minimized.
pub proof fn law_refocus_is_other_window(wm: Wm, sid: u64)
    requires
        wm.wf(),
        wm.outputs@.len() > 0,
    ensures
        refocus_candidate(wm, sid) matches Some(c) ==> c != sid && exists|i: int|
            0 <= i < ws_windows(first_output(wm), first_output(wm).active_workspace as int).len()
            && #[trigger] ws_windows(first_output(wm), first_output(wm).active_workspace as int)[i].surface_id == c
            && !ws_windows(first_output(wm), first_output(wm).active_workspace as int)[i].minimized,
{
    let s = ws_windows(first_output(wm), first_output(wm).active_workspace as int);
    lemma_last_other_found(s, sid);
}

/// The window `last_other_unminimized` finds is in `s`, not minimized, and
/// of another surface.
proof fn lemma_last_other_found(s: Seq<WindowState>, sid: u64)
    ensures
        last_other_unminimized(s, sid) matches Some(c) ==> c != sid && exists|i: int|
            0 <= i < s.len() && #[trigger] s[i].surface_id == c && !s[i].minimized,
    decreases s.len(),
{
    if s.len() > 0 {
        lemma_last_other_found(s.drop_last(), sid);
        if !s.last().minimized && s.last().surface_id != sid {
            assert(s[s.len() - 1].surface_id == s.last().surface_id);
        } else if let Some(c) = last_other_unminimized(s.drop_last(), sid) {
            let i = choose|i: int| 0 <= i < s.drop_last().len() && #[trigger] s.drop_last()[i].surface_id == c && !s.drop_last()[i].minimized;
            assert(s[i] == s.drop_last()[i]);
        }
    }
}

} // verus!

//! Configure bookkeeping: the maximized and fullscreen requests, interactive
//! moves and resizes, and applying what a client acknowledged.
//!
//! Window positions are kept by the embedding server; where a change moves a
//! window, the operations here say how, as a list of position steps.

use vstd::prelude::*;
use crate::geometry::Rect;
use crate::wm::floating::{Wm, first_output};
use crate::wm::locate::{
    WindowKey, WindowLoc, is_first_match, lemma_first_match_unique, lemma_replaced_same_windows,
    lemma_replaced_wf, loc_valid, no_match, replaced, same_windows, window_at,
};
use crate::wm::transient::{all_links, lemma_replaced_links};
use crate::wm::types::{ConfigureState, ResizeState, WindowState};

verus! {

/// What a toplevel configure event carries: the size (0 lets the client
/// choose) and the states besides "activated", which is always set.
#[derive(Clone, Copy, Debug, PartialEq, Eq)]
pub struct ToplevelConfigure {
    /// The toplevel the configure is for.
    pub toplevel_id: u64,
    pub w: i32,
    pub h: i32,
    pub maximized: bool,
    pub fullscreen: bool,
    pub resizing: bool,
}

/// Position of the first configure of `s` with the given serial; -1 when none.
pub open spec fn config_index(s: Seq<ConfigureState>, serial: u32) -> int
    decreases s.len(),
{
    if s.len() == 0 {
        -1
    } else {
        let r = config_index(s.drop_last(), serial);
        if r >= 0 {
            r
        } else if s.last().serial == serial {
            s.len() - 1
        } else {
            -1
        }
    }
}

/// The configure list after recording: the configure with this serial is
/// updated by `upd`, or `fresh` is appended when there is none.
pub open spec fn configs_after(
    s: Seq<ConfigureState>,
    serial: u32,
    upd: spec_fn(ConfigureState) -> ConfigureState,
    fresh: ConfigureState,
) -> Seq<ConfigureState> {
    let i = config_index(s, serial);
    if i >= 0 {
        s.update(i, upd(s[i]))
    } else {
        s.push(fresh)
    }
}

/// The configure recorded (see `configs_after`).
pub open spec fn config_recorded(
    s: Seq<ConfigureState>,
    serial: u32,
    upd: spec_fn(ConfigureState) -> ConfigureState,
    fresh: ConfigureState,
) -> ConfigureState {
    let i = config_index(s, serial);
    if i >= 0 {
        upd(s[i])
    } else {
        fresh
    }
}

/// `loc` is the window that a request for toplevel `tid` acts on: the first
/// window showing that toplevel names a surface, and the first window of
/// that surface is taken.
pub open spec fn toplevel_target(wm: Wm, tid: u64, loc: WindowLoc) -> bool {
    exists|l1: WindowLoc|
        #[trigger] is_first_match(wm, WindowKey::Toplevel(tid), l1) && is_first_match(
            wm,
            WindowKey::Surface(window_at(wm, l1).surface_id),
            loc,
        )
}

/// The size a maximize request asks for: the usable area, or, when leaving,
/// the saved size (else the current size).
pub open spec fn maximize_size(w: WindowState, maximized: bool, usable: Rect) -> (i32, i32) {
    if maximized {
        (usable.w, usable.h)
    } else {
        match w.saved_size {
            Some(s) => s,
            None => (w.w, w.h),
        }
    }
}

/// The size a fullscreen request asks for: the screen, or, when leaving,
/// the saved size (else the current size).
pub open spec fn fullscreen_size(w: WindowState, fullscreen: bool, screen_size: (u16, u16)) -> (i32, i32) {
    if fullscreen {
        (screen_size.0 as i32, screen_size.1 as i32)
    } else {
        match w.saved_size {
            Some(s) => s,
            None => (w.w, w.h),
        }
    }
}

/// The area a maximized window takes: the first output's usable area, or the
/// whole screen without outputs.
pub open spec fn maximize_area(wm: Wm, screen_size: (u16, u16)) -> Rect {
    if wm.outputs@.len() > 0 {
        first_output(wm).usable_area
    } else {
        Rect { x: 0, y: 0, w: screen_size.0 as i32, h: screen_size.1 as i32 }
    }
}

/// Update of an existing configure by a maximize request.
pub open spec fn maximize_upd(maximized: bool, size: (i32, i32)) -> spec_fn(ConfigureState) -> ConfigureState {
    |c: ConfigureState| ConfigureState { maximized: maximized, w: size.0, h: size.1, ..c }
}

/// Update of an existing configure by a fullscreen request.
pub open spec fn fullscreen_upd(fullscreen: bool, size: (i32, i32)) -> spec_fn(ConfigureState) -> ConfigureState {
    |c: ConfigureState| ConfigureState { fullscreen: fullscreen, w: size.0, h: size.1, ..c }
}

/// `new` is `old` with the window at `loc` changed, and `new_w` is what it became.
pub open spec fn changed_at(old: Wm, new: Wm, loc: WindowLoc) -> bool {
    replaced(old, new, loc, window_at(new, loc))
}

/// The maximize request's effect on window `w`, giving `w2` and the configure.
pub open spec fn maximize_effect(w: WindowState, w2: WindowState, maximized: bool, usable: Rect, serial: u32, r: Option<ToplevelConfigure>) -> bool {
    let size = maximize_size(w, maximized, usable);
    let fresh = ConfigureState {
        serial: serial,
        maximized: maximized,
        fullscreen: w.fullscreen,
        resizing: false,
        edges: 0,
        w: size.0,
        h: size.1,
    };
    let c = config_recorded(w.sent_configures@, serial, maximize_upd(maximized, size), fresh);
    if w.maximized == maximized {
        w2 == w && r is None
    } else {
        &&& w2 == (WindowState { sent_configures: w2.sent_configures, ..w })
        &&& w2.sent_configures@ == configs_after(w.sent_configures@, serial, maximize_upd(maximized, size), fresh)
        &&& r == (if w.toplevel_id is Some {
            Some(ToplevelConfigure { toplevel_id: w.toplevel_id->Some_0, w: c.w, h: c.h, maximized: c.maximized, fullscreen: c.fullscreen, resizing: false })
        } else {
            None
        })
    }
}

/// The fullscreen request's effect on window `w`, giving `w2` and the configure.
pub open spec fn fullscreen_effect(w: WindowState, w2: WindowState, fullscreen: bool, screen_size: (u16, u16), serial: u32, r: Option<ToplevelConfigure>) -> bool {
    let size = fullscreen_size(w, fullscreen, screen_size);
    let fresh = ConfigureState {
        serial: serial,
        maximized: w.maximized,
        fullscreen: fullscreen,
        resizing: false,
        edges: 0,
        w: size.0,
        h: size.1,
    };
    let c = config_recorded(w.sent_configures@, serial, fullscreen_upd(fullscreen, size), fresh);
    if w.fullscreen == fullscreen {
        w2 == w && r is None
    } else {
        &&& w2 == (WindowState { sent_configures: w2.sent_configures, ..w })
        &&& w2.sent_configures@ == configs_after(w.sent_configures@, serial, fullscreen_upd(fullscreen, size), fresh)
        &&& r == (if w.toplevel_id is Some {
            Some(ToplevelConfigure { toplevel_id: w.toplevel_id->Some_0, w: c.w, h: c.h, maximized: w.maximized, fullscreen: c.fullscreen, resizing: false })
        } else {
            None
        })
    }
}

/// `new` is `old` after a maximize request for toplevel `tid` that answered
/// `r`: only the window the request acts on changed (see `maximize_effect`).
pub open spec fn maximized_set(old: Wm, new: Wm, tid: u64, maximized: bool, screen_size: (u16, u16), serial: u32, r: Option<ToplevelConfigure>) -> bool {
    &&& same_windows(old, new)
    &&& all_links(new) == all_links(old)
    &&& no_match(old, WindowKey::Toplevel(tid)) ==> new == old && r is None
    &&& forall|loc: WindowLoc| #[trigger] toplevel_target(old, tid, loc) ==> {
        &&& changed_at(old, new, loc)
        &&& maximize_effect(window_at(old, loc), window_at(new, loc), maximized, maximize_area(old, screen_size), serial, r)
    }
}

/// `new` is `old` after a fullscreen request for toplevel `tid` that
/// answered `r`: only the window the request acts on changed (see `fullscreen_effect`).
pub open spec fn fullscreen_set(old: Wm, new: Wm, tid: u64, fullscreen: bool, screen_size: (u16, u16), serial: u32, r: Option<ToplevelConfigure>) -> bool {
    &&& same_windows(old, new)
    &&& all_links(new) == all_links(old)
    &&& no_match(old, WindowKey::Toplevel(tid)) ==> new == old && r is None
    &&& forall|loc: WindowLoc| #[trigger] toplevel_target(old, tid, loc) ==> {
        &&& changed_at(old, new, loc)
        &&& fullscreen_effect(window_at(old, loc), window_at(new, loc), fullscreen, screen_size, serial, r)
    }
}

/// A change of a window's position that the server carries out, in order.
#[derive(Clone, Copy, Debug, PartialEq, Eq)]
pub enum PositionStep {
    /// Remember the current position, to restore later.
    SaveCurrent,
    /// Go back to the remembered position.
    RestoreSaved,
    /// Move to `(x, y)`.
    MoveTo { x: i32, y: i32 },
    /// Move so that the window geometry's origin lands on `(area_x, area_y)`:
    /// the position becomes the area origin minus the geometry offset.
    PlaceInArea { area_x: i32, area_y: i32, geom_x: i32, geom_y: i32 },
    /// Keep the right edge in place while the width goes from `old_w` to
    /// `new_w`: the position moves by the difference.
    KeepRightEdge { geom_x: i32, old_w: i32, new_w: i32 },
    /// Keep the bottom edge in place while the height goes from `old_h` to `new_h`.
    KeepBottomEdge { geom_y: i32, old_h: i32, new_h: i32 },
}

/// The configure that an acknowledged serial picks out of window `w`'s list.
pub open spec fn pending_config(w: WindowState) -> Option<ConfigureState> {
    match w.acknowledged_serial {
        Some(s) => {
            let i = config_index(w.sent_configures@, s);
            if i >= 0 {
                Some(w.sent_configures@[i])
            } else {
                None
            }
        },
        None => None,
    }
}

/// Entering fullscreen negates the geometry offset, which must not overflow.
pub open spec fn apply_ok(w: WindowState) -> bool {
    match pending_config(w) {
        Some(c) => (c.fullscreen && !w.fullscreen) ==> (w.geometry.x != i32::MIN && w.geometry.y != i32::MIN),
        None => true,
    }
}

/// Fullscreen part of applying configure `c` to `w`.
pub open spec fn apply_fullscreen(w: WindowState, c: ConfigureState) -> (WindowState, Seq<PositionStep>) {
    if c.fullscreen && !w.fullscreen {
        (
            WindowState { saved_size: Some((w.w, w.h)), w: c.w, h: c.h, fullscreen: true, maximized: false, ..w },
            seq![PositionStep::SaveCurrent, PositionStep::MoveTo { x: (-w.geometry.x) as i32, y: (-w.geometry.y) as i32 }],
        )
    } else if !c.fullscreen && w.fullscreen {
        match w.saved_size {
            Some(s) => (WindowState { saved_size: None, w: s.0, h: s.1, fullscreen: false, ..w }, seq![PositionStep::RestoreSaved]),
            None => (WindowState { fullscreen: false, ..w }, Seq::empty()),
        }
    } else {
        (w, Seq::empty())
    }
}

/// Maximized part of applying configure `c` to `w`, with usable origin `(ux, uy)`.
pub open spec fn apply_maximized(w: WindowState, c: ConfigureState, ux: i32, uy: i32) -> (WindowState, Seq<PositionStep>) {
    let place = PositionStep::PlaceInArea { area_x: ux, area_y: uy, geom_x: w.geometry.x, geom_y: w.geometry.y };
    if w.fullscreen {
        (w, Seq::empty())
    } else if c.maximized && !w.maximized {
        (
            WindowState { saved_size: Some((w.w, w.h)), w: c.w, h: c.h, maximized: true, ..w },
            seq![PositionStep::SaveCurrent, place],
        )
    } else if !c.maximized && w.maximized {
        match w.saved_size {
            Some(s) => (WindowState { saved_size: None, w: s.0, h: s.1, maximized: false, ..w }, seq![PositionStep::RestoreSaved]),
            None => (WindowState { maximized: false, ..w }, Seq::empty()),
        }
    } else if w.maximized {
        (WindowState { w: c.w, h: c.h, ..w }, seq![place])
    } else {
        (w, Seq::empty())
    }
}

/// Resizing part of applying configure `c`: the client drew `aw` by `ah`.
pub open spec fn apply_resizing(w: WindowState, c: ConfigureState, aw: i32, ah: i32) -> (WindowState, Seq<PositionStep>) {
    if c.resizing && !w.maximized && !w.fullscreen {
        let sx: Seq<PositionStep> = if c.edges & 4 != 0 {
            seq![PositionStep::KeepRightEdge { geom_x: w.geometry.x, old_w: w.w, new_w: aw }]
        } else {
            Seq::empty()
        };
        let sy: Seq<PositionStep> = if c.edges & 1 != 0 {
            seq![PositionStep::KeepBottomEdge { geom_y: w.geometry.y, old_h: w.h, new_h: ah }]
        } else {
            Seq::empty()
        };
        (WindowState { w: aw, h: ah, ..w }, sx + sy)
    } else {
        (w, Seq::empty())
    }
}

/// Applying configure `c` to `w`: fullscreen, then maximized, then resizing.
pub open spec fn apply_config(w: WindowState, c: ConfigureState, ux: i32, uy: i32, aw: i32, ah: i32) -> (WindowState, Seq<PositionStep>) {
    let (w1, s1) = apply_fullscreen(w, c);
    let (w2, s2) = apply_maximized(w1, c, ux, uy);
    let (w3, s3) = apply_resizing(w2, c, aw, ah);
    (w3, s1 + s2 + s3)
}

/// The usable-area origin of the first output, or (0, 0) without outputs.
pub open spec fn usable_origin(wm: Wm) -> (i32, i32) {
    if wm.outputs@.len() > 0 {
        (first_output(wm).usable_area.x, first_output(wm).usable_area.y)
    } else {
        (0, 0)
    }
}

/// What committing does to window `w`: the acknowledged serial is used up;
/// when it names a sent configure, that configure and the ones before it
/// are dropped and it is applied.
pub open spec fn commit_effect(w: WindowState, w2: WindowState, origin: (i32, i32), aw: i32, ah: i32, r: Seq<PositionStep>) -> bool {
    match pending_config(w) {
        None => {
            &&& w2 == (WindowState { acknowledged_serial: None, ..w })
            &&& r.len() == 0
        },
        Some(c) => {
            let i = config_index(w.sent_configures@, w.acknowledged_serial->Some_0);
            let (w3, steps) = apply_config(w, c, origin.0, origin.1, aw, ah);
            &&& w2 == (WindowState { acknowledged_serial: None, sent_configures: w2.sent_configures, ..w3 })
            &&& w2.sent_configures@ == w.sent_configures@.subrange(i + 1, w.sent_configures@.len() as int)
            &&& r == steps
        },
    }
}

/// The first configure with `serial` is where `config_index` says.
proof fn lemma_config_index(s: Seq<ConfigureState>, serial: u32)
    ensures
        -1 <= config_index(s, serial) < s.len(),
        config_index(s, serial) >= 0 ==> s[config_index(s, serial)].serial == serial
            && forall|j: int| 0 <= j < config_index(s, serial) ==> (#[trigger] s[j]).serial != serial,
        config_index(s, serial) < 0 ==> forall|j: int| 0 <= j < s.len() ==> (#[trigger] s[j]).serial != serial,
    decreases s.len(),
{
    if s.len() > 0 {
        lemma_config_index(s.drop_last(), serial);
        assert(forall|j: int| 0 <= j < s.len() - 1 ==> s.drop_last()[j] == s[j]);
    }
}

/// Position of the first configure of `v` with `serial`.
fn find_config(v: &Vec<ConfigureState>, serial: u32) -> (r: Option<usize>)
    ensures
        match r {
            Some(i) => config_index(v@, serial) == i,
            None => config_index(v@, serial) == -1,
        },
{
    proof {
        lemma_config_index(v@, serial);
    }
    let mut i: usize = 0;
    while i < v.len()
        invariant
            i <= v@.len(),
            forall|j: int| 0 <= j < i ==> (#[trigger] v@[j]).serial != serial,
            -1 <= config_index(v@, serial) < v@.len(),
            config_index(v@, serial) >= 0 ==> v@[config_index(v@, serial)].serial == serial
                && forall|j: int| 0 <= j < config_index(v@, serial) ==> (#[trigger] v@[j]).serial != serial,
            config_index(v@, serial) < 0 ==> forall|j: int| 0 <= j < v@.len() ==> (#[trigger] v@[j]).serial != serial,
        decreases v@.len() - i,
    {
        if v[i].serial == serial {
            return Some(i);
        }
        i = i + 1;
    }
    None
}

/// Applies a maximize request to one window.
fn maximize_window(window: &mut WindowState, maximized: bool, usable: Rect, serial: u32) -> (r: Option<ToplevelConfigure>)
    ensures
        maximize_effect(*old(window), *final(window), maximized, usable, serial, r),
{
    if window.maximized == maximized {
        return None;
    }
    proof {
        lemma_config_index(window.sent_configures@, serial);
    }
    let (target_w, target_h) = if maximized {
        (usable.w, usable.h)
    } else {
        match window.saved_size {
            Some(s) => s,
            None => (window.w, window.h),
        }
    };
    let config = match find_config(&window.sent_configures, serial) {
        Some(i) => {
            let mut c = window.sent_configures[i];
            c.maximized = maximized;
            c.w = target_w;
            c.h = target_h;
            window.sent_configures.set(i, c);
            c
        },
        None => {
            let c = ConfigureState {
                serial,
                maximized,
                fullscreen: window.fullscreen,
                resizing: false,
                edges: 0,
                w: target_w,
                h: target_h,
            };
            window.sent_configures.push(c);
            c
        },
    };
    match window.toplevel_id {
        Some(t) => Some(ToplevelConfigure { toplevel_id: t, w: config.w, h: config.h, maximized: config.maximized, fullscreen: config.fullscreen, resizing: false }),
        None => None,
    }
}

/// Applies a fullscreen request to one window.
fn fullscreen_window(window: &mut WindowState, fullscreen: bool, screen_size: (u16, u16), serial: u32) -> (r: Option<ToplevelConfigure>)
    ensures
        fullscreen_effect(*old(window), *final(window), fullscreen, screen_size, serial, r),
{
    if window.fullscreen == fullscreen {
        return None;
    }
    proof {
        lemma_config_index(window.sent_configures@, serial);
    }
    let (target_w, target_h) = if fullscreen {
        (screen_size.0 as i32, screen_size.1 as i32)
    } else {
        match window.saved_size {
            Some(s) => s,
            None => (window.w, window.h),
        }
    };
    let config = match find_config(&window.sent_configures, serial) {
        Some(i) => {
            let mut c = window.sent_configures[i];
            c.fullscreen = fullscreen;
            c.w = target_w;
            c.h = target_h;
            window.sent_configures.set(i, c);
            c
        },
        None => {
            let c = ConfigureState {
                serial,
                maximized: window.maximized,
                fullscreen,
                resizing: false,
                edges: 0,
                w: target_w,
                h: target_h,
            };
            window.sent_configures.push(c);
            c
        },
    };
    match window.toplevel_id {
        Some(t) => Some(ToplevelConfigure { toplevel_id: t, w: config.w, h: config.h, maximized: window.maximized, fullscreen: config.fullscreen, resizing: false }),
        None => None,
    }
}

/// Applies the fullscreen part of configure `c` to `window`, appending position steps.
fn apply_fullscreen_exec(window: &mut WindowState, c: ConfigureState, steps: &mut Vec<PositionStep>)
    requires
        (c.fullscreen && !old(window).fullscreen) ==> (old(window).geometry.x != i32::MIN && old(window).geometry.y != i32::MIN),
    ensures
        *final(window) == apply_fullscreen(*old(window), c).0,
        final(steps)@ == old(steps)@ + apply_fullscreen(*old(window), c).1,
{
    let ghost s0 = steps@;
    if c.fullscreen && !window.fullscreen {
        window.saved_size = Some((window.w, window.h));
        steps.push(PositionStep::SaveCurrent);
        steps.push(PositionStep::MoveTo { x: -window.geometry.x, y: -window.geometry.y });
        window.w = c.w;
        window.h = c.h;
        window.fullscreen = true;
        window.maximized = false;
    } else if !c.fullscreen && window.fullscreen {
        if let Some((w, h)) = window.saved_size {
            window.saved_size = None;
            window.w = w;
            window.h = h;
            steps.push(PositionStep::RestoreSaved);
        }
        window.fullscreen = false;
    }
    proof {
        assert(steps@ =~= s0 + apply_fullscreen(*old(window), c).1);
    }
}

/// Applies the maximized part of configure `c` to `window`, appending position steps.
fn apply_maximized_exec(window: &mut WindowState, c: ConfigureState, ux: i32, uy: i32, steps: &mut Vec<PositionStep>)
    ensures
        *final(window) == apply_maximized(*old(window), c, ux, uy).0,
        final(steps)@ == old(steps)@ + apply_maximized(*old(window), c, ux, uy).1,
{
    let ghost s0 = steps@;
    if !window.fullscreen {
        let place = PositionStep::PlaceInArea { area_x: ux, area_y: uy, geom_x: window.geometry.x, geom_y: window.geometry.y };
        if c.maximized && !window.maximized {
            window.saved_size = Some((window.w, window.h));
            steps.push(PositionStep::SaveCurrent);
            steps.push(place);
            window.w = c.w;
            window.h = c.h;
            window.maximized = true;
        } else if !c.maximized && window.maximized {
            if let Some((w, h)) = window.saved_size {
                window.saved_size = None;
                window.w = w;
                window.h = h;
                steps.push(PositionStep::RestoreSaved);
            }
            window.maximized = false;
        } else if window.maximized {
            steps.push(place);
            window.w = c.w;
            window.h = c.h;
        }
    }
    proof {
        assert(steps@ =~= s0 + apply_maximized(*old(window), c, ux, uy).1);
    }
}

/// Applies the resizing part of configure `c` to `window`, appending position steps.
fn apply_resizing_exec(window: &mut WindowState, c: ConfigureState, aw: i32, ah: i32, steps: &mut Vec<PositionStep>)
    ensures
        *final(window) == apply_resizing(*old(window), c, aw, ah).0,
        final(steps)@ == old(steps)@ + apply_resizing(*old(window), c, aw, ah).1,
{
    let ghost s0 = steps@;
    if c.resizing && !window.maximized && !window.fullscreen {
        if c.edges & 4 != 0 {
            steps.push(PositionStep::KeepRightEdge { geom_x: window.geometry.x, old_w: window.w, new_w: aw });
        }
        if c.edges & 1 != 0 {
            steps.push(PositionStep::KeepBottomEdge { geom_y: window.geometry.y, old_h: window.h, new_h: ah });
        }
        window.w = aw;
        window.h = ah;
    }
    proof {
        assert(steps@ =~= s0 + apply_resizing(*old(window), c, aw, ah).1);
    }
}

/// Uses up the acknowledged serial of `window` and applies the configure it names.
fn commit_window(window: &mut WindowState, ux: i32, uy: i32, aw: i32, ah: i32) -> (r: Vec<PositionStep>)
    requires
        apply_ok(*old(window)),
    ensures
        commit_effect(*old(window), *final(window), (ux, uy), aw, ah, r@),
{
    let ack = window.acknowledged_serial;
    window.acknowledged_serial = None;
    let mut steps: Vec<PositionStep> = Vec::new();
    if let Some(serial) = ack {
        proof {
            lemma_config_index(window.sent_configures@, serial);
        }
        let n = window.sent_configures.len();
        if let Some(idx) = find_config(&window.sent_configures, serial) {
            let config = window.sent_configures[idx];
            let rest = window.sent_configures.split_off(idx + 1);
            window.sent_configures = rest;
            let ghost wa = *window;
            apply_fullscreen_exec(window, config, &mut steps);
            apply_maximized_exec(window, config, ux, uy, &mut steps);
            apply_resizing_exec(window, config, aw, ah, &mut steps);
            proof {
                let (x1, t1) = apply_fullscreen(wa, config);
                let (x2, t2) = apply_maximized(x1, config, ux, uy);
                let (x3, t3) = apply_resizing(x2, config, aw, ah);
                assert(steps@ =~= t1 + t2 + t3);
                let (y1, u1) = apply_fullscreen(*old(window), config);
                let (y2, u2) = apply_maximized(y1, config, ux, uy);
                let (y3, u3) = apply_resizing(y2, config, aw, ah);
                assert(u1 == t1);
                assert(u2 == t2);
                assert(u3 == t3);
            }
        }
    }
    steps
}

impl Wm {
    /// The window a request for toplevel `tid` acts on (see `toplevel_target`).
    pub fn locate_toplevel_target(&self, tid: u64) -> (r: Option<WindowLoc>)
        ensures
            match r {
                Some(loc) => toplevel_target(*self, tid, loc),
                None => no_match(*self, WindowKey::Toplevel(tid)),
            },
    {
        match self.locate(WindowKey::Toplevel(tid)) {
            Some(l1) => {
                let sid = self.window_at_ref(l1).surface_id;
                match self.locate(WindowKey::Surface(sid)) {
                    Some(l2) => Some(l2),
                    None => {
                        proof {
                            assert(loc_valid(*self, l1));
                        }
                        None
                    },
                }
            },
            None => None,
        }
    }

    /// Asks the window with toplevel `toplevel_id` to enter or leave the
    /// maximized state, recording the configure under `serial`. Answers the
    /// configure to send, when the state changes and the window has a toplevel.
    pub fn set_maximized(&mut self, toplevel_id: u64, maximized: bool, screen_size: (u16, u16), serial: u32) -> (r: Option<ToplevelConfigure>)
        requires
            old(self).wf(),
        ensures
            final(self).wf(),
            maximized_set(*old(self), *final(self), toplevel_id, maximized, screen_size, serial, r),
    {
        let usable = if self.outputs.len() > 0 {
            self.outputs[0].usable_area
        } else {
            Rect { x: 0, y: 0, w: screen_size.0 as i32, h: screen_size.1 as i32 }
        };
        match self.locate_toplevel_target(toplevel_id) {
            Some(loc) => {
                let ghost s0 = *self;
                let window = self.window_at_mut(loc);
                let r = maximize_window(window, maximized, usable, serial);
                proof {
                    lemma_replaced_wf(s0, *self, loc, window_at(*self, loc));
                    lemma_replaced_same_windows(s0, *self, loc, window_at(*self, loc));
                    lemma_replaced_links(s0, *self, loc, window_at(*self, loc));
                    lemma_toplevel_target_unique(s0, toplevel_id, loc);
                }
                r
            },
            None => None,
        }
    }

    /// Asks the window with toplevel `toplevel_id` to enter or leave the
    /// fullscreen state, recording the configure under `serial`. Answers the
    /// configure to send, when the state changes and the window has a toplevel.
    pub fn set_fullscreen(&mut self, toplevel_id: u64, fullscreen: bool, screen_size: (u16, u16), serial: u32) -> (r: Option<ToplevelConfigure>)
        requires
            old(self).wf(),
        ensures
            final(self).wf(),
            fullscreen_set(*old(self), *final(self), toplevel_id, fullscreen, screen_size, serial, r),
    {
        match self.locate_toplevel_target(toplevel_id) {
            Some(loc) => {
                let ghost s0 = *self;
                let window = self.window_at_mut(loc);
                let r = fullscreen_window(window, fullscreen, screen_size, serial);
                proof {
                    lemma_replaced_wf(s0, *self, loc, window_at(*self, loc));
                    lemma_replaced_same_windows(s0, *self, loc, window_at(*self, loc));
                    lemma_replaced_links(s0, *self, loc, window_at(*self, loc));
                    lemma_toplevel_target_unique(s0, toplevel_id, loc);
                }
                r
            },
            None => None,
        }
    }

    /// Applies, when the window of surface `surface_id` commits at size
    /// `actual_w` by `actual_h`, the configure its client acknowledged (see
    /// `commit_effect`); answers the position steps for the server to carry out.
    pub fn apply_committed_configure(&mut self, surface_id: u64, actual_w: i32, actual_h: i32) -> (r: Vec<PositionStep>)
        requires
            old(self).wf(),
            forall|loc: WindowLoc| #[trigger] is_first_match(*old(self), WindowKey::Surface(surface_id), loc) ==> apply_ok(window_at(*old(self), loc)),
        ensures
            final(self).wf(),
            no_match(*old(self), WindowKey::Surface(surface_id)) ==> *final(self) == *old(self) && r@.len() == 0,
            forall|loc: WindowLoc| #[trigger] is_first_match(*old(self), WindowKey::Surface(surface_id), loc) ==> {
                &&& changed_at(*old(self), *final(self), loc)
                &&& commit_effect(window_at(*old(self), loc), window_at(*final(self), loc), usable_origin(*old(self)), actual_w, actual_h, r@)
            },
    {
        let (ux, uy) = if self.outputs.len() > 0 {
            (self.outputs[0].usable_area.x, self.outputs[0].usable_area.y)
        } else {
            (0, 0)
        };
        let loc = match self.locate(WindowKey::Surface(surface_id)) {
            Some(l) => l,
            None => return Vec::new(),
        };
        let ghost s0 = *self;
        proof {
            assert(loc_valid(s0, loc));
        }
        let window = self.window_at_mut(loc);
        let steps = commit_window(window, ux, uy, actual_w, actual_h);
        proof {
            lemma_replaced_wf(s0, *self, loc, window_at(*self, loc));
            assert forall|l: WindowLoc| #[trigger] is_first_match(s0, WindowKey::Surface(surface_id), l) implies l == loc by {
                lemma_first_match_unique(s0, WindowKey::Surface(surface_id), l, loc);
            }
            assert(loc_valid(s0, loc));
        }
        steps
    }

    /// Records the configure for the size an interactive resize asks for
    /// (`w` by `h`, computed by the server from the pointer) under `serial`.
    /// Answers the configure to send when the resized window has a toplevel.
    pub fn record_resize_configure(&mut self, serial: u32, w: i32, h: i32) -> (r: Option<ToplevelConfigure>)
        requires
            old(self).wf(),
        ensures
            final(self).wf(),
            old(self).resize_state is None ==> *final(self) == *old(self) && r is None,
            old(self).resize_state matches Some(rs) ==> {
                &&& no_match(*old(self), WindowKey::Surface(rs.surface_id)) ==> *final(self) == *old(self) && r is None
                &&& forall|loc: WindowLoc| #[trigger] is_first_match(*old(self), WindowKey::Surface(rs.surface_id), loc) ==> {
                    let win = window_at(*old(self), loc);
                    let win2 = window_at(*final(self), loc);
                    &&& changed_at(*old(self), *final(self), loc)
                    &&& win2 == (WindowState { sent_configures: win2.sent_configures, ..win })
                    &&& win2.sent_configures@ == win.sent_configures@.push(ConfigureState {
                        serial: serial,
                        maximized: win.maximized,
                        fullscreen: win.fullscreen,
                        resizing: true,
                        edges: rs.edges,
                        w: w,
                        h: h,
                    })
                    &&& r == (if win.toplevel_id is Some {
                        Some(ToplevelConfigure { toplevel_id: win.toplevel_id->Some_0, w: w, h: h, maximized: win.maximized, fullscreen: win.fullscreen, resizing: true })
                    } else {
                        None
                    })
                }
            },
    {
        let rs = match self.resize_state {
            Some(rs) => rs,
            None => return None,
        };
        let loc = match self.locate(WindowKey::Surface(rs.surface_id)) {
            Some(l) => l,
            None => return None,
        };
        let ghost s0 = *self;
        let window = self.window_at_mut(loc);
        window.sent_configures.push(ConfigureState {
            serial,
            maximized: window.maximized,
            fullscreen: window.fullscreen,
            resizing: true,
            edges: rs.edges,
            w,
            h,
        });
        let r = match window.toplevel_id {
            Some(t) => Some(ToplevelConfigure { toplevel_id: t, w, h, maximized: window.maximized, fullscreen: window.fullscreen, resizing: true }),
            None => None,
        };
        proof {
            lemma_replaced_wf(s0, *self, loc, window_at(*self, loc));
            assert forall|l: WindowLoc| #[trigger] is_first_match(s0, WindowKey::Surface(rs.surface_id), l) implies l == loc by {
                lemma_first_match_unique(s0, WindowKey::Surface(rs.surface_id), l, loc);
            }
            assert(loc_valid(s0, loc));
        }
        r
    }

    /// Ends the resize in progress: records a final configure (not resizing,
    /// at the window's size) under `serial`. Answers the configure to send
    /// (size 0 lets the client choose) when the window has a toplevel.
    pub fn end_resize(&mut self, serial: u32) -> (r: Option<ToplevelConfigure>)
        requires
            old(self).wf(),
        ensures
            final(self).wf(),
            final(self).resize_state is None,
            old(self).resize_state is None ==> *final(self) == *old(self) && r is None,
            old(self).resize_state matches Some(rs) ==> {
                &&& no_match(*old(self), WindowKey::Surface(rs.surface_id)) ==> *final(self) == (Wm { resize_state: None, ..*old(self) }) && r is None
                &&& forall|loc: WindowLoc| #[trigger] is_first_match(*old(self), WindowKey::Surface(rs.surface_id), loc) ==> {
                    let win = window_at(*old(self), loc);
                    let win2 = window_at(*final(self), loc);
                    &&& changed_at(Wm { resize_state: None, ..*old(self) }, *final(self), loc)
                    &&& win2 == (WindowState { sent_configures: win2.sent_configures, ..win })
                    &&& win2.sent_configures@ == win.sent_configures@.push(ConfigureState {
                        serial: serial,
                        maximized: win.maximized,
                        fullscreen: win.fullscreen,
                        resizing: false,
                        edges: 0,
                        w: win.w,
                        h: win.h,
                    })
                    &&& r == (if win.toplevel_id is Some {
                        Some(ToplevelConfigure { toplevel_id: win.toplevel_id->Some_0, w: 0, h: 0, maximized: win.maximized, fullscreen: win.fullscreen, resizing: false })
                    } else {
                        None
                    })
                }
            },
    {
        let rs = match self.resize_state {
            Some(rs) => rs,
            None => return None,
        };
        let found = self.locate(WindowKey::Surface(rs.surface_id));
        self.resize_state = None;
        let loc = match found {
            Some(l) => l,
            None => return None,
        };
        let ghost s0 = *self;
        proof {
            assert(s0.outputs == old(self).outputs);
            assert(window_at(s0, loc) == window_at(*old(self), loc));
            assert(loc_valid(*old(self), loc));
        }
        let window = self.window_at_mut(loc);
        window.sent_configures.push(ConfigureState {
            serial,
            maximized: window.maximized,
            fullscreen: window.fullscreen,
            resizing: false,
            edges: 0,
            w: window.w,
            h: window.h,
        });
        let r = match window.toplevel_id {
            Some(t) => Some(ToplevelConfigure { toplevel_id: t, w: 0, h: 0, maximized: window.maximized, fullscreen: window.fullscreen, resizing: false }),
            None => None,
        };
        proof {
            lemma_replaced_wf(s0, *self, loc, window_at(*self, loc));
            assert forall|l: WindowLoc| #[trigger] is_first_match(*old(self), WindowKey::Surface(rs.surface_id), l) implies l == loc by {
                lemma_first_match_unique(*old(self), WindowKey::Surface(rs.surface_id), l, loc);
            }
            assert(loc_valid(s0, loc));
        }
        r
    }

    /// Sets the transient parent (a toplevel handle) of the window with
    /// toplevel `toplevel_id`.
    pub fn set_window_parent(&mut self, toplevel_id: u64, parent_id: Option<u64>)
        requires
            old(self).wf(),
        ensures
            final(self).wf(),
            no_match(*old(self), WindowKey::Toplevel(toplevel_id)) ==> *final(self) == *old(self),
            forall|loc: WindowLoc| #[trigger] toplevel_target(*old(self), toplevel_id, loc) ==> replaced(
                *old(self),
                *final(self),
                loc,
                WindowState { parent_id: parent_id, ..window_at(*old(self), loc) },
            ),
    {
        match self.locate_toplevel_target(toplevel_id) {
            Some(loc) => {
                let ghost s0 = *self;
                let window = self.window_at_mut(loc);
                window.parent_id = parent_id;
                proof {
                    lemma_replaced_wf(s0, *self, loc, window_at(*self, loc));
                    lemma_toplevel_target_unique(s0, toplevel_id, loc);
                }
            },
            None => {},
        }
    }

    /// Sets the window geometry of the window and of the popup of surface
    /// `surface_id` (the first of each).
    pub fn set_window_geometry(&mut self, surface_id: u64, geometry: Rect)
        requires
            old(self).wf(),
        ensures
            final(self).wf(),
            ({
                let mid = Wm { popups: old(self).popups, ..*final(self) };
                &&& no_match(*old(self), WindowKey::Surface(surface_id)) ==> mid == *old(self)
                &&& forall|loc: WindowLoc| #[trigger] is_first_match(*old(self), WindowKey::Surface(surface_id), loc) ==> replaced(
                    *old(self),
                    mid,
                    loc,
                    WindowState { geometry: geometry, ..window_at(*old(self), loc) },
                )
            }),
            forall|i: int| 0 <= i < old(self).popups@.len()
                && old(self).popups@[i].surface_id == surface_id
                && (forall|j: int| 0 <= j < i ==> (#[trigger] old(self).popups@[j]).surface_id != surface_id)
                ==> final(self).popups@ == old(self).popups@.update(i, crate::wm::types::PopupState { geometry: geometry, ..old(self).popups@[i] }),
            (forall|j: int| 0 <= j < old(self).popups@.len() ==> (#[trigger] old(self).popups@[j]).surface_id != surface_id)
                ==> final(self).popups == old(self).popups,
    {
        let ghost s0 = *self;
        match self.locate(WindowKey::Surface(surface_id)) {
            Some(loc) => {
                let window = self.window_at_mut(loc);
                window.geometry = geometry;
                proof {
                    lemma_replaced_wf(s0, *self, loc, window_at(*self, loc));
                    assert forall|l: WindowLoc| #[trigger] is_first_match(s0, WindowKey::Surface(surface_id), l) implies l == loc by {
                        lemma_first_match_unique(s0, WindowKey::Surface(surface_id), l, loc);
                    }
                    assert(loc_valid(s0, loc));
                }
            },
            None => {},
        }
        let ghost s1 = *self;
        if let Some(i) = self.find_popup(surface_id) {
            let mut p = self.popups[i];
            p.geometry = geometry;
            self.popups.set(i, p);
            proof {
                assert forall|k: int| 0 <= k < s0.popups@.len()
                    && s0.popups@[k].surface_id == surface_id
                    && (forall|j: int| 0 <= j < k ==> (#[trigger] s0.popups@[j]).surface_id != surface_id)
                    implies k == i by {
                    if k < i {
                        assert(s0.popups@[k].surface_id != surface_id);
                    }
                    if i < k {
                        assert(s0.popups@[i as int].surface_id != surface_id);
                    }
                }
            }
        }
        proof {
            assert(Wm { popups: s0.popups, ..*self } == s1);
        }
    }
}

/// The window a toplevel request acts on is unique.
pub proof fn lemma_toplevel_target_unique(wm: Wm, tid: u64, loc: WindowLoc)
    requires
        toplevel_target(wm, tid, loc),
    ensures
        forall|l: WindowLoc| #[trigger] toplevel_target(wm, tid, l) ==> l == loc,
        !no_match(wm, WindowKey::Toplevel(tid)),
{
    let l1 = choose|l1: WindowLoc|
        #[trigger] is_first_match(wm, WindowKey::Toplevel(tid), l1) && is_first_match(
            wm,
            WindowKey::Surface(window_at(wm, l1).surface_id),
            loc,
        );
    assert forall|l: WindowLoc| #[trigger] toplevel_target(wm, tid, l) implies l == loc by {
        let m1 = choose|m1: WindowLoc|
            #[trigger] is_first_match(wm, WindowKey::Toplevel(tid), m1) && is_first_match(
                wm,
                WindowKey::Surface(window_at(wm, m1).surface_id),
                l,
            );
        lemma_first_match_unique(wm, WindowKey::Toplevel(tid), l1, m1);
        lemma_first_match_unique(wm, WindowKey::Surface(window_at(wm, l1).surface_id), loc, l);
    }
    assert(loc_valid(wm, l1));
}

/// Recording a configure keeps it findable by its serial: the configure
/// with `serial` after recording is the recorded one.
proof fn lemma_recorded_found(
    s: Seq<ConfigureState>,
    serial: u32,
    upd: spec_fn(ConfigureState) -> ConfigureState,
    fresh: ConfigureState,
)
    requires
        fresh.serial == serial,
        config_index(s, serial) >= 0 ==> upd(s[config_index(s, serial)]).serial == serial,
    ensures
        ({
            let t = configs_after(s, serial, upd, fresh);
            let j = config_index(t, serial);
            &&& j >= 0
            &&& t[j] == config_recorded(s, serial, upd, fresh)
        }),
{
    let t = configs_after(s, serial, upd, fresh);
    lemma_config_index(s, serial);
    lemma_config_index(t, serial);
    let i = config_index(s, serial);
    if i >= 0 {
        assert(t[i].serial == serial);
        assert forall|j: int| 0 <= j < i implies (#[trigger] t[j]).serial != serial by {
            assert(t[j] == s[j]);
        }
    } else {
        assert(t[s.len() as int].serial == serial);
        assert forall|j: int| 0 <= j < s.len() implies (#[trigger] t[j]).serial != serial by {
            assert(t[j] == s[j]);
        }
    }
}

/// A maximize request that the client acknowledges and then commits leaves
/// the window maximized at the size asked for, with its old size saved and
/// the window placed in the usable area. The law needs that no earlier
/// fullscreen configure carries the same serial.
pub proof fn law_maximize_then_commit(
    w: WindowState,
    w2: WindowState,
    usable: Rect,
    serial: u32,
    r: Option<ToplevelConfigure>,
    origin: (i32, i32),
    aw: i32,
    ah: i32,
    w3: WindowState,
    steps: Seq<PositionStep>,
)
    requires
        !w.maximized,
        !w.fullscreen,
        maximize_effect(w, w2, true, usable, serial, r),
        config_index(w.sent_configures@, serial) >= 0 ==> !w.sent_configures@[config_index(w.sent_configures@, serial)].fullscreen,
        commit_effect(WindowState { acknowledged_serial: Some(serial), ..w2 }, w3, origin, aw, ah, steps),
    ensures
        w3.maximized,
        !w3.fullscreen,
        w3.w == usable.w && w3.h == usable.h,
        w3.saved_size == Some((w.w, w.h)),
        w3.acknowledged_serial is None,
        steps == seq![
            PositionStep::SaveCurrent,
            PositionStep::PlaceInArea { area_x: origin.0, area_y: origin.1, geom_x: w.geometry.x, geom_y: w.geometry.y },
        ],
{
    let size = maximize_size(w, true, usable);
    let fresh = ConfigureState { serial: serial, maximized: true, fullscreen: false, resizing: false, edges: 0, w: size.0, h: size.1 };
    lemma_config_index(w.sent_configures@, serial);
    lemma_recorded_found(w.sent_configures@, serial, maximize_upd(true, size), fresh);
    let c = config_recorded(w.sent_configures@, serial, maximize_upd(true, size), fresh);
    let wa = WindowState { acknowledged_serial: Some(serial), ..w2 };
    assert(pending_config(wa) == Some(c));
    let (w1, s1) = apply_fullscreen(wa, c);
    assert(s1 =~= Seq::<PositionStep>::empty());
    let (w4, s2) = apply_maximized(w1, c, origin.0, origin.1);
    let (w5, s3) = apply_resizing(w4, c, aw, ah);
    assert(s3 =~= Seq::<PositionStep>::empty());
    assert(s1 + s2 + s3 =~= s2);
}

/// A fullscreen request that the client acknowledges and then commits
/// leaves the window fullscreen and not maximized, at the size asked for,
/// with its old size saved and the window moved so that its geometry starts
/// at the screen's origin.
pub proof fn law_fullscreen_then_commit(
    w: WindowState,
    w2: WindowState,
    screen_size: (u16, u16),
    serial: u32,
    r: Option<ToplevelConfigure>,
    origin: (i32, i32),
    aw: i32,
    ah: i32,
    w3: WindowState,
    steps: Seq<PositionStep>,
)
    requires
        !w.fullscreen,
        fullscreen_effect(w, w2, true, screen_size, serial, r),
        commit_effect(WindowState { acknowledged_serial: Some(serial), ..w2 }, w3, origin, aw, ah, steps),
    ensures
        w3.fullscreen,
        !w3.maximized,
        w3.w == screen_size.0 as i32 && w3.h == screen_size.1 as i32,
        w3.saved_size == Some((w.w, w.h)),
        w3.acknowledged_serial is None,
        steps == seq![
            PositionStep::SaveCurrent,
            PositionStep::MoveTo { x: (-w.geometry.x) as i32, y: (-w.geometry.y) as i32 },
        ],
{
    let size = fullscreen_size(w, true, screen_size);
    let fresh = ConfigureState { serial: serial, maximized: w.maximized, fullscreen: true, resizing: false, edges: 0, w: size.0, h: size.1 };
    lemma_config_index(w.sent_configures@, serial);
    lemma_recorded_found(w.sent_configures@, serial, fullscreen_upd(true, size), fresh);
    let c = config_recorded(w.sent_configures@, serial, fullscreen_upd(true, size), fresh);
    let wa = WindowState { acknowledged_serial: Some(serial), ..w2 };
    assert(pending_config(wa) == Some(c));
    let (w1, s1) = apply_fullscreen(wa, c);
    let (w4, s2) = apply_maximized(w1, c, origin.0, origin.1);
    assert(s2 =~= Seq::<PositionStep>::empty());
    let (w5, s3) = apply_resizing(w4, c, aw, ah);
    assert(s3 =~= Seq::<PositionStep>::empty());
    assert(s1 + s2 + s3 =~= s1);
}

/// Leaving maximize, acknowledged and then committed, gives the window
/// back the size it had saved, clears the saved size and restores the saved
/// position. The law needs that no earlier fullscreen or resizing configure
/// carries the same serial.
pub proof fn law_unmaximize_then_commit(
    w: WindowState,
    w2: WindowState,
    usable: Rect,
    serial: u32,
    r: Option<ToplevelConfigure>,
    origin: (i32, i32),
    aw: i32,
    ah: i32,
    w3: WindowState,
    steps: Seq<PositionStep>,
)
    requires
        w.maximized,
        !w.fullscreen,
        w.saved_size is Some,
        maximize_effect(w, w2, false, usable, serial, r),
        config_index(w.sent_configures@, serial) >= 0 ==> {
            let e = w.sent_configures@[config_index(w.sent_configures@, serial)];
            !e.fullscreen && !e.resizing
        },
        commit_effect(WindowState { acknowledged_serial: Some(serial), ..w2 }, w3, origin, aw, ah, steps),
    ensures
        !w3.maximized,
        !w3.fullscreen,
        (w3.w, w3.h) == w.saved_size->Some_0,
        w3.saved_size is None,
        w3.acknowledged_serial is None,
        steps == seq![PositionStep::RestoreSaved],
{
    let size = maximize_size(w, false, usable);
    let fresh = ConfigureState { serial: serial, maximized: false, fullscreen: false, resizing: false, edges: 0, w: size.0, h: size.1 };
    lemma_config_index(w.sent_configures@, serial);
    lemma_recorded_found(w.sent_configures@, serial, maximize_upd(false, size), fresh);
    let c = config_recorded(w.sent_configures@, serial, maximize_upd(false, size), fresh);
    let wa = WindowState { acknowledged_serial: Some(serial), ..w2 };
    assert(pending_config(wa) == Some(c));
    let (w1, s1) = apply_fullscreen(wa, c);
    assert(s1 =~= Seq::<PositionStep>::empty());
    let (w4, s2) = apply_maximized(w1, c, origin.0, origin.1);
    let (w5, s3) = apply_resizing(w4, c, aw, ah);
    assert(s3 =~= Seq::<PositionStep>::empty());
    assert(s1 + s2 + s3 =~= s2);
}

/// Maximizing and then leaving maximize, each acknowledged and committed,
/// undoes the maximize: the window is back at its first size, not
/// maximized, with nothing saved, and the last commit restores the position
/// saved by the first. The law needs that the serials of the two requests
/// are new to the window's list of configures.
pub proof fn law_maximize_undone(
    w: WindowState,
    usable: Rect,
    serial1: u32,
    serial2: u32,
    origin: (i32, i32),
    w2: WindowState,
    r1: Option<ToplevelConfigure>,
    aw1: i32,
    ah1: i32,
    w3: WindowState,
    steps1: Seq<PositionStep>,
    usable2: Rect,
    w4: WindowState,
    r2: Option<ToplevelConfigure>,
    origin2: (i32, i32),
    aw2: i32,
    ah2: i32,
    w5: WindowState,
    steps2: Seq<PositionStep>,
)
    requires
        !w.maximized,
        !w.fullscreen,
        config_index(w.sent_configures@, serial1) < 0,
        maximize_effect(w, w2, true, usable, serial1, r1),
        commit_effect(WindowState { acknowledged_serial: Some(serial1), ..w2 }, w3, origin, aw1, ah1, steps1),
        config_index(w3.sent_configures@, serial2) < 0,
        maximize_effect(w3, w4, false, usable2, serial2, r2),
        commit_effect(WindowState { acknowledged_serial: Some(serial2), ..w4 }, w5, origin2, aw2, ah2, steps2),
    ensures
        !w5.maximized,
        !w5.fullscreen,
        w5.w == w.w && w5.h == w.h,
        w5.saved_size is None,
        steps1[0] == PositionStep::SaveCurrent,
        steps2 == seq![PositionStep::RestoreSaved],
{
    law_maximize_then_commit(w, w2, usable, serial1, r1, origin, aw1, ah1, w3, steps1);
    law_unmaximize_then_commit(w3, w4, usable2, serial2, r2, origin2, aw2, ah2, w5, steps2);
}

/// Leaving fullscreen, acknowledged and then committed, gives the window
/// back the size it had saved, clears the saved size and restores the saved
/// position. The law needs that no earlier maximizing or resizing configure
/// carries the same serial.
pub proof fn law_unfullscreen_then_commit(
    w: WindowState,
    w2: WindowState,
    screen_size: (u16, u16),
    serial: u32,
    r: Option<ToplevelConfigure>,
    origin: (i32, i32),
    aw: i32,
    ah: i32,
    w3: WindowState,
    steps: Seq<PositionStep>,
)
    requires
        w.fullscreen,
        !w.maximized,
        w.saved_size is Some,
        fullscreen_effect(w, w2, false, screen_size, serial, r),
        config_index(w.sent_configures@, serial) >= 0 ==> {
            let e = w.sent_configures@[config_index(w.sent_configures@, serial)];
            !e.maximized && !e.resizing
        },
        commit_effect(WindowState { acknowledged_serial: Some(serial), ..w2 }, w3, origin, aw, ah, steps),
    ensures
        !w3.fullscreen,
        !w3.maximized,
        (w3.w, w3.h) == w.saved_size->Some_0,
        w3.saved_size is None,
        w3.acknowledged_serial is None,
        steps == seq![PositionStep::RestoreSaved],
{
    let size = fullscreen_size(w, false, screen_size);
    let fresh = ConfigureState { serial: serial, maximized: w.maximized, fullscreen: false, resizing: false, edges: 0, w: size.0, h: size.1 };
    lemma_config_index(w.sent_configures@, serial);
    lemma_recorded_found(w.sent_configures@, serial, fullscreen_upd(false, size), fresh);
    let c = config_recorded(w.sent_configures@, serial, fullscreen_upd(false, size), fresh);
    let wa = WindowState { acknowledged_serial: Some(serial), ..w2 };
    assert(pending_config(wa) == Some(c));
    let (w1, s1) = apply_fullscreen(wa, c);
    let (w4, s2) = apply_maximized(w1, c, origin.0, origin.1);
    assert(s2 =~= Seq::<PositionStep>::empty());
    let (w5, s3) = apply_resizing(w4, c, aw, ah);
    assert(s3 =~= Seq::<PositionStep>::empty());
    assert(s1 + s2 + s3 =~= s1);
}

/// Entering and then leaving fullscreen, each acknowledged and committed,
/// undoes the fullscreen: the window is back at its first size, neither
/// fullscreen nor maximized, with nothing saved, and the last commit
/// restores the position saved by the first. The law needs a window that
/// was not maximized and serials new to the window's list of configures.
pub proof fn law_fullscreen_undone(
    w: WindowState,
    screen_size: (u16, u16),
    serial1: u32,
    serial2: u32,
    origin: (i32, i32),
    w2: WindowState,
    r1: Option<ToplevelConfigure>,
    aw1: i32,
    ah1: i32,
    w3: WindowState,
    steps1: Seq<PositionStep>,
    screen_size2: (u16, u16),
    w4: WindowState,
    r2: Option<ToplevelConfigure>,
    origin2: (i32, i32),
    aw2: i32,
    ah2: i32,
    w5: WindowState,
    steps2: Seq<PositionStep>,
)
    requires
        !w.fullscreen,
        !w.maximized,
        fullscreen_effect(w, w2, true, screen_size, serial1, r1),
        commit_effect(WindowState { acknowledged_serial: Some(serial1), ..w2 }, w3, origin, aw1, ah1, steps1),
        config_index(w3.sent_configures@, serial2) < 0,
        fullscreen_effect(w3, w4, false, screen_size2, serial2, r2),
        commit_effect(WindowState { acknowledged_serial: Some(serial2), ..w4 }, w5, origin2, aw2, ah2, steps2),
    ensures
        !w5.fullscreen,
        !w5.maximized,
        w5.w == w.w && w5.h == w.h,
        w5.saved_size is None,
        steps1[0] == PositionStep::SaveCurrent,
        steps2 == seq![PositionStep::RestoreSaved],
{
    law_fullscreen_then_commit(w, w2, screen_size, serial1, r1, origin, aw1, ah1, w3, steps1);
    law_unfullscreen_then_commit(w3, w4, screen_size2, serial2, r2, origin2, aw2, ah2, w5, steps2);
}

/// In the manager, leaving fullscreen undoes entering it. The window of
/// surface `sid`, neither fullscreen nor maximized, commits an acknowledged
/// fullscreen configure (`apply_committed_configure` from `s0` to `s1`);
/// later, still at the same place, it commits an acknowledged configure that
/// is neither fullscreen, maximized nor resizing (from `s2` to `s3`). It is
/// then back at its first size, neither fullscreen nor maximized, with
/// nothing saved; the first commit saved the position and moved the window,
/// the second restores the saved position.
pub proof fn law_manager_fullscreen_undone(
    s0: Wm,
    s1: Wm,
    s2: Wm,
    s3: Wm,
    sid: u64,
    loc: WindowLoc,
    aw1: i32,
    ah1: i32,
    r1: Seq<PositionStep>,
    aw2: i32,
    ah2: i32,
    r2: Seq<PositionStep>,
)
    requires
        is_first_match(s0, WindowKey::Surface(sid), loc),
        !window_at(s0, loc).fullscreen,
        !window_at(s0, loc).maximized,
        pending_config(window_at(s0, loc)) matches Some(c) && c.fullscreen,
        forall|l: WindowLoc| #[trigger] is_first_match(s0, WindowKey::Surface(sid), l) ==> {
            &&& changed_at(s0, s1, l)
            &&& commit_effect(window_at(s0, l), window_at(s1, l), usable_origin(s0), aw1, ah1, r1)
        },
        is_first_match(s2, WindowKey::Surface(sid), loc),
        window_at(s2, loc) == (WindowState {
            sent_configures: window_at(s2, loc).sent_configures,
            acknowledged_serial: window_at(s2, loc).acknowledged_serial,
            ..window_at(s1, loc)
        }),
        pending_config(window_at(s2, loc)) matches Some(c) && !c.fullscreen && !c.maximized && !c.resizing,
        forall|l: WindowLoc| #[trigger] is_first_match(s2, WindowKey::Surface(sid), l) ==> {
            &&& changed_at(s2, s3, l)
            &&& commit_effect(window_at(s2, l), window_at(s3, l), usable_origin(s2), aw2, ah2, r2)
        },
    ensures
        window_at(s3, loc).w == window_at(s0, loc).w,
        window_at(s3, loc).h == window_at(s0, loc).h,
        !window_at(s3, loc).fullscreen,
        !window_at(s3, loc).maximized,
        window_at(s3, loc).saved_size is None,
        r1 == seq![
            PositionStep::SaveCurrent,
            PositionStep::MoveTo { x: (-window_at(s0, loc).geometry.x) as i32, y: (-window_at(s0, loc).geometry.y) as i32 },
        ],
        r2 == seq![PositionStep::RestoreSaved],
{
    let w = window_at(s0, loc);
    let c1 = pending_config(w)->Some_0;
    let o1 = usable_origin(s0);
    let (wa, sa) = apply_fullscreen(w, c1);
    let (wb, sb) = apply_maximized(wa, c1, o1.0, o1.1);
    assert(sb =~= Seq::<PositionStep>::empty());
    let (wc, sc) = apply_resizing(wb, c1, aw1, ah1);
    assert(sc =~= Seq::<PositionStep>::empty());
    assert(sa + sb + sc =~= sa);
    let w2 = window_at(s2, loc);
    let c2 = pending_config(w2)->Some_0;
    let o2 = usable_origin(s2);
    let (wd, sd) = apply_fullscreen(w2, c2);
    let (we, se) = apply_maximized(wd, c2, o2.0, o2.1);
    assert(se =~= Seq::<PositionStep>::empty());
    let (wf, sf) = apply_resizing(we, c2, aw2, ah2);
    assert(sf =~= Seq::<PositionStep>::empty());
    assert(sd + se + sf =~= sd);
}

/// During an interactive resize the edge opposite the dragged one stays in
/// place. When a window neither maximized nor fullscreen commits an
/// acknowledged resizing configure (neither maximized nor fullscreen), it
/// takes the size it drew; the server is told to keep the bottom edge
/// exactly when the top edge (edge bit 1) is dragged, and the right edge
/// exactly when the left edge (edge bit 4) is dragged.
pub proof fn law_resize_keeps_opposite_edge(
    w: WindowState,
    w2: WindowState,
    origin: (i32, i32),
    aw: i32,
    ah: i32,
    r: Seq<PositionStep>,
)
    requires
        !w.maximized,
        !w.fullscreen,
        pending_config(w) matches Some(c) && c.resizing && !c.maximized && !c.fullscreen,
        commit_effect(w, w2, origin, aw, ah, r),
    ensures
        ({
            let e = pending_config(w)->Some_0.edges;
            &&& w2.w == aw && w2.h == ah
            &&& !w2.maximized && !w2.fullscreen
            &&& r.contains(PositionStep::KeepBottomEdge { geom_y: w.geometry.y, old_h: w.h, new_h: ah }) <==> e & 1 != 0
            &&& r.contains(PositionStep::KeepRightEdge { geom_x: w.geometry.x, old_w: w.w, new_w: aw }) <==> e & 4 != 0
            &&& forall|i: int| 0 <= i < r.len() ==> {
                &&& (#[trigger] r[i] is KeepBottomEdge ==> e & 1 != 0)
                &&& (r[i] is KeepRightEdge ==> e & 4 != 0)
                &&& !(r[i] is SaveCurrent) && !(r[i] is RestoreSaved) && !(r[i] is MoveTo) && !(r[i] is PlaceInArea)
            }
        }),
{
    let c = pending_config(w)->Some_0;
    let (w1, s1) = apply_fullscreen(w, c);
    assert(s1 =~= Seq::<PositionStep>::empty());
    let (wb, s2) = apply_maximized(w1, c, origin.0, origin.1);
    assert(s2 =~= Seq::<PositionStep>::empty());
    let (wc, s3) = apply_resizing(wb, c, aw, ah);
    assert(r == s1 + s2 + s3);
    assert(r =~= s3);
    let kr = PositionStep::KeepRightEdge { geom_x: w.geometry.x, old_w: w.w, new_w: aw };
    let kb = PositionStep::KeepBottomEdge { geom_y: w.geometry.y, old_h: w.h, new_h: ah };
    let sx: Seq<PositionStep> = if c.edges & 4 != 0 { seq![kr] } else { Seq::empty() };
    let by: Seq<PositionStep> = if c.edges & 1 != 0 { seq![kb] } else { Seq::empty() };
    assert(r =~= sx + by);
    if c.edges & 1 != 0 {
        assert(r[sx.len() as int] == kb);
    }
    if c.edges & 4 != 0 {
        assert(r[0] == kr);
    }
}

/// What a maximize or fullscreen request tells the client. A request that
/// changes nothing (the window is already in that state) sends nothing and
/// leaves the window as it is. Otherwise a window with a toplevel is sent a
/// configure for its toplevel, not resizing: maximizing asks for the usable
/// area's size, entering fullscreen for the screen's size, and leaving
/// either for the saved size (the current size when none is saved). The
/// new configure is queued under the request's serial.
pub proof fn law_state_requests(
    w: WindowState,
    w2: WindowState,
    on: bool,
    usable: Rect,
    screen_size: (u16, u16),
    serial: u32,
    r: Option<ToplevelConfigure>,
    fs: bool,
)
    requires
        config_index(w.sent_configures@, serial) < 0,
        !fs ==> maximize_effect(w, w2, on, usable, serial, r),
        fs ==> fullscreen_effect(w, w2, on, screen_size, serial, r),
    ensures
        ({
            let current = if fs { w.fullscreen } else { w.maximized };
            let back = match w.saved_size {
                Some(sz) => sz,
                None => (w.w, w.h),
            };
            let size = if !on {
                back
            } else if fs {
                (screen_size.0 as i32, screen_size.1 as i32)
            } else {
                (usable.w, usable.h)
            };
            &&& current == on ==> r is None && w2 == w
            &&& current != on ==> w2.sent_configures@.len() == w.sent_configures@.len() + 1
            &&& current != on ==> w2.sent_configures@.last().serial == serial
            &&& current != on ==> (w2.sent_configures@.last().w, w2.sent_configures@.last().h) == size
            &&& current != on && w.toplevel_id is Some ==> (r matches Some(c) && {
                &&& c.toplevel_id == w.toplevel_id->Some_0
                &&& (c.w, c.h) == size
                &&& !c.resizing
                &&& fs ==> c.fullscreen == on && c.maximized == w.maximized
                &&& !fs ==> c.maximized == on && c.fullscreen == w.fullscreen
            })
            &&& current != on && w.toplevel_id is None ==> r is None
        }),
{
}

} // verus!

//! Moving keyboard focus between windows: which surface may take it, and
//! the configures telling the windows losing and gaining it.

use vstd::prelude::*;
use crate::wm::floating::Wm;
use crate::wm::locate::{WindowKey, first_window};
use crate::wm::types::WindowState;

verus! {

/// A configure telling a toplevel whether it is the activated window, with
/// its maximized and fullscreen states and the size they fix (0 lets the
/// client choose).
#[derive(Clone, Copy, Debug, PartialEq, Eq)]
pub struct FocusConfigure {
    pub toplevel_id: u64,
    pub activated: bool,
    pub maximized: bool,
    pub fullscreen: bool,
    pub w: i32,
    pub h: i32,
}

/// What moving keyboard focus does: the surface that has it after, and the
/// configures for the window losing it and the window gaining it.
#[derive(Clone, Copy, Debug, PartialEq, Eq)]
pub struct FocusPlan {
    pub focus: Option<u64>,
    pub deactivate: Option<FocusConfigure>,
    pub activate: Option<FocusConfigure>,
}

/// The configure telling window `w` whether it is activated (none without a toplevel).
pub open spec fn focus_configure(w: WindowState, activated: bool) -> Option<FocusConfigure> {
    match w.toplevel_id {
        Some(t) => Some(FocusConfigure {
            toplevel_id: t,
            activated: activated,
            maximized: w.maximized,
            fullscreen: w.fullscreen,
            w: if w.maximized || w.fullscreen { w.w } else { 0 },
            h: if w.maximized || w.fullscreen { w.h } else { 0 },
        }),
        None => None,
    }
}

/// The configure for the window of surface `s`, if there is one with a toplevel.
pub open spec fn surface_configure(wm: Wm, s: Option<u64>, activated: bool) -> Option<FocusConfigure> {
    match s {
        Some(sid) => match first_window(wm, WindowKey::Surface(sid)) {
            Some(w) => focus_configure(w, activated),
            None => None,
        },
        None => None,
    }
}

/// The surface that takes focus when `target` is asked to: none for a
/// layer surface that takes no keyboard input.
pub open spec fn focus_candidate(wm: Wm, target: Option<u64>) -> Option<u64> {
    match target {
        Some(sid) => match first_window(wm, WindowKey::Surface(sid)) {
            Some(w) => if w.is_layer_surface && w.keyboard_interactivity == 0 {
                None
            } else {
                target
            },
            None => target,
        },
        None => None,
    }
}

/// The configure telling window `w` whether it is activated.
fn configure_for(w: &WindowState, activated: bool) -> (r: Option<FocusConfigure>)
    ensures
        r == focus_configure(*w, activated),
{
    match w.toplevel_id {
        Some(t) => {
            let sized = w.maximized || w.fullscreen;
            Some(FocusConfigure {
                toplevel_id: t,
                activated,
                maximized: w.maximized,
                fullscreen: w.fullscreen,
                w: if sized { w.w } else { 0 },
                h: if sized { w.h } else { 0 },
            })
        },
        None => None,
    }
}

impl Wm {
    /// The configure for the window of surface `s`.
    fn configure_surface(&self, s: Option<u64>, activated: bool) -> (r: Option<FocusConfigure>)
        ensures
            r == surface_configure(*self, s, activated),
    {
        match s {
            Some(sid) => match self.find_window(WindowKey::Surface(sid)) {
                Some(w) => configure_for(w, activated),
                None => None,
            },
            None => None,
        }
    }

    /// Moving keyboard focus from surface `current` to surface `target`:
    /// nothing when focus stays where it is (a layer surface taking no
    /// keyboard input makes focus go to no surface); else the surface that
    /// gets it and the configures for the windows losing and gaining it.
    pub fn plan_input_focus(&self, current: Option<u64>, target: Option<u64>) -> (r: Option<FocusPlan>)
        ensures
            ({
                let f = focus_candidate(*self, target);
                if current == f {
                    r is None
                } else {
                    r == Some(FocusPlan {
                        focus: f,
                        deactivate: surface_configure(*self, current, false),
                        activate: surface_configure(*self, f, true),
                    })
                }
            }),
    {
        let mut focus = target;
        if let Some(sid) = target {
            if let Some(w) = self.find_window(WindowKey::Surface(sid)) {
                if w.is_layer_surface && w.keyboard_interactivity == 0 {
                    focus = None;
                }
            }
        }
        if current == focus {
            return None;
        }
        let deactivate = self.configure_surface(current, false);
        let activate = self.configure_surface(focus, true);
        Some(FocusPlan { focus, deactivate, activate })
    }
}

/// A window told whether it is activated keeps what it has been told of its
/// state: the configure for the window of surface `sid`, when it has a
/// toplevel, names that toplevel, says whether it is activated, repeats
/// whether it is maximized or fullscreen, and holds the window to its
/// current size when it is either; only a window that is neither is left
/// to choose its size (0 by 0). A window without a toplevel gets none.
pub proof fn law_focus_configure(wm: Wm, sid: u64, activated: bool)
    ensures
        match first_window(wm, WindowKey::Surface(sid)) {
            Some(w) => match w.toplevel_id {
                Some(t) => surface_configure(wm, Some(sid), activated) matches Some(c) && {
                    &&& c.toplevel_id == t
                    &&& c.activated == activated
                    &&& c.maximized == w.maximized
                    &&& c.fullscreen == w.fullscreen
                    &&& (w.maximized || w.fullscreen) ==> c.w == w.w && c.h == w.h
                    &&& (!w.maximized && !w.fullscreen) ==> c.w == 0 && c.h == 0
                },
                None => surface_configure(wm, Some(sid), activated) is None,
            },
            None => surface_configure(wm, Some(sid), activated) is None,
        },
{
}

/// A layer surface that takes no keyboard input never takes focus: asking
/// to focus it leaves no surface focused. Any other surface, known or not,
/// is the one that takes focus when asked.
pub proof fn law_focus_candidate(wm: Wm, sid: u64)
    ensures
        first_window(wm, WindowKey::Surface(sid)) matches Some(w) && w.is_layer_surface && w.keyboard_interactivity == 0
            ==> focus_candidate(wm, Some(sid)) is None,
        !(first_window(wm, WindowKey::Surface(sid)) matches Some(w) && w.is_layer_surface && w.keyboard_interactivity == 0)
            ==> focus_candidate(wm, Some(sid)) == Some(sid),
        focus_candidate(wm, None) is None,
{
}

} // verus!

//! Setting the properties of one window, found by surface or by toplevel.

use vstd::prelude::*;
use crate::geometry::Rect;
use crate::wm::floating::Wm;
use crate::wm::locate::{
    WindowKey, WindowLoc, is_first_match, lemma_replaced_wf, lemma_updated_first, loc_valid, no_match, replaced,
    updated_first, window_at,
};
use crate::wm::types::WindowState;

verus! {

impl Wm {
    /// Gives the window of surface `surface_id` its toplevel role handle.
    pub fn assign_toplevel(&mut self, surface_id: u64, toplevel_id: u64)
        requires
            old(self).wf(),
        ensures
            final(self).wf(),
            updated_first(
                *old(self),
                *final(self),
                WindowKey::Surface(surface_id),
                |w: WindowState| WindowState { toplevel_id: Some(toplevel_id), ..w },
            ),
    {
        if let Some(loc) = self.locate(WindowKey::Surface(surface_id)) {
            let ghost old_self = *self;
            let window = self.window_at_mut(loc);
            window.toplevel_id = Some(toplevel_id);
            proof {
                lemma_replaced_wf(old_self, *self, loc, window_at(*self, loc));
                lemma_updated_first(old_self, *self, WindowKey::Surface(surface_id), loc, |w: WindowState| WindowState { toplevel_id: Some(toplevel_id), ..w });
            }
        }
    }

    /// Sets the title of the window with toplevel `toplevel_id`.
    pub fn set_window_title(&mut self, toplevel_id: u64, title: String)
        requires
            old(self).wf(),
        ensures
            final(self).wf(),
            updated_first(
                *old(self),
                *final(self),
                WindowKey::Toplevel(toplevel_id),
                |w: WindowState| WindowState { title: Some(title), ..w },
            ),
    {
        if let Some(loc) = self.locate(WindowKey::Toplevel(toplevel_id)) {
            let ghost old_self = *self;
            let window = self.window_at_mut(loc);
            window.title = Some(title);
            proof {
                lemma_replaced_wf(old_self, *self, loc, window_at(*self, loc));
                lemma_updated_first(old_self, *self, WindowKey::Toplevel(toplevel_id), loc, |w: WindowState| WindowState { title: Some(title), ..w });
            }
        }
    }

    /// Sets the application id of the window with toplevel `toplevel_id`.
    pub fn set_window_app_id(&mut self, toplevel_id: u64, app_id: String)
        requires
            old(self).wf(),
        ensures
            final(self).wf(),
            updated_first(
                *old(self),
                *final(self),
                WindowKey::Toplevel(toplevel_id),
                |w: WindowState| WindowState { app_id: Some(app_id), ..w },
            ),
    {
        if let Some(loc) = self.locate(WindowKey::Toplevel(toplevel_id)) {
            let ghost old_self = *self;
            let window = self.window_at_mut(loc);
            window.app_id = Some(app_id);
            proof {
                lemma_replaced_wf(old_self, *self, loc, window_at(*self, loc));
                lemma_updated_first(old_self, *self, WindowKey::Toplevel(toplevel_id), loc, |w: WindowState| WindowState { app_id: Some(app_id), ..w });
            }
        }
    }

    /// Turns server-side decorations on or off for the window with toplevel `toplevel_id`.
    pub fn set_window_ssd(&mut self, toplevel_id: u64, enabled: bool)
        requires
            old(self).wf(),
        ensures
            final(self).wf(),
            updated_first(
                *old(self),
                *final(self),
                WindowKey::Toplevel(toplevel_id),
                |w: WindowState| WindowState { ssd: enabled, ..w },
            ),
    {
        if let Some(loc) = self.locate(WindowKey::Toplevel(toplevel_id)) {
            let ghost old_self = *self;
            let window = self.window_at_mut(loc);
            window.ssd = enabled;
            proof {
                lemma_replaced_wf(old_self, *self, loc, window_at(*self, loc));
                lemma_updated_first(old_self, *self, WindowKey::Toplevel(toplevel_id), loc, |w: WindowState| WindowState { ssd: enabled, ..w });
            }
        }
    }

    /// Sets or clears the modal flag of the window with toplevel `toplevel_id`.
    pub fn set_modal(&mut self, toplevel_id: u64, modal: bool)
        requires
            old(self).wf(),
        ensures
            final(self).wf(),
            updated_first(
                *old(self),
                *final(self),
                WindowKey::Toplevel(toplevel_id),
                |w: WindowState| WindowState { modal: modal, ..w },
            ),
    {
        if let Some(loc) = self.locate(WindowKey::Toplevel(toplevel_id)) {
            let ghost old_self = *self;
            let window = self.window_at_mut(loc);
            window.modal = modal;
            proof {
                lemma_replaced_wf(old_self, *self, loc, window_at(*self, loc));
                lemma_updated_first(old_self, *self, WindowKey::Toplevel(toplevel_id), loc, |w: WindowState| WindowState { modal: modal, ..w });
            }
        }
    }

    /// Records the size the client drew the window of `surface_id` at.
    pub fn refresh_window_dimensions(&mut self, surface_id: u64, w: i32, h: i32)
        requires
            old(self).wf(),
        ensures
            final(self).wf(),
            updated_first(
                *old(self),
                *final(self),
                WindowKey::Surface(surface_id),
                |win: WindowState| WindowState { w: w, h: h, ..win },
            ),
    {
        if let Some(loc) = self.locate(WindowKey::Surface(surface_id)) {
            let ghost old_self = *self;
            let window = self.window_at_mut(loc);
            window.w = w;
            window.h = h;
            proof {
                lemma_replaced_wf(old_self, *self, loc, window_at(*self, loc));
                lemma_updated_first(old_self, *self, WindowKey::Surface(surface_id), loc, |win: WindowState| WindowState { w: w, h: h, ..win });
            }
        }
    }

    /// Records that the client of `surface_id` acknowledged configure `serial`.
    pub fn ack_configure(&mut self, surface_id: u64, serial: u32)
        requires
            old(self).wf(),
        ensures
            final(self).wf(),
            updated_first(
                *old(self),
                *final(self),
                WindowKey::Surface(surface_id),
                |w: WindowState| WindowState { acknowledged_serial: Some(serial), ..w },
            ),
    {
        if let Some(loc) = self.locate(WindowKey::Surface(surface_id)) {
            let ghost old_self = *self;
            let window = self.window_at_mut(loc);
            window.acknowledged_serial = Some(serial);
            proof {
                lemma_replaced_wf(old_self, *self, loc, window_at(*self, loc));
                lemma_updated_first(old_self, *self, WindowKey::Surface(surface_id), loc, |w: WindowState| WindowState { acknowledged_serial: Some(serial), ..w });
            }
        }
    }

    /// Sets the size of a layer-shell surface (window size and geometry size).
    pub fn set_layer_surface_size(&mut self, surface_id: u64, w: u32, h: u32)
        requires
            old(self).wf(),
        ensures
            final(self).wf(),
            updated_first(
                *old(self),
                *final(self),
                WindowKey::Surface(surface_id),
                |win: WindowState|
                    WindowState {
                        w: w as i32,
                        h: h as i32,
                        geometry: Rect { w: w as i32, h: h as i32, ..win.geometry },
                        ..win
                    },
            ),
    {
        if let Some(loc) = self.locate(WindowKey::Surface(surface_id)) {
            let ghost old_self = *self;
            let window = self.window_at_mut(loc);
            window.w = w as i32;
            window.h = h as i32;
            window.geometry.w = w as i32;
            window.geometry.h = h as i32;
            proof {
                lemma_replaced_wf(old_self, *self, loc, window_at(*self, loc));
                lemma_updated_first(old_self, *self, WindowKey::Surface(surface_id), loc, |win: WindowState|
                    WindowState {
                        w: w as i32,
                        h: h as i32,
                        geometry: Rect { w: w as i32, h: h as i32, ..win.geometry },
                        ..win
                    });
            }
        }
    }

    /// Sets the anchor edges of a layer-shell surface.
    pub fn set_layer_surface_anchor(&mut self, surface_id: u64, anchor: u32)
        requires
            old(self).wf(),
        ensures
            final(self).wf(),
            updated_first(
                *old(self),
                *final(self),
                WindowKey::Surface(surface_id),
                |w: WindowState| WindowState { anchor: anchor, ..w },
            ),
    {
        if let Some(loc) = self.locate(WindowKey::Surface(surface_id)) {
            let ghost old_self = *self;
            let window = self.window_at_mut(loc);
            window.anchor = anchor;
            proof {
                lemma_replaced_wf(old_self, *self, loc, window_at(*self, loc));
                lemma_updated_first(old_self, *self, WindowKey::Surface(surface_id), loc, |w: WindowState| WindowState { anchor: anchor, ..w });
            }
        }
    }

    /// Sets the exclusive zone of a layer-shell surface.
    pub fn set_layer_surface_zone(&mut self, surface_id: u64, zone: i32)
        requires
            old(self).wf(),
        ensures
            final(self).wf(),
            updated_first(
                *old(self),
                *final(self),
                WindowKey::Surface(surface_id),
                |w: WindowState| WindowState { exclusive_zone: zone, ..w },
            ),
    {
        if let Some(loc) = self.locate(WindowKey::Surface(surface_id)) {
            let ghost old_self = *self;
            let window = self.window_at_mut(loc);
            window.exclusive_zone = zone;
            proof {
                lemma_replaced_wf(old_self, *self, loc, window_at(*self, loc));
                lemma_updated_first(old_self, *self, WindowKey::Surface(surface_id), loc, |w: WindowState| WindowState { exclusive_zone: zone, ..w });
            }
        }
    }

    /// Sets the margins of a layer-shell surface.
    pub fn set_layer_surface_margin(&mut self, surface_id: u64, top: i32, right: i32, bottom: i32, left: i32)
        requires
            old(self).wf(),
        ensures
            final(self).wf(),
            updated_first(
                *old(self),
                *final(self),
                WindowKey::Surface(surface_id),
                |w: WindowState| WindowState { margin: (top, right, bottom, left), ..w },
            ),
    {
        if let Some(loc) = self.locate(WindowKey::Surface(surface_id)) {
            let ghost old_self = *self;
            let window = self.window_at_mut(loc);
            window.margin = (top, right, bottom, left);
            proof {
                lemma_replaced_wf(old_self, *self, loc, window_at(*self, loc));
                lemma_updated_first(old_self, *self, WindowKey::Surface(surface_id), loc, |w: WindowState| WindowState { margin: (top, right, bottom, left), ..w });
            }
        }
    }

    /// Sets the keyboard interactivity mode of a layer-shell surface.
    pub fn set_layer_keyboard_interactivity(&mut self, surface_id: u64, interactivity: u32)
        requires
            old(self).wf(),
        ensures
            final(self).wf(),
            updated_first(
                *old(self),
                *final(self),
                WindowKey::Surface(surface_id),
                |w: WindowState| WindowState { keyboard_interactivity: interactivity, ..w },
            ),
    {
        if let Some(loc) = self.locate(WindowKey::Surface(surface_id)) {
            let ghost old_self = *self;
            let window = self.window_at_mut(loc);
            window.keyboard_interactivity = interactivity;
            proof {
                lemma_replaced_wf(old_self, *self, loc, window_at(*self, loc));
                lemma_updated_first(old_self, *self, WindowKey::Surface(surface_id), loc, |w: WindowState| WindowState { keyboard_interactivity: interactivity, ..w });
            }
        }
    }
}

} // verus!

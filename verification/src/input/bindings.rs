//! Matching key presses against the configured bindings, and running the
//! compositor commands they are bound to.

use vstd::prelude::*;
use crate::config::CompositorCommand;
use crate::config::keybinds::{KeyPattern, KeySpec};
use crate::input::Mods;
use crate::wm::floating::{Wm, first_output, max_allowed};
use crate::wm::locate::{WindowKey, WindowLoc, is_first_match, lemma_first_match_unique, loc_valid, no_match, window_at};
use crate::wm::configure::{ToplevelConfigure, fullscreen_set};
use crate::wm::mapping::window_moved;
use crate::wm::queries::focused_window;
use crate::wm::swipe::{active_of, moved_to};

verus! {

/// What handling an input event came to.
#[derive(Clone, Copy, Debug, PartialEq, Eq)]
pub enum BindingAction {
    /// A binding took the event.
    Handled,
    /// A binding asks the compositor to quit.
    Exit,
    /// No binding took the event.
    Unhandled,
}

/// Position of the first entry of `s` with pattern `k`; -1 when none.
pub open spec fn entry_index<A>(s: Seq<(KeyPattern, A)>, k: KeyPattern) -> int
    decreases s.len(),
{
    if s.len() == 0 {
        -1
    } else {
        let r = entry_index(s.drop_last(), k);
        if r >= 0 {
            r
        } else if s.last().0 == k {
            s.len() - 1
        } else {
            -1
        }
    }
}

/// The action bound to pattern `k` in the entries `s`: the first entry's.
pub open spec fn bound_action<A>(s: Seq<(KeyPattern, A)>, k: KeyPattern) -> Option<A> {
    let i = entry_index(s, k);
    if i >= 0 {
        Some(s[i].1)
    } else {
        None
    }
}

/// The bindings: key patterns and what each is bound to.
pub struct BindingStore<A> {
    pub entries: Vec<(KeyPattern, A)>,
}

impl<A> View for BindingStore<A> {
    type V = Map<KeyPattern, A>;

    open spec fn view(&self) -> Map<KeyPattern, A> {
        Map::new(|k: KeyPattern| bound_action(self.entries@, k) is Some, |k: KeyPattern| bound_action(self.entries@, k)->Some_0)
    }
}

/// `entry_index` is the first position holding the pattern.
proof fn lemma_entry_index<A>(s: Seq<(KeyPattern, A)>, k: KeyPattern)
    ensures
        -1 <= entry_index(s, k) < s.len(),
        entry_index(s, k) >= 0 ==> s[entry_index(s, k)].0 == k
            && forall|j: int| 0 <= j < entry_index(s, k) ==> (#[trigger] s[j]).0 != k,
        entry_index(s, k) < 0 ==> forall|j: int| 0 <= j < s.len() ==> (#[trigger] s[j]).0 != k,
    decreases s.len(),
{
    if s.len() > 0 {
        lemma_entry_index(s.drop_last(), k);
        assert(forall|j: int| 0 <= j < s.len() - 1 ==> s.drop_last()[j] == s[j]);
    }
}

/// A position that holds the pattern, with none before it, is `entry_index`.
proof fn lemma_entry_index_is<A>(s: Seq<(KeyPattern, A)>, k: KeyPattern, i: int)
    requires
        -1 <= i < s.len(),
        i >= 0 ==> s[i].0 == k && forall|j: int| 0 <= j < i ==> (#[trigger] s[j]).0 != k,
        i < 0 ==> forall|j: int| 0 <= j < s.len() ==> (#[trigger] s[j]).0 != k,
    ensures
        entry_index(s, k) == i,
{
    lemma_entry_index(s, k);
    let e = entry_index(s, k);
    if e != i {
        if e >= 0 && i >= 0 {
            if e < i {
                assert(s[e].0 != k);
            } else {
                assert(s[i].0 != k);
            }
        } else if e >= 0 {
            assert(s[e].0 != k);
        } else {
            assert(s[i].0 != k);
        }
    }
}

impl<A> BindingStore<A> {
    /// No bindings.
    pub fn new() -> (r: Self)
        ensures
            r@ == Map::<KeyPattern, A>::empty(),
    {
        let r = BindingStore { entries: Vec::new() };
        proof {
            assert(r@ =~= Map::<KeyPattern, A>::empty());
        }
        r
    }

    /// Position of the entry for `pattern`.
    fn position(&self, pattern: &KeyPattern) -> (r: Option<usize>)
        ensures
            match r {
                Some(i) => entry_index(self.entries@, *pattern) == i && i < self.entries@.len(),
                None => entry_index(self.entries@, *pattern) == -1,
            },
    {
        proof {
            lemma_entry_index(self.entries@, *pattern);
        }
        let mut i: usize = 0;
        while i < self.entries.len()
            invariant
                i <= self.entries@.len(),
                forall|j: int| 0 <= j < i ==> (#[trigger] self.entries@[j]).0 != *pattern,
                -1 <= entry_index(self.entries@, *pattern) < self.entries@.len(),
                entry_index(self.entries@, *pattern) >= 0 ==> self.entries@[entry_index(self.entries@, *pattern)].0 == *pattern
                    && forall|j: int| 0 <= j < entry_index(self.entries@, *pattern) ==> (#[trigger] self.entries@[j]).0 != *pattern,
                entry_index(self.entries@, *pattern) < 0 ==> forall|j: int| 0 <= j < self.entries@.len() ==> (#[trigger] self.entries@[j]).0 != *pattern,
            decreases self.entries@.len() - i,
        {
            if self.entries[i].0 == *pattern {
                return Some(i);
            }
            i = i + 1;
        }
        None
    }

    /// Binds `pattern` to `action`, in place of what it was bound to.
    pub fn insert(&mut self, pattern: KeyPattern, action: A)
        ensures
            final(self)@ == old(self)@.insert(pattern, action),
    {
        let ghost s = self.entries@;
        proof {
            lemma_entry_index(s, pattern);
        }
        match self.position(&pattern) {
            Some(i) => {
                self.entries.set(i, (pattern, action));
                proof {
                    let s2 = self.entries@;
                    assert forall|k: KeyPattern| #[trigger] bound_action(s2, k) == (if k == pattern { Some(action) } else { bound_action(s, k) }) by {
                        lemma_entry_index(s, k);
                        let e = entry_index(s, k);
                        assert forall|j: int| 0 <= j < s.len() implies (#[trigger] s2[j]).0 == s[j].0 by {}
                        lemma_entry_index_is(s2, k, e);
                    }
                    assert(final(self)@ =~= old(self)@.insert(pattern, action));
                }
            },
            None => {
                self.entries.push((pattern, action));
                proof {
                    let s2 = self.entries@;
                    assert forall|k: KeyPattern| #[trigger] bound_action(s2, k) == (if k == pattern { Some(action) } else { bound_action(s, k) }) by {
                        lemma_entry_index(s, k);
                        let e = entry_index(s, k);
                        if k == pattern {
                            lemma_entry_index_is(s2, k, s.len() as int);
                        } else {
                            if e < 0 {
                                assert forall|j: int| 0 <= j < s2.len() implies (#[trigger] s2[j]).0 != k by {
                                    if j < s.len() {
                                        assert(s2[j] == s[j]);
                                    }
                                }
                            }
                            lemma_entry_index_is(s2, k, e);
                        }
                    }
                    assert(final(self)@ =~= old(self)@.insert(pattern, action));
                }
            },
        }
    }

    /// What `pattern` is bound to, if anything.
    pub fn get(&self, pattern: &KeyPattern) -> (r: Option<&A>)
        ensures
            match r {
                Some(a) => self@.contains_key(*pattern) && self@[*pattern] == *a,
                None => !self@.contains_key(*pattern),
            },
    {
        match self.position(pattern) {
            Some(i) => Some(&self.entries[i].1),
            None => None,
        }
    }

    /// The binding a key event takes: for a press, the one for the keysym
    /// with the modifiers held, else the one for the key's keycode (the
    /// evdev code `key` plus 8) with them; nothing for a release.
    pub fn binding_for_key(&self, key: u32, pressed: bool, keysym: u32, mods: Mods) -> (r: Option<&A>)
        requires
            pressed ==> key <= u32::MAX - 8,
        ensures
            !pressed ==> r is None,
            pressed ==> {
                let by_sym = KeyPattern { mods: mods, key: KeySpec::Keysym(keysym) };
                let by_code = KeyPattern { mods: mods, key: KeySpec::Keycode((key + 8) as u32) };
                if self@.contains_key(by_sym) {
                    r == Some(&self@[by_sym])
                } else if self@.contains_key(by_code) {
                    r == Some(&self@[by_code])
                } else {
                    r is None
                }
            },
    {
        if !pressed {
            return None;
        }
        let by_sym = KeyPattern { mods, key: KeySpec::Keysym(keysym) };
        let by_code = KeyPattern { mods, key: KeySpec::Keycode(key + 8) };
        match self.get(&by_sym) {
            Some(a) => Some(a),
            None => self.get(&by_code),
        }
    }
}

/// A lookup gives back what the last binding of the pattern bound it to,
/// and a binding leaves the other patterns as they were.
pub proof fn law_binding_read_after_write<A>(m: Map<KeyPattern, A>, k: KeyPattern, a: A, other: KeyPattern)
    requires
        other != k,
    ensures
        m.insert(k, a).contains_key(k),
        m.insert(k, a)[k] == a,
        m.insert(k, a).contains_key(other) == m.contains_key(other),
        m.contains_key(other) ==> m.insert(k, a)[other] == m[other],
{
}

/// What running a compositor command leaves for the server to do.
#[derive(Clone, Copy, Debug, PartialEq, Eq, Structural)]
pub enum CommandEffect {
    /// Quit the compositor.
    Exit,
    /// Spawn the command's shell command.
    Spawn,
    /// Ask the client of this toplevel to close it.
    CloseToplevel(u64),
    /// Ask the client of the active window to close it.
    CloseActive,
    /// Handle a fullscreen request for window `id` (the active one when none).
    Fullscreen { id: Option<u32>, toggle: bool, value: bool },
    /// The windows' workspaces changed: redraw and move keyboard and pointer focus.
    Refocus,
    /// Nothing more to do.
    Done,
}

impl CommandEffect {
    /// What the binding that ran the command came to; `spawned` says whether
    /// a shell command asked for started.
    pub fn binding_action(&self, spawned: bool) -> (r: BindingAction)
        ensures
            r == match *self {
                CommandEffect::Exit => BindingAction::Exit,
                CommandEffect::Spawn => if spawned {
                    BindingAction::Handled
                } else {
                    BindingAction::Unhandled
                },
                _ => BindingAction::Handled,
            },
    {
        match self {
            CommandEffect::Exit => BindingAction::Exit,
            CommandEffect::Spawn => if spawned {
                BindingAction::Handled
            } else {
                BindingAction::Unhandled
            },
            _ => BindingAction::Handled,
        }
    }
}

/// `new` is `old` after focusing a workspace: the next one when `next`,
/// else the previous one when `previous`, else workspace `id` (see
/// `moved_to`); `moved` says whether it happened.
pub open spec fn workspace_focused(old: Wm, new: Wm, id: Option<usize>, next: bool, previous: bool, moved: bool) -> bool {
    let a = active_of(old);
    let target: Option<int> = if next {
        if old.outputs@.len() > 0 && a + 1 <= max_allowed(first_output(old)) {
            Some(a + 1)
        } else {
            None
        }
    } else if previous {
        if old.outputs@.len() > 0 && a > 0 {
            Some(a - 1)
        } else {
            None
        }
    } else {
        match id {
            Some(i) => if old.outputs@.len() > 0 && i <= max_allowed(first_output(old)) {
                Some(i as int)
            } else {
                None
            },
            None => None,
        }
    };
    match target {
        Some(t) => moved && moved_to(old, new, t),
        None => !moved && new == old,
    }
}

/// `new` is `old` after the window-manager part of compositor command
/// `cmd` ran, leaving `r` for the server (see `execute_command`).
pub open spec fn command_done(old: Wm, new: Wm, cmd: CompositorCommand, r: CommandEffect) -> bool {
    match cmd {
        CompositorCommand::Quit => r == CommandEffect::Exit && new == old,
        CompositorCommand::Exec { .. } => r == CommandEffect::Spawn && new == old,
        CompositorCommand::CloseWindow { id: None } => r == CommandEffect::CloseActive && new == old,
        CompositorCommand::CloseWindow { id: Some(pid) } => {
            &&& new == old
            &&& no_match(old, WindowKey::Protocol(pid)) ==> r == CommandEffect::Done
            &&& forall|loc: WindowLoc| #[trigger] is_first_match(old, WindowKey::Protocol(pid), loc) ==>
                r == match window_at(old, loc).toplevel_id {
                    Some(t) => CommandEffect::CloseToplevel(t),
                    None => CommandEffect::Done,
                }
        },
        CompositorCommand::FullscreenWindow { id, toggle, value } =>
            r == (CommandEffect::Fullscreen { id: id, toggle: toggle, value: value }) && new == old,
        CompositorCommand::FocusWorkspace { id, next, previous } => exists|moved: bool| {
            &&& #[trigger] workspace_focused(old, new, id, next, previous, moved)
            &&& r == if moved { CommandEffect::Refocus } else { CommandEffect::Done }
        },
        CompositorCommand::MoveWindowToWorkspace { id: Some(pid), workspace } => {
            &&& no_match(old, WindowKey::Protocol(pid)) ==> r == CommandEffect::Done && new == old
            &&& forall|loc: WindowLoc| #[trigger] is_first_match(old, WindowKey::Protocol(pid), loc) ==> {
                &&& r == CommandEffect::Refocus
                &&& exists|m: bool| #[trigger] window_moved(old, new, window_at(old, loc).surface_id, 0, workspace, m)
            }
        },
        CompositorCommand::MoveWindowToWorkspace { id: None, workspace } => match focused_window(old) {
            None => r == CommandEffect::Done && new == old,
            Some(sid) => r == CommandEffect::Refocus
                && exists|m: bool| #[trigger] window_moved(old, new, sid, 0, workspace, m),
        },
        CompositorCommand::DragWindow => r == CommandEffect::Done && new == old,
        CompositorCommand::ResizeWindow => r == CommandEffect::Done && new == old,
    }
}

impl Wm {
    /// Runs the part of compositor command `cmd` that concerns the window
    /// manager and answers what is left for the server: closing a window
    /// named by protocol id closes its toplevel; focusing a workspace
    /// refocuses when it moved; moving a window (named by protocol id, else
    /// the focused one) to a workspace of the first output refocuses.
    pub fn execute_command(&mut self, cmd: &CompositorCommand) -> (r: CommandEffect)
        requires
            old(self).wf(),
            old(self).outputs@.len() > 0 ==> first_output(*old(self)).workspaces@.len() < usize::MAX,
            cmd matches CompositorCommand::MoveWindowToWorkspace { workspace, .. } ==> workspace < usize::MAX,
        ensures
            final(self).wf(),
            command_done(*old(self), *final(self), *cmd, r),
            old(self).outputs@.len() > 0 ==> (cmd matches CompositorCommand::MoveWindowToWorkspace { workspace, .. }
                ==> first_output(*final(self)).workspaces@.len() <= if workspace < first_output(*old(self)).workspaces@.len() {
                    first_output(*old(self)).workspaces@.len() as int
                } else {
                    workspace + 1
                }),
    {
        match cmd {
            CompositorCommand::Quit => CommandEffect::Exit,
            CompositorCommand::Exec { .. } => CommandEffect::Spawn,
            CompositorCommand::CloseWindow { id } => {
                match id {
                    Some(pid) => {
                        let key = WindowKey::Protocol(*pid);
                        match self.locate(key) {
                            Some(loc) => {
                                proof {
                                    assert forall|l: WindowLoc| #[trigger] is_first_match(*self, key, l) implies l == loc by {
                                        lemma_first_match_unique(*self, key, l, loc);
                                    }
                                }
                                match self.window_at_ref(loc).toplevel_id {
                                    Some(t) => CommandEffect::CloseToplevel(t),
                                    None => CommandEffect::Done,
                                }
                            },
                            None => CommandEffect::Done,
                        }
                    },
                    None => CommandEffect::CloseActive,
                }
            },
            CompositorCommand::FullscreenWindow { id, toggle, value } => {
                CommandEffect::Fullscreen { id: *id, toggle: *toggle, value: *value }
            },
            CompositorCommand::FocusWorkspace { id, next, previous } => {
                let moved = if *next {
                    self.focus_after_workspace()
                } else if *previous {
                    self.focus_before_workspace()
                } else {
                    match id {
                        Some(ws) => self.focus_workspace(*ws),
                        None => false,
                    }
                };
                proof {
                    assert(workspace_focused(*old(self), *self, *id, *next, *previous, moved));
                }
                if moved {
                    CommandEffect::Refocus
                } else {
                    CommandEffect::Done
                }
            },
            CompositorCommand::MoveWindowToWorkspace { id, workspace } => {
                let target = match id {
                    Some(pid) => {
                        let key = WindowKey::Protocol(*pid);
                        match self.locate(key) {
                            Some(loc) => {
                                proof {
                                    assert forall|l: WindowLoc| #[trigger] is_first_match(*self, key, l) implies l == loc by {
                                        lemma_first_match_unique(*self, key, l, loc);
                                    }
                                }
                                Some(self.window_at_ref(loc).surface_id)
                            },
                            None => None,
                        }
                    },
                    None => self.get_focused_window(),
                };
                match target {
                    Some(sid) => {
                        let m = self.move_window_to_workspace(sid, 0, *workspace);
                        proof {
                            assert(window_moved(*old(self), *self, sid, 0, *workspace, m));
                        }
                        CommandEffect::Refocus
                    },
                    None => CommandEffect::Done,
                }
            },
            CompositorCommand::DragWindow => CommandEffect::Done,
            CompositorCommand::ResizeWindow => CommandEffect::Done,
        }
    }

    /// Runs a command the configuration script dispatched: as
    /// `execute_command`, and a window moved to a workspace is followed
    /// there (see `workspace_focused`).
    pub fn execute_queued_command(&mut self, cmd: &CompositorCommand) -> (r: CommandEffect)
        requires
            old(self).wf(),
            old(self).outputs@.len() > 0 ==> first_output(*old(self)).workspaces@.len() < usize::MAX,
            cmd matches CompositorCommand::MoveWindowToWorkspace { workspace, .. } ==> *workspace < usize::MAX - 1,
        ensures
            final(self).wf(),
            !(cmd is MoveWindowToWorkspace) ==> command_done(*old(self), *final(self), *cmd, r),
            cmd matches CompositorCommand::MoveWindowToWorkspace { workspace, .. } ==> exists|s: Wm| {
                &&& #[trigger] command_done(*old(self), s, *cmd, r)
                &&& r == CommandEffect::Refocus ==> exists|f: bool| #[trigger] workspace_focused(s, *final(self), Some(*workspace), false, false, f)
                &&& r != CommandEffect::Refocus ==> *final(self) == s
            },
    {
        let effect = self.execute_command(cmd);
        let ghost s = *self;
        if let CompositorCommand::MoveWindowToWorkspace { workspace, .. } = cmd {
            if effect == CommandEffect::Refocus {
                let f = self.focus_workspace(*workspace);
                proof {
                    assert(workspace_focused(s, *self, Some(*workspace), false, false, f));
                }
            }
        }
        effect
    }
}

/// Whether the first window showing toplevel `t` is fullscreen (not when
/// there is none).
pub open spec fn fullscreen_of(wm: Wm, t: u64) -> bool {
    if exists|l: WindowLoc| #[trigger] is_first_match(wm, WindowKey::Toplevel(t), l) {
        window_at(wm, choose|l: WindowLoc| #[trigger] is_first_match(wm, WindowKey::Toplevel(t), l)).fullscreen
    } else {
        false
    }
}

/// `new` is `old` after a fullscreen request for toplevel `t`: toggling
/// its state, or setting it to `force_val`; `r` is the configure sent.
pub open spec fn fullscreen_requested(old: Wm, new: Wm, t: u64, toggle: bool, force_val: bool, screen_size: (u16, u16), serial: u32, r: Option<ToplevelConfigure>) -> bool {
    fullscreen_set(old, new, t, if toggle { !fullscreen_of(old, t) } else { force_val }, screen_size, serial, r)
}

impl Wm {
    /// Whether the first window showing toplevel `t` is fullscreen.
    fn toplevel_fullscreen(&self, t: u64) -> (r: bool)
        ensures
            r == fullscreen_of(*self, t),
    {
        let key = WindowKey::Toplevel(t);
        match self.locate(key) {
            Some(l) => {
                proof {
                    let c = choose|m: WindowLoc| #[trigger] is_first_match(*self, key, m);
                    lemma_first_match_unique(*self, key, c, l);
                }
                self.window_at_ref(l).fullscreen
            },
            None => {
                proof {
                    assert forall|m: WindowLoc| !#[trigger] is_first_match(*self, key, m) by {
                        if is_first_match(*self, key, m) {
                            assert(loc_valid(*self, m));
                        }
                    }
                }
                false
            },
        }
    }

    /// A fullscreen request for window `id` (by protocol id), or, without
    /// one, for the window of the focused surface `focused`: toggles its
    /// toplevel's fullscreen state, or sets it to `force_val`, recording the
    /// configure under `serial`. Answers nothing when there is no such
    /// toplevel, else the configure sent, if any.
    pub fn request_fullscreen_window(&mut self, id: Option<u32>, focused: Option<u64>, toggle: bool, force_val: bool, screen_size: (u16, u16), serial: u32) -> (r: Option<Option<ToplevelConfigure>>)
        requires
            old(self).wf(),
        ensures
            final(self).wf(),
            ({
                let key = match id {
                    Some(pid) => Some(WindowKey::Protocol(pid)),
                    None => match focused {
                        Some(f) => Some(WindowKey::Surface(f)),
                        None => None,
                    },
                };
                match key {
                    None => r is None && *final(self) == *old(self),
                    Some(k) => {
                        &&& no_match(*old(self), k) ==> r is None && *final(self) == *old(self)
                        &&& forall|loc: WindowLoc| #[trigger] is_first_match(*old(self), k, loc) ==> match window_at(*old(self), loc).toplevel_id {
                            None => r is None && *final(self) == *old(self),
                            Some(t) => r is Some && fullscreen_requested(*old(self), *final(self), t, toggle, force_val, screen_size, serial, r->Some_0),
                        }
                    },
                }
            }),
    {
        let key = match id {
            Some(pid) => WindowKey::Protocol(pid),
            None => match focused {
                Some(f) => WindowKey::Surface(f),
                None => return None,
            },
        };
        let loc = match self.locate(key) {
            Some(l) => l,
            None => return None,
        };
        proof {
            assert forall|l: WindowLoc| #[trigger] is_first_match(*self, key, l) implies l == loc by {
                lemma_first_match_unique(*self, key, l, loc);
            }
        }
        let t = match self.window_at_ref(loc).toplevel_id {
            Some(t) => t,
            None => return None,
        };
        let current = self.toplevel_fullscreen(t);
        let target = if toggle {
            !current
        } else {
            force_val
        };
        let c = self.set_fullscreen(t, target, screen_size, serial);
        Some(c)
    }
}

} // verus!

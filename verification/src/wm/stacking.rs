//! Raising windows: a family of transient windows is raised together, and
//! focusing a window raises it.

use vstd::prelude::*;
use crate::slot_vec::Slot;
use crate::wm::floating::{Wm, output_wf};
use crate::wm::locate::{WindowKey, position_in, key_matches};
use crate::wm::transient::{
    WindowLink, all_links, descendants_bfs, descendants_in, family_bfs, find_surface, family_in, first_surface, is_descendant_order,
    is_family_order, lemma_first_surface, reaches_root, root_in, root_of,
};
use crate::wm::types::{OutputState, PopupState, WindowState};

verus! {

/// Position of the first window of `s` with surface `id`; -1 when none.
pub open spec fn first_window_index(s: Seq<WindowState>, id: u64) -> int
    decreases s.len(),
{
    if s.len() == 0 {
        -1
    } else {
        let r = first_window_index(s.drop_last(), id);
        if r >= 0 {
            r
        } else if s.last().surface_id == id {
            s.len() - 1
        } else {
            -1
        }
    }
}

/// `s` with its first window of surface `id` moved to the top.
pub open spec fn move_to_end(s: Seq<WindowState>, id: u64) -> Seq<WindowState> {
    let i = first_window_index(s, id);
    if i < 0 {
        s
    } else {
        s.remove(i).push(s[i])
    }
}

/// `s` with the windows of `ids` moved to the top one after the other.
pub open spec fn restack_seq(s: Seq<WindowState>, ids: Seq<u64>) -> Seq<WindowState>
    decreases ids.len(),
{
    if ids.len() == 0 {
        s
    } else {
        move_to_end(restack_seq(s, ids.drop_last()), ids.last())
    }
}

/// `o2` is `o` with every container restacked by `ids`.
pub open spec fn output_restacked(o: OutputState, o2: OutputState, ids: Seq<u64>) -> bool {
    &&& o2.id == o.id
    &&& o2.active_workspace == o.active_workspace
    &&& o2.usable_area == o.usable_area
    &&& o2.background.windows@ == restack_seq(o.background.windows@, ids)
    &&& o2.bottom.windows@ == restack_seq(o.bottom.windows@, ids)
    &&& o2.top.windows@ == restack_seq(o.top.windows@, ids)
    &&& o2.overlay.windows@ == restack_seq(o.overlay.windows@, ids)
    &&& o2.workspaces@.len() == o.workspaces@.len()
    &&& forall|j: int|
        0 <= j < o.workspaces@.len() ==> {
            &&& (#[trigger] o2.workspaces@[j] is Occupied <==> o.workspaces@[j] is Occupied)
            &&& o2.workspaces@[j] is Occupied ==> {
                &&& o2.workspaces@[j]->Occupied_0.id == o.workspaces@[j]->Occupied_0.id
                &&& o2.workspaces@[j]->Occupied_0.windows@ == restack_seq(o.workspaces@[j]->Occupied_0.windows@, ids)
            }
        }
}

/// The first-match position agrees with `position_in`.
proof fn lemma_first_window_index(s: Seq<WindowState>, id: u64)
    ensures
        -1 <= first_window_index(s, id) < s.len(),
        first_window_index(s, id) >= 0 ==> s[first_window_index(s, id)].surface_id == id
            && forall|j: int| 0 <= j < first_window_index(s, id) ==> (#[trigger] s[j]).surface_id != id,
        first_window_index(s, id) < 0 ==> forall|j: int| 0 <= j < s.len() ==> (#[trigger] s[j]).surface_id != id,
    decreases s.len(),
{
    if s.len() > 0 {
        lemma_first_window_index(s.drop_last(), id);
        assert(forall|j: int| 0 <= j < s.len() - 1 ==> s.drop_last()[j] == s[j]);
    }
}

/// Moves the first window of surface `id` in `v` to the top.
fn move_window_to_end(v: &mut Vec<WindowState>, id: u64)
    ensures
        final(v)@ == move_to_end(old(v)@, id),
{
    proof {
        lemma_first_window_index(v@, id);
    }
    match position_in(v, WindowKey::Surface(id)) {
        Some(i) => {
            proof {
                if first_window_index(v@, id) != i {
                    if first_window_index(v@, id) < i {
                        assert(!key_matches(v@[first_window_index(v@, id)], WindowKey::Surface(id)));
                    } else {
                        assert(v@[i as int].surface_id != id);
                    }
                }
            }
            let w = v.remove(i);
            v.push(w);
        },
        None => {
            proof {
                if first_window_index(v@, id) >= 0 {
                    assert(!key_matches(v@[first_window_index(v@, id)], WindowKey::Surface(id)));
                }
            }
        },
    }
}

/// Moves the first window of surface `id` to the top in every container of `o`.
fn restack_output(o: &mut OutputState, id: u64)
    ensures
        output_restacked(*old(o), *final(o), seq![id]),
{
    proof {
        reveal_with_fuel(restack_seq, 2);
    }
    let ghost o0 = *o;
    move_window_to_end(&mut o.background.windows, id);
    move_window_to_end(&mut o.bottom.windows, id);
    let n = o.workspaces.inner.len();
    let mut w: usize = 0;
    while w < n
        invariant
            n == o0.workspaces@.len(),
            w <= n,
            o.workspaces@.len() == n,
            o.id == o0.id,
            o.active_workspace == o0.active_workspace,
            o.usable_area == o0.usable_area,
            o.background.windows@ == move_to_end(o0.background.windows@, id),
            o.bottom.windows@ == move_to_end(o0.bottom.windows@, id),
            o.top == o0.top,
            o.overlay == o0.overlay,
            forall|j: int| w <= j < n ==> #[trigger] o.workspaces@[j] == o0.workspaces@[j],
            forall|j: int|
                0 <= j < w ==> {
                    &&& (#[trigger] o.workspaces@[j] is Occupied <==> o0.workspaces@[j] is Occupied)
                    &&& o.workspaces@[j] is Occupied ==> {
                        &&& o.workspaces@[j]->Occupied_0.id == o0.workspaces@[j]->Occupied_0.id
                        &&& o.workspaces@[j]->Occupied_0.windows@ == move_to_end(o0.workspaces@[j]->Occupied_0.windows@, id)
                    }
                },
        decreases n - w,
    {
        match &mut o.workspaces.inner[w] {
            Slot::Occupied(ws) => {
                move_window_to_end(&mut ws.windows, id);
            },
            Slot::Empty => {},
        }
        w = w + 1;
    }
    move_window_to_end(&mut o.top.windows, id);
    move_window_to_end(&mut o.overlay.windows, id);
    proof {
        assert(seq![id].drop_last() =~= Seq::<u64>::empty());
    }
}

/// Restacking by `ids` then `id` is restacking by `ids` followed by `id`.
proof fn lemma_restack_push(s: Seq<WindowState>, ids: Seq<u64>, id: u64)
    ensures
        restack_seq(s, ids.push(id)) == move_to_end(restack_seq(s, ids), id),
{
    assert(ids.push(id).drop_last() =~= ids);
}

/// Restacking one more id.
proof fn lemma_output_restacked_push(o: OutputState, o1: OutputState, o2: OutputState, ids: Seq<u64>, id: u64)
    requires
        output_restacked(o, o1, ids),
        output_restacked(o1, o2, seq![id]),
    ensures
        output_restacked(o, o2, ids.push(id)),
{
    reveal_with_fuel(restack_seq, 2);
    assert(seq![id].drop_last() =~= Seq::<u64>::empty());
    lemma_restack_push(o.background.windows@, ids, id);
    lemma_restack_push(o.bottom.windows@, ids, id);
    lemma_restack_push(o.top.windows@, ids, id);
    lemma_restack_push(o.overlay.windows@, ids, id);
    assert forall|j: int| 0 <= j < o.workspaces@.len() implies {
        &&& (#[trigger] o2.workspaces@[j] is Occupied <==> o.workspaces@[j] is Occupied)
        &&& o2.workspaces@[j] is Occupied ==> {
            &&& o2.workspaces@[j]->Occupied_0.id == o.workspaces@[j]->Occupied_0.id
            &&& o2.workspaces@[j]->Occupied_0.windows@ == restack_seq(o.workspaces@[j]->Occupied_0.windows@, ids.push(id))
        }
    } by {
        assert(o1.workspaces@[j] is Occupied <==> o.workspaces@[j] is Occupied);
        if o.workspaces@[j] is Occupied {
            lemma_restack_push(o.workspaces@[j]->Occupied_0.windows@, ids, id);
        }
    }
}

/// Restacking by nothing changes nothing.
proof fn lemma_output_restacked_empty(o: OutputState)
    ensures
        output_restacked(o, o, Seq::<u64>::empty()),
{
}

/// The surface of the first popup of surface `sid`'s parent, if `sid` is a popup.
pub open spec fn popup_parent(popups: Seq<PopupState>, sid: u64) -> Option<u64>
    decreases popups.len(),
{
    if popups.len() == 0 {
        None
    } else {
        match popup_parent(popups.drop_last(), sid) {
            Some(p) => Some(p),
            None => if popups.last().surface_id == sid {
                Some(popups.last().parent_surface_id)
            } else {
                None
            },
        }
    }
}

/// The surface reached from `sid` by following popup parents `n` times.
pub open spec fn popup_ancestor(popups: Seq<PopupState>, sid: u64, n: nat) -> u64
    decreases n,
{
    if n == 0 {
        sid
    } else {
        match popup_parent(popups, sid) {
            Some(p) => popup_ancestor(popups, p, (n - 1) as nat),
            None => sid,
        }
    }
}

/// The surface of the first window whose parent is the toplevel of the
/// window of surface `sid`.
pub open spec fn first_child(links: Seq<WindowLink>, sid: u64) -> Option<u64> {
    let i = first_surface(links, sid);
    if i < 0 {
        None
    } else {
        match links[i].toplevel_id {
            Some(tid) => {
                let j = first_parent_link(links, tid);
                if j < 0 {
                    None
                } else {
                    Some(links[j].surface_id)
                }
            },
            None => None,
        }
    }
}

/// Position of the first link whose parent is toplevel `tid`; -1 when none.
pub open spec fn first_parent_link(links: Seq<WindowLink>, tid: u64) -> int
    decreases links.len(),
{
    if links.len() == 0 {
        -1
    } else {
        let r = first_parent_link(links.drop_last(), tid);
        if r >= 0 {
            r
        } else if links.last().parent_id == Some(tid) {
            links.len() - 1
        } else {
            -1
        }
    }
}

/// Following popup parents from `sid` ends within `n` steps.
pub open spec fn popup_chain_ends(popups: Seq<PopupState>, sid: u64, n: nat) -> bool {
    popup_parent(popups, popup_ancestor(popups, sid, n)) is None
}

/// The window that focus lands on from `sid` within `n` redirections: popups
/// lead to their parents, a window with children leads to its first child.
pub open spec fn focus_lands(links: Seq<WindowLink>, popups: Seq<PopupState>, sid: u64, n: nat) -> Option<u64>
    decreases n,
{
    if !(exists|m: nat| popup_chain_ends(popups, sid, m)) {
        None
    } else {
        let m = choose|m: nat| popup_chain_ends(popups, sid, m);
        let t = popup_ancestor(popups, sid, m);
        match first_child(links, t) {
            None => Some(t),
            Some(c) => if n == 0 {
                None
            } else {
                focus_lands(links, popups, c, (n - 1) as nat)
            },
        }
    }
}

/// Focusing `sid` comes to an end.
pub open spec fn focus_ends(links: Seq<WindowLink>, popups: Seq<PopupState>, sid: u64) -> bool {
    exists|n: nat| #[trigger] focus_lands(links, popups, sid, n) is Some
}

/// The window that focusing `sid` lands on.
pub open spec fn focus_target(links: Seq<WindowLink>, popups: Seq<PopupState>, sid: u64) -> u64 {
    focus_lands(links, popups, sid, choose|n: nat| #[trigger] focus_lands(links, popups, sid, n) is Some)->Some_0
}

/// Focusing `sid` in `wm` comes to an end, on a window whose transient
/// parents end in a root.
pub open spec fn focus_ok(wm: Wm, sid: u64) -> bool {
    &&& focus_ends(all_links(wm), wm.popups@, sid)
    &&& reaches_root(all_links(wm), focus_target(all_links(wm), wm.popups@, sid))
}

/// `new` is `old` with the family of window `r` raised: every container
/// restacked by the descendants of `r`'s root, in order, and nothing else changed.
pub open spec fn raised(old: Wm, new: Wm, r: u64) -> bool {
    &&& new.wf()
    &&& new.outputs@.len() == old.outputs@.len()
    &&& is_descendant_order(all_links(old), root_of(all_links(old), r), descendants_bfs(all_links(old), root_of(all_links(old), r)))
    &&& forall|k: int| 0 <= k < old.outputs@.len() ==> output_restacked(
        old.outputs@[k],
        #[trigger] new.outputs@[k],
        descendants_bfs(all_links(old), root_of(all_links(old), r)),
    )
    &&& new.popups == old.popups
    &&& new.drag_target == old.drag_target
    &&& new.resize_state == old.resize_state
    &&& new.is_swiping == old.is_swiping
    &&& new.compaction_occurred == old.compaction_occurred
}

/// Following popup parents one more step.
proof fn lemma_popup_ancestor_step(popups: Seq<PopupState>, sid: u64, n: nat)
    ensures
        popup_ancestor(popups, sid, n + 1) == match popup_parent(popups, popup_ancestor(popups, sid, n)) {
            Some(p) => p,
            None => popup_ancestor(popups, sid, n),
        },
    decreases n,
{
    reveal_with_fuel(popup_ancestor, 2);
    if n > 0 {
        match popup_parent(popups, sid) {
            Some(p) => lemma_popup_ancestor_step(popups, p, (n - 1) as nat),
            None => {},
        }
    }
}

/// Once the popup chain ends, following it stays put.
proof fn lemma_popup_ancestor_stays(popups: Seq<PopupState>, sid: u64, n: nat, m: nat)
    requires
        popup_chain_ends(popups, sid, n),
        n <= m,
    ensures
        popup_ancestor(popups, sid, m) == popup_ancestor(popups, sid, n),
    decreases m - n,
{
    if n < m {
        lemma_popup_ancestor_stays(popups, sid, n, (m - 1) as nat);
        lemma_popup_ancestor_step(popups, sid, (m - 1) as nat);
    }
}

/// The popup parent found at the first popup of the surface.
proof fn lemma_popup_parent(popups: Seq<PopupState>, sid: u64)
    ensures
        popup_parent(popups, sid) is Some ==> exists|j: int| 0 <= j < popups.len() && popups[j].surface_id == sid
            && popup_parent(popups, sid) == Some(popups[j].parent_surface_id)
            && forall|k: int| 0 <= k < j ==> (#[trigger] popups[k]).surface_id != sid,
        popup_parent(popups, sid) is None ==> forall|j: int| 0 <= j < popups.len() ==> (#[trigger] popups[j]).surface_id != sid,
    decreases popups.len(),
{
    if popups.len() > 0 {
        lemma_popup_parent(popups.drop_last(), sid);
        assert(forall|j: int| 0 <= j < popups.len() - 1 ==> popups.drop_last()[j] == popups[j]);
        if popup_parent(popups.drop_last(), sid) is Some {
            let j = choose|j: int| 0 <= j < popups.drop_last().len() && popups.drop_last()[j].surface_id == sid
                && popup_parent(popups.drop_last(), sid) == Some(popups.drop_last()[j].parent_surface_id)
                && forall|k: int| 0 <= k < j ==> (#[trigger] popups.drop_last()[k]).surface_id != sid;
            assert(popups[j] == popups.drop_last()[j]);
        }
    }
}

/// The first link whose parent is `tid`.
proof fn lemma_first_parent_link(links: Seq<WindowLink>, tid: u64)
    ensures
        -1 <= first_parent_link(links, tid) < links.len(),
        first_parent_link(links, tid) >= 0 ==> links[first_parent_link(links, tid)].parent_id == Some(tid)
            && forall|j: int| 0 <= j < first_parent_link(links, tid) ==> (#[trigger] links[j]).parent_id != Some(tid),
        first_parent_link(links, tid) < 0 ==> forall|j: int| 0 <= j < links.len() ==> (#[trigger] links[j]).parent_id != Some(tid),
    decreases links.len(),
{
    if links.len() > 0 {
        lemma_first_parent_link(links.drop_last(), tid);
        assert(forall|j: int| 0 <= j < links.len() - 1 ==> links.drop_last()[j] == links[j]);
    }
}

/// The first child of the window of surface `sid`, computed.
pub fn first_child_in(links: &Vec<WindowLink>, sid: u64) -> (r: Option<u64>)
    ensures
        r == first_child(links@, sid),
{
    proof {
        lemma_first_surface(links@, sid);
    }
    match find_surface(links, sid) {
        Some(i) => match links[i].toplevel_id {
            Some(tid) => {
                proof {
                    lemma_first_parent_link(links@, tid);
                }
                let mut l: usize = 0;
                while l < links.len()
                    invariant
                        l <= links@.len(),
                        first_surface(links@, sid) == i as int,
                        0 <= i < links@.len(),
                        links@[i as int].toplevel_id == Some(tid),
                        forall|j: int| 0 <= j < l ==> (#[trigger] links@[j]).parent_id != Some(tid),
                        -1 <= first_parent_link(links@, tid) < links@.len(),
                        first_parent_link(links@, tid) >= 0 ==> links@[first_parent_link(links@, tid)].parent_id == Some(tid)
                            && forall|j: int| 0 <= j < first_parent_link(links@, tid) ==> (#[trigger] links@[j]).parent_id != Some(tid),
                        first_parent_link(links@, tid) < 0 ==> forall|j: int| 0 <= j < links@.len() ==> (#[trigger] links@[j]).parent_id != Some(tid),
                    decreases links@.len() - l,
                {
                    if let Some(p) = links[l].parent_id {
                        if p == tid {
                            proof {
                                let f = first_parent_link(links@, tid);
                                assert(links@[l as int].parent_id == Some(tid));
                                if f < l as int {
                                    assert(links@[f].parent_id != Some(tid));
                                }
                                if f > l as int {
                                    assert(links@[l as int].parent_id != Some(tid));
                                }
                                assert(f == l as int);
                                assert(first_surface(links@, sid) == i as int);
                            }
                            return Some(links[l].surface_id);
                        }
                    }
                    l = l + 1;
                }
                None
            },
            None => None,
        },
        None => None,
    }
}

impl Wm {
    /// The surface `sid` and its descendants (see `is_descendant_order`).
    pub fn get_descendants_ordered(&self, surface_id: u64) -> (r: Vec<u64>)
        ensures
            is_descendant_order(all_links(*self), surface_id, r@),
            r@ == descendants_bfs(all_links(*self), surface_id),
    {
        let links = self.window_links();
        descendants_in(&links, surface_id)
    }

    /// The surface `sid` and every window linked to it (see `is_family_order`).
    pub fn get_transient_group(&self, surface_id: u64) -> (r: Vec<u64>)
        ensures
            is_family_order(all_links(*self), surface_id, r@),
            r@ == family_bfs(all_links(*self), surface_id),
    {
        let links = self.window_links();
        family_in(&links, surface_id)
    }

    /// Moves the first window of each of `ids`, in turn, to the top of its container.
    fn restack_ids(&mut self, ids: &Vec<u64>)
        requires
            old(self).wf(),
        ensures
            final(self).wf(),
            final(self).outputs@.len() == old(self).outputs@.len(),
            forall|k: int| 0 <= k < old(self).outputs@.len() ==> output_restacked(old(self).outputs@[k], #[trigger] final(self).outputs@[k], ids@),
            final(self).popups == old(self).popups,
            final(self).drag_target == old(self).drag_target,
            final(self).resize_state == old(self).resize_state,
            final(self).is_swiping == old(self).is_swiping,
            final(self).compaction_occurred == old(self).compaction_occurred,
    {
        let ghost s0 = *self;
        let mut t: usize = 0;
        proof {
            assert(ids@.take(0) =~= Seq::<u64>::empty());
            assert forall|k: int| 0 <= k < s0.outputs@.len() implies output_restacked(s0.outputs@[k], #[trigger] self.outputs@[k], ids@.take(0)) by {
                lemma_output_restacked_empty(s0.outputs@[k]);
            }
        }
        while t < ids.len()
            invariant
                t <= ids@.len(),
                self.outputs@.len() == s0.outputs@.len(),
                forall|k: int| 0 <= k < s0.outputs@.len() ==> output_restacked(s0.outputs@[k], #[trigger] self.outputs@[k], ids@.take(t as int)),
                self.popups == s0.popups,
                self.drag_target == s0.drag_target,
                self.resize_state == s0.resize_state,
                self.is_swiping == s0.is_swiping,
                self.compaction_occurred == s0.compaction_occurred,
            decreases ids@.len() - t,
        {
            let id = ids[t];
            let ghost s1 = *self;
            let mut k: usize = 0;
            while k < self.outputs.len()
                invariant
                    k <= self.outputs@.len(),
                    self.outputs@.len() == s0.outputs@.len(),
                    forall|j: int| 0 <= j < k ==> output_restacked(s1.outputs@[j], #[trigger] self.outputs@[j], seq![id]),
                    forall|j: int| k <= j < self.outputs@.len() ==> #[trigger] self.outputs@[j] == s1.outputs@[j],
                    self.popups == s0.popups,
                    self.drag_target == s0.drag_target,
                    self.resize_state == s0.resize_state,
                    self.is_swiping == s0.is_swiping,
                    self.compaction_occurred == s0.compaction_occurred,
                decreases self.outputs@.len() - k,
            {
                let out = &mut self.outputs[k];
                restack_output(out, id);
                k = k + 1;
            }
            proof {
                assert(ids@.take(t as int + 1) =~= ids@.take(t as int).push(id));
                assert forall|j: int| 0 <= j < s0.outputs@.len() implies output_restacked(s0.outputs@[j], #[trigger] self.outputs@[j], ids@.take(t as int + 1)) by {
                    lemma_output_restacked_push(s0.outputs@[j], s1.outputs@[j], self.outputs@[j], ids@.take(t as int), id);
                }
            }
            t = t + 1;
        }
        proof {
            assert(ids@.take(ids@.len() as int) =~= ids@);
            assert forall|j: int| 0 <= j < self.outputs@.len() implies (#[trigger] self.outputs@[j]).workspaces@.len() > 0 by {
                assert(output_restacked(s0.outputs@[j], self.outputs@[j], ids@));
            }
            if self.outputs@.len() > 0 {
                let o = s0.outputs@[0];
                let o2 = self.outputs@[0];
                assert(output_restacked(o, o2, ids@));
                assert forall|i: int| 0 <= i < o2.workspaces@.len() && #[trigger] o2.workspaces@[i] is Occupied implies o2.workspaces@[i]->Occupied_0.id == i by {
                }
            }
        }
    }

    /// Raises the whole family of the window of surface `surface_id`: its
    /// root and then the root's descendants, parents before children.
    pub fn restack_window_group(&mut self, surface_id: u64)
        requires
            old(self).wf(),
            reaches_root(all_links(*old(self)), surface_id),
        ensures
            final(self).wf(),
            final(self).outputs@.len() == old(self).outputs@.len(),
            is_descendant_order(
                all_links(*old(self)),
                root_of(all_links(*old(self)), surface_id),
                descendants_bfs(all_links(*old(self)), root_of(all_links(*old(self)), surface_id)),
            ),
            forall|k: int| 0 <= k < old(self).outputs@.len() ==> output_restacked(
                old(self).outputs@[k],
                #[trigger] final(self).outputs@[k],
                descendants_bfs(all_links(*old(self)), root_of(all_links(*old(self)), surface_id)),
            ),
            final(self).popups == old(self).popups,
            final(self).drag_target == old(self).drag_target,
            final(self).resize_state == old(self).resize_state,
            final(self).is_swiping == old(self).is_swiping,
            final(self).compaction_occurred == old(self).compaction_occurred,
    {
        let links = self.window_links();
        let root = root_in(&links, surface_id);
        let ordered = descendants_in(&links, root);
        self.restack_ids(&ordered);
    }

    /// The parent surface of the first popup of surface `sid`, if any.
    pub fn popup_parent_of(&self, sid: u64) -> (r: Option<u64>)
        ensures
            r == popup_parent(self.popups@, sid),
    {
        proof {
            lemma_popup_parent(self.popups@, sid);
        }
        let mut i: usize = 0;
        while i < self.popups.len()
            invariant
                i <= self.popups@.len(),
                forall|j: int| 0 <= j < i ==> (#[trigger] self.popups@[j]).surface_id != sid,
                popup_parent(self.popups@, sid) is Some ==> exists|j: int| 0 <= j < self.popups@.len() && self.popups@[j].surface_id == sid
                    && popup_parent(self.popups@, sid) == Some(self.popups@[j].parent_surface_id)
                    && forall|k: int| 0 <= k < j ==> (#[trigger] self.popups@[k]).surface_id != sid,
                popup_parent(self.popups@, sid) is None ==> forall|j: int| 0 <= j < self.popups@.len() ==> (#[trigger] self.popups@[j]).surface_id != sid,
            decreases self.popups@.len() - i,
        {
            if self.popups[i].surface_id == sid {
                return Some(self.popups[i].parent_surface_id);
            }
            i = i + 1;
        }
        None
    }

    /// Focus from `sid`, allowing `n` redirections to a first child.
    fn focus_window_within(&mut self, surface_id: u64, Ghost(n): Ghost<nat>) -> (r: u64)
        requires
            old(self).wf(),
            focus_lands(all_links(*old(self)), old(self).popups@, surface_id, n) is Some,
            reaches_root(all_links(*old(self)), focus_lands(all_links(*old(self)), old(self).popups@, surface_id, n)->Some_0),
        ensures
            r == focus_lands(all_links(*old(self)), old(self).popups@, surface_id, n)->Some_0,
            raised(*old(self), *final(self), r),
        decreases n,
    {
        let ghost popups = self.popups@;
        let ghost m = choose|m: nat| popup_chain_ends(popups, surface_id, m);
        let mut target = surface_id;
        let ghost mut k: nat = 0;
        loop
            invariant
                target == popup_ancestor(popups, surface_id, k),
                k <= m,
                popup_chain_ends(popups, surface_id, m),
                popups == self.popups@,
            ensures
                target == popup_ancestor(popups, surface_id, k),
                k <= m,
                popup_parent(popups, target) is None,
            decreases m - k,
        {
            match self.popup_parent_of(target) {
                Some(p) => {
                    proof {
                        if k == m {
                            assert(false);
                        }
                        lemma_popup_ancestor_step(popups, surface_id, k);
                    }
                    target = p;
                    proof {
                        k = k + 1;
                    }
                },
                None => {
                    break;
                },
            }
        }
        proof {
            lemma_popup_ancestor_stays(popups, surface_id, k, m);
        }
        let links = self.window_links();
        match first_child_in(&links, target) {
            Some(c) => {
                return self.focus_window_within(c, Ghost((n - 1) as nat));
            },
            None => {},
        }
        self.restack_window_group(target);
        target
    }

    /// Focuses the window of surface `surface_id`: a popup leads to its
    /// parent, a window with transient children leads to its first child;
    /// the window reached is raised with its family and answered.
    pub fn focus_window(&mut self, surface_id: u64) -> (r: u64)
        requires
            old(self).wf(),
            focus_ok(*old(self), surface_id),
        ensures
            r == focus_target(all_links(*old(self)), old(self).popups@, surface_id),
            raised(*old(self), *final(self), r),
    {
        let ghost n = choose|n: nat| #[trigger] focus_lands(all_links(*self), self.popups@, surface_id, n) is Some;
        self.focus_window_within(surface_id, Ghost(n))
    }
}


/// Restacking reorders a container: the same windows, as many times each.
pub proof fn lemma_restack_keeps_windows(s: Seq<WindowState>, ids: Seq<u64>)
    ensures
        restack_seq(s, ids).to_multiset() == s.to_multiset(),
    decreases ids.len(),
{
    if ids.len() > 0 {
        lemma_restack_keeps_windows(s, ids.drop_last());
        let t = restack_seq(s, ids.drop_last());
        let id = ids.last();
        lemma_first_window_index(t, id);
        let i = first_window_index(t, id);
        if i >= 0 {
            t.to_multiset_ensures();
            t.remove(i).to_multiset_ensures();
            assert(t.to_multiset().count(t[i]) > 0) by {
                assert(t.contains(t[i]));
            }
            assert(t.remove(i).push(t[i]).to_multiset() =~= t.to_multiset());
        }
    }
}

/// Focusing a window never adds, loses or changes a window: every
/// container of every output holds the same windows as before, reordered.
pub proof fn law_focus_keeps_windows(old: Wm, new: Wm, r: u64)
    requires
        raised(old, new, r),
    ensures
        new.outputs@.len() == old.outputs@.len(),
        forall|k: int| 0 <= k < old.outputs@.len() ==> {
            let o = old.outputs@[k];
            let o2 = #[trigger] new.outputs@[k];
            &&& o2.background.windows@.to_multiset() == o.background.windows@.to_multiset()
            &&& o2.bottom.windows@.to_multiset() == o.bottom.windows@.to_multiset()
            &&& o2.top.windows@.to_multiset() == o.top.windows@.to_multiset()
            &&& o2.overlay.windows@.to_multiset() == o.overlay.windows@.to_multiset()
            &&& o2.workspaces@.len() == o.workspaces@.len()
            &&& forall|j: int| 0 <= j < o.workspaces@.len() && o.workspaces@[j] is Occupied ==> {
                &&& #[trigger] o2.workspaces@[j] is Occupied
                &&& o2.workspaces@[j]->Occupied_0.windows@.to_multiset() == o.workspaces@[j]->Occupied_0.windows@.to_multiset()
            }
        },
{
    let ids = descendants_bfs(all_links(old), root_of(all_links(old), r));
    assert forall|k: int| 0 <= k < old.outputs@.len() implies {
        let o = old.outputs@[k];
        let o2 = #[trigger] new.outputs@[k];
        &&& o2.background.windows@.to_multiset() == o.background.windows@.to_multiset()
        &&& o2.bottom.windows@.to_multiset() == o.bottom.windows@.to_multiset()
        &&& o2.top.windows@.to_multiset() == o.top.windows@.to_multiset()
        &&& o2.overlay.windows@.to_multiset() == o.overlay.windows@.to_multiset()
        &&& o2.workspaces@.len() == o.workspaces@.len()
        &&& forall|j: int| 0 <= j < o.workspaces@.len() && o.workspaces@[j] is Occupied ==> {
            &&& #[trigger] o2.workspaces@[j] is Occupied
            &&& o2.workspaces@[j]->Occupied_0.windows@.to_multiset() == o.workspaces@[j]->Occupied_0.windows@.to_multiset()
        }
    } by {
        let o = old.outputs@[k];
        let o2 = new.outputs@[k];
        assert(output_restacked(o, o2, ids));
        lemma_restack_keeps_windows(o.background.windows@, ids);
        lemma_restack_keeps_windows(o.bottom.windows@, ids);
        lemma_restack_keeps_windows(o.top.windows@, ids);
        lemma_restack_keeps_windows(o.overlay.windows@, ids);
        assert forall|j: int| 0 <= j < o.workspaces@.len() && o.workspaces@[j] is Occupied implies {
            &&& #[trigger] o2.workspaces@[j] is Occupied
            &&& o2.workspaces@[j]->Occupied_0.windows@.to_multiset() == o.workspaces@[j]->Occupied_0.windows@.to_multiset()
        } by {
            lemma_restack_keeps_windows(o.workspaces@[j]->Occupied_0.windows@, ids);
        }
    }
}

/// Focus lands on a window that is no popup and has no transient child.
pub proof fn law_focus_lands_on_leaf(links: Seq<WindowLink>, popups: Seq<PopupState>, sid: u64)
    requires
        focus_ends(links, popups, sid),
    ensures
        popup_parent(popups, focus_target(links, popups, sid)) is None,
        first_child(links, focus_target(links, popups, sid)) is None,
{
    let n = choose|n: nat| #[trigger] focus_lands(links, popups, sid, n) is Some;
    lemma_focus_lands_leaf(links, popups, sid, n);
}

/// Where focus lands within `n` redirections is no popup and has no child.
proof fn lemma_focus_lands_leaf(links: Seq<WindowLink>, popups: Seq<PopupState>, sid: u64, n: nat)
    requires
        focus_lands(links, popups, sid, n) is Some,
    ensures
        popup_parent(popups, focus_lands(links, popups, sid, n)->Some_0) is None,
        first_child(links, focus_lands(links, popups, sid, n)->Some_0) is None,
    decreases n,
{
    let m = choose|m: nat| popup_chain_ends(popups, sid, m);
    let t = popup_ancestor(popups, sid, m);
    match first_child(links, t) {
        None => {},
        Some(c) => {
            lemma_focus_lands_leaf(links, popups, c, (n - 1) as nat);
        },
    }
}

} // verus!

//! Properties that hold across the window manager's operations.

use vstd::prelude::*;
use crate::slot_vec::Slot;
use crate::wm::floating::{Wm, compacted, first_output, kept, keep_slot, lemma_kept_bounds, output_wf, ws_windows};
use crate::wm::types::{OutputState, WindowState, Workspace, is_fresh_workspace};
use crate::wm::flat::{slot_windows, ws_concat};
use crate::wm::locate::{WindowKey, WindowLayer, WindowLoc, key_matches, layer_windows, loc_valid, no_match, window_at};
use crate::wm::mapping::{
    is_new_toplevel_window, not_surface, removed_from_output, window_mapped, window_unmapped, without_surface,
};

verus! {

/// The windows of the workspaces at positions `idx` of `s`, in that order.
pub open spec fn ws_concat_at(s: Seq<Slot<Workspace>>, idx: Seq<int>) -> Seq<WindowState>
    decreases idx.len(),
{
    if idx.len() == 0 {
        Seq::empty()
    } else {
        ws_concat_at(s, idx.drop_last()) + slot_windows(s[idx.last()])
    }
}

/// Appending workspaces without windows adds no window.
proof fn lemma_ws_concat_empty_tail(s: Seq<Slot<Workspace>>, t: Seq<Slot<Workspace>>)
    requires
        forall|j: int| 0 <= j < t.len() ==> slot_windows(#[trigger] t[j]).len() == 0,
    ensures
        ws_concat(s + t) == ws_concat(s),
    decreases t.len(),
{
    if t.len() == 0 {
        assert(s + t =~= s);
    } else {
        let t2 = t.drop_last();
        assert((s + t).drop_last() =~= s + t2);
        assert((s + t).last() == t.last());
        lemma_ws_concat_empty_tail(s, t2);
        assert(slot_windows(t.last()) =~= Seq::<WindowState>::empty());
    }
}

/// Concatenating over the kept positions below `n` gives the windows of the
/// first `n` workspaces, since the workspaces left out hold no window.
proof fn lemma_kept_concat(o: OutputState, n: int)
    requires
        output_wf(o),
        0 <= n <= o.workspaces@.len(),
    ensures
        ws_concat_at(o.workspaces@, kept(o, n)) == ws_concat(o.workspaces@.take(n)),
    decreases n,
{
    if n > 0 {
        lemma_kept_concat(o, n - 1);
        assert(o.workspaces@.take(n).drop_last() =~= o.workspaces@.take(n - 1));
        if keep_slot(o, n - 1) {
            assert(kept(o, n).drop_last() =~= kept(o, n - 1));
        } else {
            assert(slot_windows(o.workspaces@[n - 1]) =~= Seq::<WindowState>::empty());
            assert(ws_concat(o.workspaces@.take(n)) =~= ws_concat(o.workspaces@.take(n - 1)));
        }
    } else {
        assert(o.workspaces@.take(0) =~= Seq::<Slot<Workspace>>::empty());
    }
}

/// The first `m` new workspaces hold the windows of the first `m` kept ones.
proof fn lemma_compacted_prefix(old_o: OutputState, new_o: OutputState, m: int)
    requires
        output_wf(old_o),
        compacted(old_o, new_o),
        0 <= m <= kept(old_o, old_o.workspaces@.len() as int).len(),
    ensures
        ws_concat(new_o.workspaces@.take(m)) == ws_concat_at(
            old_o.workspaces@,
            kept(old_o, old_o.workspaces@.len() as int).take(m),
        ),
    decreases m,
{
    let k = kept(old_o, old_o.workspaces@.len() as int);
    lemma_kept_bounds(old_o, old_o.workspaces@.len() as int);
    if m > 0 {
        lemma_compacted_prefix(old_o, new_o, m - 1);
        assert(k.take(m).last() == k[m - 1]);
        assert(new_o.workspaces@.take(m).drop_last() =~= new_o.workspaces@.take(m - 1));
        assert(k.take(m).drop_last() =~= k.take(m - 1));
        assert(new_o.workspaces@[m - 1] is Occupied);
    } else {
        assert(new_o.workspaces@.take(0) =~= Seq::<Slot<Workspace>>::empty());
        assert(k.take(0) =~= Seq::<int>::empty());
    }
}

/// Compaction keeps every window, in the same order: the windows of the
/// workspaces, read workspace by workspace, are the same before and after.
pub proof fn law_compaction_keeps_windows(old_o: OutputState, new_o: OutputState)
    requires
        output_wf(old_o),
        compacted(old_o, new_o),
    ensures
        ws_concat(new_o.workspaces@) == ws_concat(old_o.workspaces@),
{
    let n = old_o.workspaces@.len() as int;
    let k = kept(old_o, n);
    lemma_kept_bounds(old_o, n);
    lemma_kept_concat(old_o, n);
    lemma_compacted_prefix(old_o, new_o, k.len() as int);
    assert(k.take(k.len() as int) =~= k);
    assert(old_o.workspaces@.take(n) =~= old_o.workspaces@);
    let s = new_o.workspaces@.take(k.len() as int);
    let t = new_o.workspaces@.skip(k.len() as int);
    assert(new_o.workspaces@ =~= s + t);
    assert forall|j: int| 0 <= j < t.len() implies slot_windows(#[trigger] t[j]).len() == 0 by {
        assert(t[j] == new_o.workspaces@[k.len() + j]);
        assert(is_fresh_workspace(new_o.workspaces@[k.len() + j], k.len() + j));
    }
    lemma_ws_concat_empty_tail(s, t);
}


/// No window left after taking out surface `id` belongs to it.
proof fn lemma_without_surface(s: Seq<WindowState>, id: u64, i: int)
    requires
        0 <= i < without_surface(s, id).len(),
    ensures
        without_surface(s, id)[i].surface_id != id,
{
    s.lemma_filter_pred(not_surface(id), i);
}

/// An output with the windows of surface `id` taken out holds none of them.
proof fn lemma_removed_output_clean(o: OutputState, o2: OutputState, id: u64, l: WindowLayer, i: int)
    requires
        removed_from_output(o, o2, id),
        0 <= i < layer_windows(o2, l).len(),
    ensures
        layer_windows(o2, l)[i].surface_id != id,
{
    match l {
        WindowLayer::Background => lemma_without_surface(o.background.windows@, id, i),
        WindowLayer::Bottom => lemma_without_surface(o.bottom.windows@, id, i),
        WindowLayer::Top => lemma_without_surface(o.top.windows@, id, i),
        WindowLayer::Overlay => lemma_without_surface(o.overlay.windows@, id, i),
        WindowLayer::Workspace(j) => {
            assert(o2.workspaces@[j as int] is Occupied);
            lemma_without_surface(o.workspaces@[j as int]->Occupied_0.windows@, id, i);
        },
    }
}

/// Unmapping takes a surface's windows away for good: no window of the
/// manager belongs to it afterwards.
pub proof fn law_unmap_removes_surface(old: Wm, new: Wm, id: u64)
    requires
        old.wf(),
        window_unmapped(old, new, id),
    ensures
        no_match(new, WindowKey::Surface(id)),
{
    assert forall|l: WindowLoc| #[trigger] loc_valid(new, l) implies !key_matches(window_at(new, l), WindowKey::Surface(id)) by {
        let k = l.output as int;
        let i = l.index as int;
        if k >= 1 {
            lemma_removed_output_clean(old.outputs@[k], new.outputs@[k], id, l.layer, i);
        } else {
            let mid = choose|mid: OutputState|
                #[trigger] removed_from_output(first_output(old), mid, id) && output_wf(mid)
                    && compacted(mid, first_output(new))
                    && new.compaction_occurred == (old.compaction_occurred
                        || first_output(new).active_workspace != mid.active_workspace);
            let o2 = first_output(new);
            match l.layer {
                WindowLayer::Workspace(j) => {
                    let n = mid.workspaces@.len() as int;
                    let kp = kept(mid, n);
                    lemma_kept_bounds(mid, n);
                    if (j as int) < kp.len() {
                        let src = kp[j as int];
                        assert(keep_slot(mid, src));
                        assert(layer_windows(mid, WindowLayer::Workspace(src as usize)) == o2.workspaces@[j as int]->Occupied_0.windows@);
                        lemma_removed_output_clean(first_output(old), mid, id, WindowLayer::Workspace(src as usize), i);
                    } else {
                        assert(is_fresh_workspace(o2.workspaces@[j as int], j as int));
                    }
                },
                _ => {
                    lemma_removed_output_clean(first_output(old), mid, id, l.layer, i);
                },
            }
        }
    }
}


/// A mapped window can be found: after mapping a window of surface `id` on
/// a manager with an output, the top window of the first output's active
/// workspace is the new window, and a search for the surface finds a window.
pub proof fn law_mapped_window_found(old: Wm, new: Wm, id: u64, protocol_id: u32)
    requires
        old.wf(),
        old.outputs@.len() > 0,
        window_mapped(old, new, id, protocol_id),
    ensures
        ({
            let a = first_output(old).active_workspace;
            let loc = WindowLoc { output: 0, layer: WindowLayer::Workspace(a), index: (first_output(new).workspaces@[a as int]->Occupied_0.windows.len() - 1) as usize };
            &&& loc_valid(new, loc)
            &&& is_new_toplevel_window(window_at(new, loc), id, protocol_id)
        }),
        !no_match(new, WindowKey::Surface(id)),
{
    let a = first_output(old).active_workspace;
    let loc = WindowLoc { output: 0, layer: WindowLayer::Workspace(a), index: (first_output(new).workspaces@[a as int]->Occupied_0.windows.len() - 1) as usize };
    assert(loc_valid(new, loc));
}

} // verus!

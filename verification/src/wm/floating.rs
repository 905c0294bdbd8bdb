//! The floating window manager's state and its workspace operations.

use vstd::prelude::*;
use crate::geometry::Rect;
use crate::slot_vec::{Slot, SlotVec, grown_to};
use crate::wm::flat::slot_windows;
use crate::wm::types::{
    ConfigureState, DisplayLayerState, OutputState, PopupState, ResizeState, WindowState,
    Workspace, WorkspaceInsertPosition, INITIAL_WORKSPACES, is_fresh_workspace,
};

verus! {

/// The window manager: outputs, popups, and the interaction in progress.
pub struct Wm {
    pub outputs: Vec<OutputState>,
    pub popups: Vec<PopupState>,
    /// The surface being dragged, if any.
    pub drag_target: Option<u64>,
    /// The resize in progress, if any.
    pub resize_state: Option<ResizeState>,
    pub is_swiping: bool,
    /// Whether a compaction moved the active workspace since last asked.
    pub compaction_occurred: bool,
}

/// The windows of the workspace in slot `i` of output `o`.
pub open spec fn ws_windows(o: OutputState, i: int) -> Seq<WindowState> {
    slot_windows(o.workspaces@[i])
}

/// An output is well formed: a slot that holds a workspace holds the one
/// whose id is its position, and the active slot holds a workspace. Other
/// slots may be empty.
pub open spec fn output_wf(o: OutputState) -> bool {
    &&& o.workspaces@.len() > 0
    &&& o.active_workspace < o.workspaces@.len()
    &&& o.workspaces@[o.active_workspace as int] is Occupied
    &&& forall|i: int|
        0 <= i < o.workspaces@.len() && #[trigger] o.workspaces@[i] is Occupied ==> o.workspaces@[i]->Occupied_0.id == i
}

/// The first output, which workspace operations act on.
pub open spec fn first_output(wm: Wm) -> OutputState {
    wm.outputs@[0]
}

/// One more than the highest workspace position holding a window; 0 when none does.
pub open spec fn max_allowed(o: OutputState) -> int {
    max_allowed_below(o, o.workspaces@.len() as int)
}

/// One more than the highest position below `n` whose workspace holds a window.
pub open spec fn max_allowed_below(o: OutputState, n: int) -> int
    decreases n,
{
    if n <= 0 {
        0
    } else if ws_windows(o, n - 1).len() > 0 {
        n
    } else {
        max_allowed_below(o, n - 1)
    }
}

/// Output `o` with workspaces grown so that position `id` exists: empty
/// slots up to `id` and new positions hold fresh workspaces.
pub open spec fn ensured(old_o: OutputState, new_o: OutputState, id: int) -> bool {
    let n = old_o.workspaces@.len();
    &&& new_o.workspaces@.len() == if id < n { n as int } else { id + 1 }
    &&& forall|i: int| 0 <= i < n ==> if i <= id && old_o.workspaces@[i] is Empty {
        is_fresh_workspace(#[trigger] new_o.workspaces@[i], i)
    } else {
        new_o.workspaces@[i] == old_o.workspaces@[i]
    }
    &&& forall|i: int|
        n <= i < new_o.workspaces@.len() ==> is_fresh_workspace(#[trigger] new_o.workspaces@[i], i)
    &&& new_o.id == old_o.id
    &&& new_o.active_workspace == old_o.active_workspace
    &&& new_o.background == old_o.background
    &&& new_o.bottom == old_o.bottom
    &&& new_o.top == old_o.top
    &&& new_o.overlay == old_o.overlay
    &&& new_o.usable_area == old_o.usable_area
}

/// Index of the first output at or after position `i` with the given id; -1 when none.
pub open spec fn find_output_from(outputs: Seq<OutputState>, output_id: usize, i: int) -> int
    decreases outputs.len() - i,
{
    if i < 0 || i >= outputs.len() {
        -1
    } else if outputs[i].id == output_id {
        i
    } else {
        find_output_from(outputs, output_id, i + 1)
    }
}

/// Index of the first output with the given id; -1 when none.
pub open spec fn find_output(outputs: Seq<OutputState>, output_id: usize) -> int {
    find_output_from(outputs, output_id, 0)
}


/// Searching outputs by id gives the same answer on sequences with the same ids.
pub proof fn lemma_find_output_same_ids(a: Seq<OutputState>, b: Seq<OutputState>, output_id: usize, i: int)
    requires
        a.len() == b.len(),
        forall|j: int| 0 <= j < a.len() ==> (#[trigger] a[j]).id == b[j].id,
    ensures
        find_output_from(a, output_id, i) == find_output_from(b, output_id, i),
    decreases a.len() - i,
{
    if 0 <= i < a.len() {
        lemma_find_output_same_ids(a, b, output_id, i + 1);
    }
}

/// A found output index is a valid position holding that id.
pub proof fn lemma_find_output_valid(a: Seq<OutputState>, output_id: usize, i: int)
    requires
        i >= 0,
    ensures
        find_output_from(a, output_id, i) == -1 || (i <= find_output_from(a, output_id, i) < a.len()
            && a[find_output_from(a, output_id, i)].id == output_id),
    decreases a.len() - i,
{
    if 0 <= i < a.len() {
        lemma_find_output_valid(a, output_id, i + 1);
    }
}

/// `max_allowed_below(o, n)` lies in `0..=n`.
pub proof fn lemma_max_allowed_bound(o: OutputState, n: int)
    requires
        n >= 0,
    ensures
        0 <= max_allowed_below(o, n) <= n,
    decreases n,
{
    if n > 0 {
        lemma_max_allowed_bound(o, n - 1);
    }
}

/// Whether compaction keeps the workspace in slot `i`: it holds windows or is active.
pub open spec fn keep_slot(o: OutputState, i: int) -> bool {
    &&& o.workspaces@[i] is Occupied
    &&& (ws_windows(o, i).len() > 0 || i == o.active_workspace)
}

/// The positions below `n` whose workspaces compaction keeps, in order.
pub open spec fn kept(o: OutputState, n: int) -> Seq<int>
    decreases n,
{
    if n <= 0 {
        Seq::empty()
    } else {
        let r = kept(o, n - 1);
        if keep_slot(o, n - 1) {
            r.push(n - 1)
        } else {
            r
        }
    }
}

/// Kept positions below `n` are fewer than `n`, increasing, and each below `n`.
pub proof fn lemma_kept_bounds(o: OutputState, n: int)
    requires
        n >= 0,
    ensures
        kept(o, n).len() <= n,
        forall|k: int| 0 <= k < kept(o, n).len() ==> 0 <= #[trigger] kept(o, n)[k] < n,
        forall|k: int, l: int|
            0 <= k < l < kept(o, n).len() ==> #[trigger] kept(o, n)[k] < #[trigger] kept(o, n)[l],
        forall|k: int| 0 <= k < kept(o, n).len() ==> keep_slot(o, #[trigger] kept(o, n)[k]),
    decreases n,
{
    if n > 0 {
        lemma_kept_bounds(o, n - 1);
    }
}

/// The output after compaction: kept workspaces first, renumbered by
/// position, then fresh workspaces up to the same count; the active
/// workspace follows its workspace.
pub open spec fn compacted(old_o: OutputState, new_o: OutputState) -> bool {
    let n = old_o.workspaces@.len() as int;
    let k = kept(old_o, n);
    &&& new_o.workspaces@.len() == n
    &&& forall|j: int|
        0 <= j < k.len() ==> {
            &&& #[trigger] new_o.workspaces@[j] is Occupied
            &&& new_o.workspaces@[j]->Occupied_0.id == j
            &&& new_o.workspaces@[j]->Occupied_0.windows == old_o.workspaces@[k[j]]->Occupied_0.windows
        }
    &&& forall|j: int| k.len() <= j < n ==> is_fresh_workspace(#[trigger] new_o.workspaces@[j], j)
    &&& new_o.active_workspace == kept(old_o, old_o.active_workspace as int).len()
    &&& new_o.id == old_o.id
    &&& new_o.background == old_o.background
    &&& new_o.bottom == old_o.bottom
    &&& new_o.top == old_o.top
    &&& new_o.overlay == old_o.overlay
    &&& new_o.usable_area == old_o.usable_area
}

impl Wm {
    /// The first output is well formed and every output has a workspace slot.
    pub open spec fn wf(&self) -> bool {
        &&& self.outputs@.len() > 0 ==> output_wf(self.outputs@[0])
        &&& forall|i: int| 0 <= i < self.outputs@.len() ==> (#[trigger] self.outputs@[i]).workspaces@.len() > 0
    }

    /// A manager with one output (id 0) and no popups or interaction.
    pub fn new() -> (r: Self)
        ensures
            r.wf(),
            r.outputs@.len() == 1,
            r.outputs@[0].id == 0,
            r.outputs@[0].workspaces@.len() == INITIAL_WORKSPACES,
            forall|i: int|
                0 <= i < INITIAL_WORKSPACES ==> is_fresh_workspace(
                    #[trigger] r.outputs@[0].workspaces@[i],
                    i,
                ),
            r.outputs@[0].active_workspace == 0,
            r.outputs@[0].background.windows@.len() == 0,
            r.outputs@[0].bottom.windows@.len() == 0,
            r.outputs@[0].top.windows@.len() == 0,
            r.outputs@[0].overlay.windows@.len() == 0,
            r.popups@.len() == 0,
            r.drag_target is None,
            r.resize_state is None,
            !r.is_swiping,
            !r.compaction_occurred,
    {
        let mut outputs: Vec<OutputState> = Vec::new();
        outputs.push(OutputState::new(0));
        Wm {
            outputs,
            popups: Vec::new(),
            drag_target: None,
            resize_state: None,
            is_swiping: false,
            compaction_occurred: false,
        }
    }

    /// Makes sure the first output has workspaces at positions `0..=ws_id`.
    pub fn ensure_workspace(&mut self, ws_id: usize)
        requires
            old(self).wf(),
            ws_id < usize::MAX,
        ensures
            final(self).wf(),
            final(self).outputs@.len() == old(self).outputs@.len(),
            old(self).outputs@.len() > 0 ==> ensured(
                first_output(*old(self)),
                first_output(*final(self)),
                ws_id as int,
            ),
            forall|i: int|
                1 <= i < old(self).outputs@.len() ==> #[trigger] final(self).outputs@[i]
                    == old(self).outputs@[i],
            final(self).popups == old(self).popups,
            final(self).drag_target == old(self).drag_target,
            final(self).resize_state == old(self).resize_state,
            final(self).is_swiping == old(self).is_swiping,
            final(self).compaction_occurred == old(self).compaction_occurred,
    {
        if self.outputs.len() == 0 {
            return;
        }
        let ghost old_o = self.outputs@[0];
        let out = &mut self.outputs[0];
        let n = out.workspaces.inner.len();
        let mut i: usize = 0;
        while i <= ws_id
            invariant
                output_wf(old_o),
                n == old_o.workspaces@.len(),
                ws_id < usize::MAX,
                i <= ws_id + 1,
                out.workspaces@.len() == if i <= n { n as int } else { i as int },
                forall|j: int| 0 <= j < n ==> if j < i && old_o.workspaces@[j] is Empty {
                    is_fresh_workspace(#[trigger] out.workspaces@[j], j)
                } else {
                    out.workspaces@[j] == old_o.workspaces@[j]
                },
                forall|j: int|
                    n <= j < out.workspaces@.len() ==> is_fresh_workspace(
                        #[trigger] out.workspaces@[j],
                        j,
                    ),
                out.id == old_o.id,
                out.active_workspace == old_o.active_workspace,
                out.background == old_o.background,
                out.bottom == old_o.bottom,
                out.top == old_o.top,
                out.overlay == old_o.overlay,
                out.usable_area == old_o.usable_area,
            decreases ws_id + 1 - i,
        {
            let slot = out.workspaces.get_mut(i).unwrap();
            if slot.is_empty() {
                *slot = Slot::Occupied(Workspace::new(i));
            }
            i = i + 1;
        }
    }

    /// One more than the highest workspace of the first output that holds a
    /// window; 0 when none does.
    pub fn max_allowed_workspace(&self) -> (r: usize)
        requires
            self.wf(),
        ensures
            self.outputs@.len() == 0 ==> r == 0,
            self.outputs@.len() > 0 ==> r == max_allowed(first_output(*self)),
    {
        let mut max_occupied: Option<usize> = None;
        if self.outputs.len() > 0 {
            let out = &self.outputs[0];
            let n = out.workspaces.inner.len();
            let mut i: usize = 0;
            while i < n
                invariant
                    output_wf(*out),
                    n == out.workspaces@.len(),
                    i <= n,
                    match max_occupied {
                        None => max_allowed_below(*out, i as int) == 0,
                        Some(m) => m < i && max_allowed_below(*out, i as int) == m + 1,
                    },
                decreases n - i,
            {
                match &out.workspaces.inner[i] {
                    Slot::Occupied(ws) => {
                        if ws.windows.len() > 0 {
                            let better = match max_occupied {
                                None => true,
                                Some(m) => ws.id > m,
                            };
                            if better {
                                max_occupied = Some(ws.id);
                            }
                        }
                    },
                    Slot::Empty => {},
                }
                i = i + 1;
            }
        }
        match max_occupied {
            Some(idx) => idx + 1,
            None => 0,
        }
    }

    /// The active workspace of the first output; 0 without outputs.
    pub fn get_active_workspace(&self) -> (r: usize)
        ensures
            self.outputs@.len() == 0 ==> r == 0,
            self.outputs@.len() > 0 ==> r == first_output(*self).active_workspace,
    {
        if self.outputs.len() == 0 {
            0
        } else {
            self.outputs[0].active_workspace
        }
    }

    /// Drops the workspaces of the first output that hold no window (except
    /// the active one), renumbers the rest by position and refills the end
    /// with fresh workspaces. Records when the active position moved.
    pub fn compact_workspaces(&mut self)
        requires
            old(self).wf(),
        ensures
            final(self).wf(),
            final(self).outputs@.len() == old(self).outputs@.len(),
            old(self).outputs@.len() > 0 ==> compacted(first_output(*old(self)), first_output(*final(self))),
            old(self).outputs@.len() > 0 ==> final(self).compaction_occurred == (
                old(self).compaction_occurred || first_output(*final(self)).active_workspace
                    != first_output(*old(self)).active_workspace),
            old(self).outputs@.len() == 0 ==> final(self).compaction_occurred == old(self).compaction_occurred,
            forall|i: int|
                1 <= i < old(self).outputs@.len() ==> #[trigger] final(self).outputs@[i]
                    == old(self).outputs@[i],
            final(self).popups == old(self).popups,
            final(self).drag_target == old(self).drag_target,
            final(self).resize_state == old(self).resize_state,
            final(self).is_swiping == old(self).is_swiping,
    {
        if self.outputs.len() == 0 {
            return;
        }
        let ghost old_o = self.outputs@[0];
        let ghost n = old_o.workspaces@.len() as int;
        let out = &mut self.outputs[0];
        let ws_count = out.workspaces.inner.len();
        let active = out.active_workspace;
        let mut old_slots: Vec<Slot<Workspace>> = Vec::new();
        std::mem::swap(&mut old_slots, &mut out.workspaces.inner);
        let mut new_workspaces: Vec<Slot<Workspace>> = Vec::new();
        let mut write_idx: usize = 0;
        let mut active_ws_shifted = active;
        let mut read_idx: usize = 0;
        proof {
            lemma_kept_bounds(old_o, n);
        }
        while read_idx < ws_count
            invariant
                output_wf(old_o),
                n == ws_count,
                ws_count == old_slots@.len(),
                active == old_o.active_workspace,
                read_idx <= ws_count,
                write_idx == kept(old_o, read_idx as int).len(),
                new_workspaces@.len() == write_idx,
                forall|j: int| read_idx <= j < ws_count ==> #[trigger] old_slots@[j] == old_o.workspaces@[j],
                forall|j: int|
                    0 <= j < write_idx ==> {
                        &&& #[trigger] new_workspaces@[j] is Occupied
                        &&& new_workspaces@[j]->Occupied_0.id == j
                        &&& new_workspaces@[j]->Occupied_0.windows == old_o.workspaces@[kept(
                            old_o,
                            read_idx as int,
                        )[j]]->Occupied_0.windows
                    },
                read_idx > active ==> active_ws_shifted == kept(old_o, active as int).len(),
                read_idx <= active ==> active_ws_shifted == active,
            decreases ws_count - read_idx,
        {
            proof {
                lemma_kept_bounds(old_o, read_idx as int);
            }
            let mut slot: Slot<Workspace> = Slot::Empty;
            std::mem::swap(&mut slot, &mut old_slots[read_idx]);
            match slot {
                Slot::Occupied(ws) => {
                    if ws.windows.len() > 0 || read_idx == active {
                        let compacted_ws = Workspace { id: write_idx, windows: ws.windows };
                        new_workspaces.push(Slot::Occupied(compacted_ws));
                        if read_idx == active {
                            active_ws_shifted = write_idx;
                        }
                        write_idx = write_idx + 1;
                    }
                },
                Slot::Empty => {},
            }
            read_idx = read_idx + 1;
        }
        let mut idx: usize = write_idx;
        while idx < ws_count
            invariant
                output_wf(old_o),
                n == ws_count,
                write_idx == kept(old_o, n).len(),
                write_idx <= idx <= ws_count,
                new_workspaces@.len() == idx,
                forall|j: int|
                    0 <= j < write_idx ==> {
                        &&& #[trigger] new_workspaces@[j] is Occupied
                        &&& new_workspaces@[j]->Occupied_0.id == j
                        &&& new_workspaces@[j]->Occupied_0.windows == old_o.workspaces@[kept(
                            old_o,
                            n,
                        )[j]]->Occupied_0.windows
                    },
                forall|j: int| write_idx <= j < idx ==> is_fresh_workspace(#[trigger] new_workspaces@[j], j),
            decreases ws_count - idx,
        {
            new_workspaces.push(Slot::Occupied(Workspace::new(idx)));
            idx = idx + 1;
        }
        out.workspaces.inner = new_workspaces;
        if out.active_workspace != active_ws_shifted {
            out.active_workspace = active_ws_shifted;
            self.compaction_occurred = true;
        }
        proof {
            lemma_kept_bounds(old_o, old_o.active_workspace as int);
        }
    }

    /// Makes the workspace before the active one active, when there is one.
    pub fn focus_before_workspace(&mut self) -> (r: bool)
        requires
            old(self).wf(),
        ensures
            final(self).wf(),
            r <==> (old(self).outputs@.len() > 0 && first_output(*old(self)).active_workspace > 0),
            r ==> first_output(*final(self)).active_workspace == first_output(
                *old(self),
            ).active_workspace - 1,
            r ==> ensured(
                first_output(*old(self)),
                OutputState { active_workspace: first_output(*old(self)).active_workspace, ..first_output(*final(self)) },
                first_output(*old(self)).active_workspace - 1,
            ),
            !r ==> *final(self) == *old(self),
            final(self).outputs@.len() == old(self).outputs@.len(),
            forall|i: int|
                1 <= i < old(self).outputs@.len() ==> #[trigger] final(self).outputs@[i]
                    == old(self).outputs@[i],
            final(self).popups == old(self).popups,
            final(self).drag_target == old(self).drag_target,
            final(self).resize_state == old(self).resize_state,
            final(self).is_swiping == old(self).is_swiping,
            final(self).compaction_occurred == old(self).compaction_occurred,
    {
        if self.outputs.len() == 0 {
            return false;
        }
        let current_ws = self.outputs[0].active_workspace;
        if current_ws > 0 {
            let target_ws = current_ws - 1;
            self.ensure_workspace(target_ws);
            self.set_active_workspace(target_ws);
            true
        } else {
            false
        }
    }

    /// Makes `id` the active workspace of the first output, which must exist.
    pub fn set_active_workspace(&mut self, id: usize)
        requires
            old(self).outputs@.len() > 0,
            old(self).wf(),
            id < first_output(*old(self)).workspaces@.len(),
            first_output(*old(self)).workspaces@[id as int] is Occupied,
        ensures
            final(self).wf(),
            first_output(*final(self)) == (OutputState {
                active_workspace: id,
                ..first_output(*old(self))
            }),
            final(self).outputs@.len() == old(self).outputs@.len(),
            forall|i: int|
                1 <= i < old(self).outputs@.len() ==> #[trigger] final(self).outputs@[i]
                    == old(self).outputs@[i],
            final(self).popups == old(self).popups,
            final(self).drag_target == old(self).drag_target,
            final(self).resize_state == old(self).resize_state,
            final(self).is_swiping == old(self).is_swiping,
            final(self).compaction_occurred == old(self).compaction_occurred,
    {
        let out = &mut self.outputs[0];
        out.active_workspace = id;
    }

    /// Makes the workspace after the active one active, unless that would go
    /// past the last workspace holding a window plus one.
    pub fn focus_after_workspace(&mut self) -> (r: bool)
        requires
            old(self).wf(),
            old(self).outputs@.len() > 0 ==> first_output(*old(self)).workspaces@.len() < usize::MAX,
        ensures
            final(self).wf(),
            r <==> (old(self).outputs@.len() > 0 && first_output(*old(self)).active_workspace + 1
                <= max_allowed(first_output(*old(self)))),
            r ==> first_output(*final(self)).active_workspace == first_output(
                *old(self),
            ).active_workspace + 1,
            r ==> ensured(
                first_output(*old(self)),
                OutputState { active_workspace: first_output(*old(self)).active_workspace, ..first_output(*final(self)) },
                first_output(*old(self)).active_workspace + 1,
            ),
            !r ==> *final(self) == *old(self),
            final(self).outputs@.len() == old(self).outputs@.len(),
            forall|i: int|
                1 <= i < old(self).outputs@.len() ==> #[trigger] final(self).outputs@[i]
                    == old(self).outputs@[i],
            final(self).popups == old(self).popups,
            final(self).drag_target == old(self).drag_target,
            final(self).resize_state == old(self).resize_state,
            final(self).is_swiping == old(self).is_swiping,
            final(self).compaction_occurred == old(self).compaction_occurred,
    {
        if self.outputs.len() == 0 {
            return false;
        }
        let current_ws = self.outputs[0].active_workspace;
        if current_ws < usize::MAX {
            let target_ws = current_ws + 1;
            if target_ws > self.max_allowed_workspace() {
                return false;
            }
            proof {
                lemma_max_allowed_bound(first_output(*self), first_output(*self).workspaces@.len() as int);
            }
            self.ensure_workspace(target_ws);
            self.set_active_workspace(target_ws);
            true
        } else {
            false
        }
    }

    /// Makes workspace `id` active, unless it lies past the last workspace
    /// holding a window plus one.
    pub fn focus_workspace(&mut self, id: usize) -> (r: bool)
        requires
            old(self).wf(),
            old(self).outputs@.len() > 0 ==> first_output(*old(self)).workspaces@.len() < usize::MAX,
        ensures
            final(self).wf(),
            r <==> (old(self).outputs@.len() > 0 && id <= max_allowed(first_output(*old(self)))),
            r ==> first_output(*final(self)).active_workspace == id,
            r ==> ensured(
                first_output(*old(self)),
                OutputState { active_workspace: first_output(*old(self)).active_workspace, ..first_output(*final(self)) },
                id as int,
            ),
            !r ==> *final(self) == *old(self),
            final(self).outputs@.len() == old(self).outputs@.len(),
            forall|i: int|
                1 <= i < old(self).outputs@.len() ==> #[trigger] final(self).outputs@[i]
                    == old(self).outputs@[i],
            final(self).popups == old(self).popups,
            final(self).drag_target == old(self).drag_target,
            final(self).resize_state == old(self).resize_state,
            final(self).is_swiping == old(self).is_swiping,
            final(self).compaction_occurred == old(self).compaction_occurred,
    {
        if self.outputs.len() == 0 {
            return false;
        }
        if id > self.max_allowed_workspace() {
            return false;
        }
        proof {
            lemma_max_allowed_bound(first_output(*self), first_output(*self).workspaces@.len() as int);
        }
        self.ensure_workspace(id);
        self.set_active_workspace(id);
        true
    }

    /// Position of the first output with the given id.
    pub fn find_output_index(&self, output_id: usize) -> (r: Option<usize>)
        ensures
            match r {
                Some(k) => find_output(self.outputs@, output_id) == k && k < self.outputs@.len(),
                None => find_output(self.outputs@, output_id) == -1,
            },
    {
        let mut k: usize = 0;
        while k < self.outputs.len()
            invariant
                k <= self.outputs@.len(),
                find_output(self.outputs@, output_id) == find_output_from(self.outputs@, output_id, k as int),
            decreases self.outputs@.len() - k,
        {
            if self.outputs[k].id == output_id {
                return Some(k);
            }
            k = k + 1;
        }
        None
    }

    /// Creates a workspace in the empty slot next to workspace `i` of the
    /// given output and answers its position: it succeeds where that slot was
    /// emptied by a deletion, or after the last position.
    pub fn create_workspace(&mut self, output_id: usize, insert_position: WorkspaceInsertPosition) -> (r:
        Option<usize>)
        requires
            old(self).wf(),
        ensures
            final(self).wf(),
            final(self).outputs@.len() == old(self).outputs@.len(),
            ({
                let k = find_output(old(self).outputs@, output_id);
                let s = if k >= 0 { old(self).outputs@[k].workspaces@ } else { Seq::empty() };
                match insert_position {
                    WorkspaceInsertPosition::After(i) => r == (if k >= 0 && i < s.len() && grown_to(s, i + 1)[i + 1] is Empty {
                        Some((i + 1) as usize)
                    } else {
                        None::<usize>
                    }),
                    WorkspaceInsertPosition::Before(i) => r == (if k >= 0 && 0 < i < s.len() && s[i - 1] is Empty {
                        Some((i - 1) as usize)
                    } else {
                        None::<usize>
                    }),
                }
            }),
            r is None ==> final(self).outputs@ == old(self).outputs@,
            r matches Some(p) ==> {
                let k = find_output(old(self).outputs@, output_id);
                let o = old(self).outputs@[k];
                let o2 = final(self).outputs@[k];
                let g = grown_to(o.workspaces@, p as int);
                &&& o2.workspaces@.len() == g.len()
                &&& forall|j: int| 0 <= j < g.len() && j != p ==> #[trigger] o2.workspaces@[j] == g[j]
                &&& is_fresh_workspace(o2.workspaces@[p as int], p as int)
                &&& o2 == (OutputState { workspaces: o2.workspaces, ..o })
                &&& forall|j: int| 0 <= j < old(self).outputs@.len() && j != k ==> #[trigger] final(self).outputs@[j] == old(self).outputs@[j]
            },
            final(self).popups == old(self).popups,
            final(self).drag_target == old(self).drag_target,
            final(self).resize_state == old(self).resize_state,
            final(self).is_swiping == old(self).is_swiping,
            final(self).compaction_occurred == old(self).compaction_occurred,
    {
        let k = match self.find_output_index(output_id) {
            Some(k) => k,
            None => return None,
        };
        let ghost old_o = self.outputs@[k as int];
        assert(old_o.workspaces@.len() > 0);
        let output = &mut self.outputs[k];
        match insert_position {
            WorkspaceInsertPosition::After(i) => {
                let n = output.workspaces.inner.len();
                if output.workspaces.get(i).is_some() {
                    assert(i < n);
                    let placed = output.workspaces.insert_after(i, Workspace::new(i + 1));
                    if placed {
                        return Some(i + 1);
                    }
                }
                None
            },
            WorkspaceInsertPosition::Before(i) => {
                let target_index = if i > 0 {
                    i - 1
                } else {
                    return None;
                };
                if output.workspaces.get(i).is_some() {
                    let placed = output.workspaces.insert_before(i, Workspace::new(target_index));
                    if placed {
                        return Some(target_index);
                    }
                }
                None
            },
        }
    }

    /// Deletes workspace `id` of the output with id `output_id`: its slot is
    /// emptied and `true` is answered. With no such output, or a position past
    /// the end of its workspaces, nothing changes and `false` is answered.
    /// Emptying the active slot of the first output leaves the manager
    /// outside `wf`, whose first output holds a workspace in its active slot.
    pub fn delete_workspace(&mut self, output_id: usize, id: usize) -> (r: bool)
        ensures
            r == (find_output(old(self).outputs@, output_id) >= 0 && id < old(self).outputs@[find_output(
                old(self).outputs@,
                output_id,
            )].workspaces@.len()),
            !r ==> final(self).outputs@ == old(self).outputs@,
            r ==> {
                let k = find_output(old(self).outputs@, output_id);
                let o = old(self).outputs@[k];
                &&& final(self).outputs@ == old(self).outputs@.update(k, OutputState { workspaces: final(self).outputs@[k].workspaces, ..o })
                &&& final(self).outputs@[k].workspaces@ == o.workspaces@.update(id as int, Slot::Empty)
            },
            final(self).popups == old(self).popups,
            final(self).drag_target == old(self).drag_target,
            final(self).resize_state == old(self).resize_state,
            final(self).is_swiping == old(self).is_swiping,
            final(self).compaction_occurred == old(self).compaction_occurred,
            old(self).wf() && (!r || find_output(old(self).outputs@, output_id) > 0
                || id != first_output(*old(self)).active_workspace) ==> final(self).wf(),
    {
        match self.find_output_index(output_id) {
            Some(k) => {
                let ghost s0 = *self;
                let output = &mut self.outputs[k];
                let r = output.workspaces.remove(id);
                proof {
                    if !r {
                        assert(self.outputs@[k as int] == s0.outputs@[k as int]);
                        assert(self.outputs@ =~= s0.outputs@);
                    }
                }
                r
            },
            None => false,
        }
    }
}

} // verus!

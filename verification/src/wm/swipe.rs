//! Workspace swipes. The swipe offset itself is kept by the embedding
//! server; the decisions taken on it are made here, from its sign.

use vstd::prelude::*;
use crate::wm::floating::{
    Wm, ensured, first_output, lemma_max_allowed_bound, max_allowed, max_allowed_below, ws_windows,
};
use crate::wm::types::OutputState;

verus! {

/// Which way the swipe offset points after an update.
#[derive(Clone, Copy, Debug, PartialEq, Eq)]
pub enum SwipeDirection {
    /// A positive offset: toward the previous workspace.
    TowardPrevious,
    /// A negative offset: toward the next workspace.
    TowardNext,
    /// No offset.
    Still,
}

/// What becomes of the swipe offset after an update.
#[derive(Clone, Copy, Debug, PartialEq, Eq)]
pub enum SwipeOffset {
    /// No swipe is in progress: the offset stays as it was.
    Unchanged,
    /// The updated offset is taken.
    Accept,
    /// The offset goes back to zero.
    Reset,
}

/// Where a swipe ends, from its offset and the threshold.
#[derive(Clone, Copy, Debug, PartialEq, Eq)]
pub enum SwipeEnd {
    /// The offset passed the threshold toward the previous workspace.
    Previous,
    /// The offset passed the threshold toward the next workspace.
    Next,
    /// Neither.
    Stay,
}

/// The first output's active workspace, 0 without outputs.
pub open spec fn active_of(wm: Wm) -> int {
    if wm.outputs@.len() == 0 {
        0
    } else {
        first_output(wm).active_workspace as int
    }
}

/// `new` is `old` with workspace `target` of the first output made sure of
/// (see `ensured`) and made active, and nothing else changed.
pub open spec fn moved_to(old: Wm, new: Wm, target: int) -> bool {
    &&& old.outputs@.len() > 0
    &&& first_output(new).active_workspace == target
    &&& ensured(
        first_output(old),
        OutputState { active_workspace: first_output(old).active_workspace, ..first_output(new) },
        target,
    )
    &&& new.outputs@.len() == old.outputs@.len()
    &&& forall|i: int| 1 <= i < old.outputs@.len() ==> #[trigger] new.outputs@[i] == old.outputs@[i]
    &&& new.popups == old.popups
    &&& new.drag_target == old.drag_target
    &&& new.resize_state == old.resize_state
    &&& new.is_swiping == old.is_swiping
    &&& new.compaction_occurred == old.compaction_occurred
}

impl Wm {
    /// Starts a workspace swipe.
    pub fn begin_workspace_swipe(&mut self)
        ensures
            *final(self) == (Wm { is_swiping: true, ..*old(self) }),
    {
        self.is_swiping = true;
    }

    /// Decides on the swipe offset after an update that points it in
    /// `direction`. Toward the previous workspace it is reset on the first
    /// workspace; toward the next one it is reset when there is no next
    /// workspace within reach (see `max_allowed`), which is otherwise
    /// created if missing.
    pub fn update_workspace_swipe(&mut self, direction: SwipeDirection) -> (r: SwipeOffset)
        requires
            old(self).wf(),
            old(self).outputs@.len() > 0 ==> first_output(*old(self)).workspaces@.len() < usize::MAX,
        ensures
            final(self).wf(),
            !old(self).is_swiping ==> *final(self) == *old(self) && r == SwipeOffset::Unchanged,
            old(self).is_swiping ==> match direction {
                SwipeDirection::TowardPrevious => {
                    &&& *final(self) == *old(self)
                    &&& r == (if active_of(*old(self)) == 0 { SwipeOffset::Reset } else { SwipeOffset::Accept })
                },
                SwipeDirection::Still => *final(self) == *old(self) && r == SwipeOffset::Accept,
                SwipeDirection::TowardNext => {
                    let a = active_of(*old(self));
                    if a < usize::MAX && old(self).outputs@.len() > 0 && a + 1 <= max_allowed(first_output(*old(self))) {
                        &&& r == SwipeOffset::Accept
                        &&& ensured(first_output(*old(self)), first_output(*final(self)), a + 1)
                        &&& final(self).outputs@.len() == old(self).outputs@.len()
                        &&& forall|i: int| 1 <= i < old(self).outputs@.len() ==> #[trigger] final(self).outputs@[i] == old(self).outputs@[i]
                        &&& final(self).popups == old(self).popups
                        &&& final(self).drag_target == old(self).drag_target
                        &&& final(self).resize_state == old(self).resize_state
                        &&& final(self).is_swiping == old(self).is_swiping
                        &&& final(self).compaction_occurred == old(self).compaction_occurred
                    } else {
                        *final(self) == *old(self) && r == SwipeOffset::Reset
                    }
                },
            },
    {
        if !self.is_swiping {
            return SwipeOffset::Unchanged;
        }
        let active = self.get_active_workspace();
        match direction {
            SwipeDirection::TowardPrevious => {
                if active == 0 {
                    SwipeOffset::Reset
                } else {
                    SwipeOffset::Accept
                }
            },
            SwipeDirection::Still => SwipeOffset::Accept,
            SwipeDirection::TowardNext => {
                if active == usize::MAX {
                    return SwipeOffset::Reset;
                }
                let target = active + 1;
                if target > self.max_allowed_workspace() {
                    return SwipeOffset::Reset;
                }
                proof {
                    lemma_max_allowed_bound(first_output(*self), first_output(*self).workspaces@.len() as int);
                }
                self.ensure_workspace(target);
                SwipeOffset::Accept
            },
        }
    }

    /// Ends the workspace swipe in progress, moving to the previous or the
    /// next workspace as `end` says (when there is one to move to).
    pub fn end_workspace_swipe(&mut self, end: SwipeEnd)
        requires
            old(self).wf(),
            old(self).outputs@.len() > 0 ==> first_output(*old(self)).workspaces@.len() < usize::MAX,
        ensures
            final(self).wf(),
            !old(self).is_swiping ==> *final(self) == *old(self),
            old(self).is_swiping ==> {
                let mid = Wm { is_swiping: false, ..*old(self) };
                let a = active_of(*old(self));
                match end {
                    SwipeEnd::Previous => if old(self).outputs@.len() > 0 && a > 0 {
                        moved_to(mid, *final(self), a - 1)
                    } else {
                        *final(self) == mid
                    },
                    SwipeEnd::Next => if old(self).outputs@.len() > 0 && a + 1 <= max_allowed(first_output(*old(self))) {
                        moved_to(mid, *final(self), a + 1)
                    } else {
                        *final(self) == mid
                    },
                    SwipeEnd::Stay => *final(self) == mid,
                }
            },
    {
        if !self.is_swiping {
            return;
        }
        self.is_swiping = false;
        match end {
            SwipeEnd::Previous => {
                self.focus_before_workspace();
            },
            SwipeEnd::Next => {
                self.focus_after_workspace();
            },
            SwipeEnd::Stay => {},
        }
    }
}


/// Going to the next workspace and then to the previous one comes back:
/// after a move to the next workspace, there is a previous one, and it is
/// the workspace the first move started from.
pub proof fn law_next_then_previous(old: Wm, mid: Wm)
    requires
        moved_to(old, mid, active_of(old) + 1),
    ensures
        mid.outputs@.len() > 0,
        active_of(mid) > 0,
        active_of(mid) - 1 == active_of(old),
{
}

/// Going to the previous workspace and then to the next one comes back,
/// whenever the first move left a window on the workspace it started from.
pub proof fn law_previous_then_next(old: Wm, mid: Wm)
    requires
        old.wf(),
        moved_to(old, mid, active_of(old) - 1),
        ws_windows(first_output(old), active_of(old)).len() > 0,
    ensures
        mid.outputs@.len() > 0,
        active_of(mid) + 1 <= max_allowed(first_output(mid)),
        active_of(mid) + 1 == active_of(old),
{
    let o = first_output(old);
    let o2 = first_output(mid);
    let a = active_of(old);
    let n = o2.workspaces@.len() as int;
    assert(o2.workspaces@[a] == o.workspaces@[a]);
    lemma_max_allowed_at_least(o2, n, a);
}

/// A position below `n` whose workspace holds a window lies below
/// `max_allowed_below(o, n)`.
proof fn lemma_max_allowed_at_least(o: OutputState, n: int, i: int)
    requires
        0 <= i < n,
        ws_windows(o, i).len() > 0,
    ensures
        i + 1 <= max_allowed_below(o, n),
    decreases n,
{
    if ws_windows(o, n - 1).len() == 0 {
        lemma_max_allowed_at_least(o, n - 1, i);
    }
}

} // verus!

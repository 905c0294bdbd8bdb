//! Transient (parent/child) windows: finding a window's root, its
//! descendants and its whole family, and raising a family together.
//!
//! A window's parent is named by the parent's toplevel handle. All searches
//! go through the windows in search order (see `flat`), first match wins.

use vstd::prelude::*;
use crate::slot_vec::Slot;
use crate::wm::floating::Wm;
use crate::wm::flat::{output_flat, outputs_flat, slot_windows, ws_concat};
use crate::wm::types::{OutputState, WindowState, Workspace};
use crate::wm::locate::{WindowLayer, WindowLoc, loc_valid, replaced, window_at};

verus! {

/// The identity and parent link of one window.
#[derive(Clone, Copy, Debug, PartialEq, Eq)]
pub struct WindowLink {
    pub surface_id: u64,
    pub toplevel_id: Option<u64>,
    pub parent_id: Option<u64>,
}

/// The link of window `w`.
pub open spec fn link_of(w: WindowState) -> WindowLink {
    WindowLink { surface_id: w.surface_id, toplevel_id: w.toplevel_id, parent_id: w.parent_id }
}

/// The links of the windows `s`, in order.
pub open spec fn links_of(s: Seq<WindowState>) -> Seq<WindowLink> {
    s.map_values(|w: WindowState| link_of(w))
}

/// The links of all windows of `wm`, in search order.
pub open spec fn all_links(wm: Wm) -> Seq<WindowLink> {
    links_of(outputs_flat(wm.outputs@))
}

/// Links of a concatenation are the concatenation of links.
pub proof fn lemma_links_concat(a: Seq<WindowState>, b: Seq<WindowState>)
    ensures
        links_of(a + b) == links_of(a) + links_of(b),
{
    assert(links_of(a + b) =~= links_of(a) + links_of(b));
}

/// Position of the first link with surface `sid`; -1 when none.
pub open spec fn first_surface(links: Seq<WindowLink>, sid: u64) -> int
    decreases links.len(),
{
    if links.len() == 0 {
        -1
    } else {
        let r = first_surface(links.drop_last(), sid);
        if r >= 0 {
            r
        } else if links.last().surface_id == sid {
            links.len() - 1
        } else {
            -1
        }
    }
}

/// Position of the first link with toplevel `tid`; -1 when none.
pub open spec fn first_toplevel(links: Seq<WindowLink>, tid: u64) -> int
    decreases links.len(),
{
    if links.len() == 0 {
        -1
    } else {
        let r = first_toplevel(links.drop_last(), tid);
        if r >= 0 {
            r
        } else if links.last().toplevel_id == Some(tid) {
            links.len() - 1
        } else {
            -1
        }
    }
}

/// The surface of the parent of the window of surface `sid`, when that
/// window has a parent toplevel that belongs to a window.
pub open spec fn parent_surface(links: Seq<WindowLink>, sid: u64) -> Option<u64> {
    let i = first_surface(links, sid);
    if i < 0 {
        None
    } else {
        match links[i].parent_id {
            Some(pid) => {
                let j = first_toplevel(links, pid);
                if j < 0 {
                    None
                } else {
                    Some(links[j].surface_id)
                }
            },
            None => None,
        }
    }
}

/// The surface reached from `sid` by following parents `n` times (stopping at a root).
pub open spec fn ancestor(links: Seq<WindowLink>, sid: u64, n: nat) -> u64
    decreases n,
{
    if n == 0 {
        sid
    } else {
        match parent_surface(links, sid) {
            Some(p) => ancestor(links, p, (n - 1) as nat),
            None => sid,
        }
    }
}

/// Following parents from `sid` reaches a window without a parent.
pub open spec fn reaches_root(links: Seq<WindowLink>, sid: u64) -> bool {
    exists|n: nat| parent_surface(links, #[trigger] ancestor(links, sid, n)) is None
}

/// The root of the family of `sid`: the first window without a parent on
/// the way up.
pub open spec fn root_of(links: Seq<WindowLink>, sid: u64) -> u64 {
    let n = choose|n: nat| parent_surface(links, #[trigger] ancestor(links, sid, n)) is None;
    ancestor(links, sid, n)
}

/// The surfaces of the windows whose parent is the window of surface `sid`.
pub open spec fn is_child(links: Seq<WindowLink>, parent_sid: u64, child: WindowLink) -> bool {
    let i = first_surface(links, parent_sid);
    &&& i >= 0
    &&& links[i].toplevel_id is Some
    &&& child.parent_id == links[i].toplevel_id
}

/// The surface found at the first position holding it.
pub proof fn lemma_first_surface(links: Seq<WindowLink>, sid: u64)
    ensures
        -1 <= first_surface(links, sid) < links.len(),
        first_surface(links, sid) >= 0 ==> links[first_surface(links, sid)].surface_id == sid,
        first_surface(links, sid) >= 0 ==> forall|j: int| 0 <= j < first_surface(links, sid) ==> (#[trigger] links[j]).surface_id != sid,
        first_surface(links, sid) < 0 ==> forall|j: int| 0 <= j < links.len() ==> (#[trigger] links[j]).surface_id != sid,
    decreases links.len(),
{
    if links.len() > 0 {
        lemma_first_surface(links.drop_last(), sid);
        assert(forall|j: int| 0 <= j < links.len() - 1 ==> links.drop_last()[j] == links[j]);
    }
}

/// The toplevel found at the first position holding it.
pub proof fn lemma_first_toplevel(links: Seq<WindowLink>, tid: u64)
    ensures
        -1 <= first_toplevel(links, tid) < links.len(),
        first_toplevel(links, tid) >= 0 ==> links[first_toplevel(links, tid)].toplevel_id == Some(tid),
        first_toplevel(links, tid) >= 0 ==> forall|j: int| 0 <= j < first_toplevel(links, tid) ==> (#[trigger] links[j]).toplevel_id != Some(tid),
        first_toplevel(links, tid) < 0 ==> forall|j: int| 0 <= j < links.len() ==> (#[trigger] links[j]).toplevel_id != Some(tid),
    decreases links.len(),
{
    if links.len() > 0 {
        lemma_first_toplevel(links.drop_last(), tid);
        assert(forall|j: int| 0 <= j < links.len() - 1 ==> links.drop_last()[j] == links[j]);
    }
}

/// Appends the links of `v` to `out`.
fn push_links(v: &Vec<WindowState>, out: &mut Vec<WindowLink>)
    ensures
        final(out)@ == old(out)@ + links_of(v@),
{
    let ghost start = out@;
    let mut i: usize = 0;
    while i < v.len()
        invariant
            i <= v@.len(),
            out@ == start + links_of(v@.take(i as int)),
        decreases v@.len() - i,
    {
        let w = &v[i];
        out.push(WindowLink { surface_id: w.surface_id, toplevel_id: w.toplevel_id, parent_id: w.parent_id });
        proof {
            assert(links_of(v@.take(i as int + 1)) =~= links_of(v@.take(i as int)).push(link_of(v@[i as int])));
        }
        i = i + 1;
    }
    proof {
        assert(v@.take(v@.len() as int) =~= v@);
    }
}

/// Appends the links of the windows of output `o`, in search order.
fn push_output_links(o: &OutputState, out: &mut Vec<WindowLink>)
    ensures
        final(out)@ == old(out)@ + links_of(output_flat(*o)),
{
    let ghost start = out@;
    push_links(&o.background.windows, out);
    push_links(&o.bottom.windows, out);
    let n = o.workspaces.inner.len();
    let mut w: usize = 0;
    proof {
        assert(o.workspaces@.take(0) =~= Seq::<Slot<Workspace>>::empty());
    }
    while w < n
        invariant
            n == o.workspaces@.len(),
            w <= n,
            out@ == start + links_of(o.background.windows@) + links_of(o.bottom.windows@) + links_of(
                ws_concat(o.workspaces@.take(w as int)),
            ),
        decreases n - w,
    {
        proof {
            assert(o.workspaces@.take(w as int + 1).drop_last() =~= o.workspaces@.take(w as int));
            lemma_links_concat(ws_concat(o.workspaces@.take(w as int)), slot_windows(o.workspaces@[w as int]));
        }
        match &o.workspaces.inner[w] {
            Slot::Occupied(ws) => {
                push_links(&ws.windows, out);
            },
            Slot::Empty => {
                assert(links_of(slot_windows(o.workspaces@[w as int])) =~= Seq::<WindowLink>::empty());
            },
        }
        w = w + 1;
    }
    push_links(&o.top.windows, out);
    push_links(&o.overlay.windows, out);
    proof {
        assert(o.workspaces@.take(n as int) =~= o.workspaces@);
        let f = output_flat(*o);
        lemma_links_concat(o.background.windows@, o.bottom.windows@);
        lemma_links_concat(o.background.windows@ + o.bottom.windows@, ws_concat(o.workspaces@));
        lemma_links_concat(o.background.windows@ + o.bottom.windows@ + ws_concat(o.workspaces@), o.top.windows@);
        lemma_links_concat(o.background.windows@ + o.bottom.windows@ + ws_concat(o.workspaces@) + o.top.windows@, o.overlay.windows@);
        assert(out@ =~= start + links_of(f));
    }
}

impl Wm {
    /// The links of all windows, in search order.
    pub fn window_links(&self) -> (r: Vec<WindowLink>)
        ensures
            r@ == all_links(*self),
    {
        let mut out: Vec<WindowLink> = Vec::new();
        let mut k: usize = 0;
        proof {
            assert(self.outputs@.take(0) =~= Seq::<OutputState>::empty());
            assert(links_of(Seq::<WindowState>::empty()) =~= Seq::<WindowLink>::empty());
        }
        while k < self.outputs.len()
            invariant
                k <= self.outputs@.len(),
                out@ == links_of(outputs_flat(self.outputs@.take(k as int))),
            decreases self.outputs@.len() - k,
        {
            proof {
                assert(self.outputs@.take(k as int + 1).drop_last() =~= self.outputs@.take(k as int));
                lemma_links_concat(outputs_flat(self.outputs@.take(k as int)), output_flat(self.outputs@[k as int]));
            }
            push_output_links(&self.outputs[k], &mut out);
            k = k + 1;
        }
        proof {
            assert(self.outputs@.take(self.outputs@.len() as int) =~= self.outputs@);
        }
        out
    }
}

/// Following parents one more step from the `n`-th ancestor.
pub proof fn lemma_ancestor_step(links: Seq<WindowLink>, sid: u64, n: nat)
    ensures
        ancestor(links, sid, n + 1) == match parent_surface(links, ancestor(links, sid, n)) {
            Some(p) => p,
            None => ancestor(links, sid, n),
        },
    decreases n,
{
    reveal_with_fuel(ancestor, 2);
    if n > 0 {
        match parent_surface(links, sid) {
            Some(p) => lemma_ancestor_step(links, p, (n - 1) as nat),
            None => {},
        }
    }
}

/// Once a root is reached, following parents stays there.
pub proof fn lemma_ancestor_stays(links: Seq<WindowLink>, sid: u64, n: nat, m: nat)
    requires
        parent_surface(links, ancestor(links, sid, n)) is None,
        n <= m,
    ensures
        ancestor(links, sid, m) == ancestor(links, sid, n),
    decreases m - n,
{
    if n < m {
        lemma_ancestor_stays(links, sid, n, (m - 1) as nat);
        lemma_ancestor_step(links, sid, (m - 1) as nat);
    }
}

/// Position of the first link with surface `sid`.
pub fn find_surface(links: &Vec<WindowLink>, sid: u64) -> (r: Option<usize>)
    ensures
        match r {
            Some(i) => first_surface(links@, sid) == i,
            None => first_surface(links@, sid) == -1,
        },
{
    proof {
        lemma_first_surface(links@, sid);
    }
    let mut i: usize = 0;
    while i < links.len()
        invariant
            i <= links@.len(),
            forall|j: int| 0 <= j < i ==> (#[trigger] links@[j]).surface_id != sid,
            -1 <= first_surface(links@, sid) < links@.len(),
            first_surface(links@, sid) >= 0 ==> links@[first_surface(links@, sid)].surface_id == sid,
            first_surface(links@, sid) >= 0 ==> forall|j: int| 0 <= j < first_surface(links@, sid) ==> (#[trigger] links@[j]).surface_id != sid,
            first_surface(links@, sid) < 0 ==> forall|j: int| 0 <= j < links@.len() ==> (#[trigger] links@[j]).surface_id != sid,
        decreases links@.len() - i,
    {
        if links[i].surface_id == sid {
            return Some(i);
        }
        i = i + 1;
    }
    None
}

/// Position of the first link with toplevel `tid`.
pub fn find_toplevel(links: &Vec<WindowLink>, tid: u64) -> (r: Option<usize>)
    ensures
        match r {
            Some(i) => first_toplevel(links@, tid) == i,
            None => first_toplevel(links@, tid) == -1,
        },
{
    proof {
        lemma_first_toplevel(links@, tid);
    }
    let mut i: usize = 0;
    while i < links.len()
        invariant
            i <= links@.len(),
            forall|j: int| 0 <= j < i ==> (#[trigger] links@[j]).toplevel_id != Some(tid),
            -1 <= first_toplevel(links@, tid) < links@.len(),
            first_toplevel(links@, tid) >= 0 ==> links@[first_toplevel(links@, tid)].toplevel_id == Some(tid),
            first_toplevel(links@, tid) >= 0 ==> forall|j: int| 0 <= j < first_toplevel(links@, tid) ==> (#[trigger] links@[j]).toplevel_id != Some(tid),
            first_toplevel(links@, tid) < 0 ==> forall|j: int| 0 <= j < links@.len() ==> (#[trigger] links@[j]).toplevel_id != Some(tid),
        decreases links@.len() - i,
    {
        match links[i].toplevel_id {
            Some(t) => {
                if t == tid {
                    return Some(i);
                }
            },
            None => {},
        }
        i = i + 1;
    }
    None
}

/// The surface of the parent of the window of surface `sid`.
pub fn parent_of(links: &Vec<WindowLink>, sid: u64) -> (r: Option<u64>)
    ensures
        r == parent_surface(links@, sid),
{
    proof {
        lemma_first_surface(links@, sid);
    }
    match find_surface(links, sid) {
        Some(i) => match links[i].parent_id {
            Some(pid) => {
                proof {
                    lemma_first_toplevel(links@, pid);
                }
                match find_toplevel(links, pid) {
                    Some(j) => Some(links[j].surface_id),
                    None => None,
                }
            },
            None => None,
        },
        None => None,
    }
}

/// The root of the family of `sid` in `links`.
pub fn root_in(links: &Vec<WindowLink>, sid: u64) -> (r: u64)
    requires
        reaches_root(links@, sid),
    ensures
        r == root_of(links@, sid),
        parent_surface(links@, r) is None,
{
    let ghost n = choose|n: nat| parent_surface(links@, #[trigger] ancestor(links@, sid, n)) is None;
    let mut current = sid;
    let ghost mut k: nat = 0;
    loop
        invariant
            current == ancestor(links@, sid, k),
            k <= n,
            parent_surface(links@, ancestor(links@, sid, n)) is None,
        ensures
            current == ancestor(links@, sid, k),
            k <= n,
            parent_surface(links@, current) is None,
        decreases n - k,
    {
        match parent_of(links, current) {
            Some(p) => {
                proof {
                    if k == n {
                        assert(false);
                    }
                    lemma_ancestor_step(links@, sid, k);
                }
                current = p;
                proof {
                    k = k + 1;
                }
            },
            None => {
                break;
            },
        }
    }
    proof {
        lemma_ancestor_stays(links@, sid, k, n);
    }
    current
}

impl Wm {
    /// The root of the family of the window of surface `surface_id`: follows
    /// parents while the window has a parent that is a known window.
    pub fn get_root_parent_id(&self, surface_id: u64) -> (r: u64)
        requires
            reaches_root(all_links(*self), surface_id),
        ensures
            r == root_of(all_links(*self), surface_id),
    {
        let links = self.window_links();
        root_in(&links, surface_id)
    }
}

/// `c` is the surface of a child of the window of surface `p`.
pub open spec fn is_child_surface(links: Seq<WindowLink>, p: u64, c: u64) -> bool {
    exists|l: int| 0 <= l < links.len() && is_child(links, p, links[l]) && links[l].surface_id == c
}

/// `a` and `b` are parent and child, one way or the other.
pub open spec fn related(links: Seq<WindowLink>, a: u64, b: u64) -> bool {
    parent_surface(links, a) == Some(b) || is_child_surface(links, a, b)
}

/// `r` lists `sid` and all its descendants, each once, every window after
/// its parent.
pub open spec fn is_descendant_order(links: Seq<WindowLink>, sid: u64, r: Seq<u64>) -> bool {
    &&& r.len() >= 1
    &&& r[0] == sid
    &&& r.no_duplicates()
    &&& forall|i: int| 1 <= i < r.len() ==> #[trigger] has_earlier_parent(links, r, i)
    &&& forall|i: int, l: int|
        0 <= i < r.len() && 0 <= l < links.len() && #[trigger] is_child(links, r[i], links[l]) ==> r.contains(
            links[l].surface_id,
        )
}

/// Some entry of `r` before position `i` is the parent of `r[i]`.
pub open spec fn has_earlier_parent(links: Seq<WindowLink>, r: Seq<u64>, i: int) -> bool {
    exists|j: int| 0 <= j < i && #[trigger] is_child_surface(links, r[j], r[i])
}

/// Some entry of `r` before position `i` is linked to `r[i]`.
pub open spec fn has_earlier_relative(links: Seq<WindowLink>, r: Seq<u64>, i: int) -> bool {
    exists|j: int| 0 <= j < i && #[trigger] related(links, r[j], r[i])
}

/// Appending keeps an earlier parent.
proof fn lemma_earlier_parent_push(links: Seq<WindowLink>, r: Seq<u64>, x: u64, i: int)
    requires
        0 <= i < r.len(),
        has_earlier_parent(links, r, i),
    ensures
        has_earlier_parent(links, r.push(x), i),
{
    let j = choose|j: int| 0 <= j < i && #[trigger] is_child_surface(links, r[j], r[i]);
    assert(r.push(x)[j] == r[j]);
    assert(r.push(x)[i] == r[i]);
    assert(is_child_surface(links, r.push(x)[j], r.push(x)[i]));
}

/// Appending keeps an earlier relative.
proof fn lemma_earlier_relative_push(links: Seq<WindowLink>, r: Seq<u64>, x: u64, i: int)
    requires
        0 <= i < r.len(),
        has_earlier_relative(links, r, i),
    ensures
        has_earlier_relative(links, r.push(x), i),
{
    let j = choose|j: int| 0 <= j < i && #[trigger] related(links, r[j], r[i]);
    assert(r.push(x)[j] == r[j]);
    assert(r.push(x)[i] == r[i]);
    assert(related(links, r.push(x)[j], r.push(x)[i]));
}

/// Appending keeps what a sequence contains.
proof fn lemma_contains_push(r: Seq<u64>, x: u64, y: u64)
    requires
        r.contains(y),
    ensures
        r.push(x).contains(y),
{
    let w = choose|w: int| 0 <= w < r.len() && r[w] == y;
    assert(r.push(x)[w] == y);
}

/// `r` lists `sid` and every window connected to it through parent and
/// child links, each once, every window after one it is linked to.
pub open spec fn is_family_order(links: Seq<WindowLink>, sid: u64, r: Seq<u64>) -> bool {
    &&& r.len() >= 1
    &&& r[0] == sid
    &&& r.no_duplicates()
    &&& forall|i: int| 1 <= i < r.len() ==> #[trigger] has_earlier_relative(links, r, i)
    &&& forall|i: int| 0 <= i < r.len() ==> (#[trigger] parent_surface(links, r[i]) matches Some(p) ==> r.contains(p))
    &&& forall|i: int, l: int|
        0 <= i < r.len() && 0 <= l < links.len() && #[trigger] is_child(links, r[i], links[l]) ==> r.contains(
            links[l].surface_id,
        )
}

/// A sequence without repeats drawn from `u` is no longer than `u`.
proof fn lemma_nodup_within(a: Seq<u64>, u: Seq<u64>)
    requires
        a.no_duplicates(),
        forall|i: int| 0 <= i < a.len() ==> u.contains(#[trigger] a[i]),
    ensures
        a.len() <= u.len(),
{
    a.unique_seq_to_set();
    u.lemma_cardinality_of_set();
    assert(a.to_set().subset_of(u.to_set()));
    vstd::set_lib::lemma_len_subset(a.to_set(), u.to_set());
}

/// The candidates for a family member: `sid` and every window's surface.
spec fn universe(links: Seq<WindowLink>, sid: u64) -> Seq<u64> {
    seq![sid] + links.map_values(|l: WindowLink| l.surface_id)
}

/// `ord` with each window of `links[l..]` whose parent is toplevel `tid`
/// appended, in search order, unless `ord` already holds it.
pub open spec fn with_children_from(links: Seq<WindowLink>, ord: Seq<u64>, tid: u64, l: nat) -> Seq<u64>
    decreases links.len() - l,
{
    if l >= links.len() {
        ord
    } else {
        let c = links[l as int].surface_id;
        let next = if links[l as int].parent_id == Some(tid) && !ord.contains(c) {
            ord.push(c)
        } else {
            ord
        };
        with_children_from(links, next, tid, l + 1)
    }
}

/// `ord` with the children of the window of surface `cur` appended (see
/// `with_children_from`); unchanged when that window is unknown or has no
/// toplevel.
pub open spec fn with_children(links: Seq<WindowLink>, ord: Seq<u64>, cur: u64) -> Seq<u64> {
    let i = first_surface(links, cur);
    if i >= 0 {
        match links[i].toplevel_id {
            Some(tid) => with_children_from(links, ord, tid, 0),
            None => ord,
        }
    } else {
        ord
    }
}

/// `ord` with the parent of the window of surface `cur` appended, unless it
/// has none or `ord` already holds it.
pub open spec fn with_parent(links: Seq<WindowLink>, ord: Seq<u64>, cur: u64) -> Seq<u64> {
    match parent_surface(links, cur) {
        Some(p) => if ord.contains(p) { ord } else { ord.push(p) },
        None => ord,
    }
}

/// The breadth-first walk over descendants from position `idx` of `ord`, for
/// at most `fuel` entries: each entry in turn has its children appended.
pub open spec fn descendants_walk(links: Seq<WindowLink>, ord: Seq<u64>, idx: nat, fuel: nat) -> Seq<u64>
    decreases fuel,
{
    if fuel == 0 || idx >= ord.len() {
        ord
    } else {
        descendants_walk(links, with_children(links, ord, ord[idx as int]), idx + 1, (fuel - 1) as nat)
    }
}

/// `sid` and its descendants in the order the breadth-first walk meets them.
pub open spec fn descendants_bfs(links: Seq<WindowLink>, sid: u64) -> Seq<u64> {
    descendants_walk(links, seq![sid], 0, (links.len() + 1) as nat)
}

/// The breadth-first walk over the family from position `idx` of `ord`, for
/// at most `fuel` entries: each entry in turn has its parent, then its
/// children appended.
pub open spec fn family_walk(links: Seq<WindowLink>, ord: Seq<u64>, idx: nat, fuel: nat) -> Seq<u64>
    decreases fuel,
{
    if fuel == 0 || idx >= ord.len() {
        ord
    } else {
        let cur = ord[idx as int];
        family_walk(links, with_children(links, with_parent(links, ord, cur), cur), idx + 1, (fuel - 1) as nat)
    }
}

/// `sid` and every window linked to it in the order the breadth-first walk
/// meets them.
pub open spec fn family_bfs(links: Seq<WindowLink>, sid: u64) -> Seq<u64> {
    family_walk(links, seq![sid], 0, (links.len() + 1) as nat)
}

/// Whether `x` occurs in `v`.
pub fn contains_id(v: &Vec<u64>, x: u64) -> (r: bool)
    ensures
        r == v@.contains(x),
{
    let mut i: usize = 0;
    while i < v.len()
        invariant
            i <= v@.len(),
            forall|j: int| 0 <= j < i ==> v@[j] != x,
        decreases v@.len() - i,
    {
        if v[i] == x {
            return true;
        }
        i = i + 1;
    }
    false
}

/// `sid` and its descendants, breadth first, children in search order.
pub fn descendants_in(links: &Vec<WindowLink>, sid: u64) -> (r: Vec<u64>)
    ensures
        is_descendant_order(links@, sid, r@),
        r@ == descendants_bfs(links@, sid),
{
    let ghost u = universe(links@, sid);
    let mut ordered: Vec<u64> = Vec::new();
    ordered.push(sid);
    let mut index: usize = 0;
    proof {
        assert(u.contains(sid)) by { assert(u[0] == sid); }
    }
    while index < ordered.len()
        invariant
            u == universe(links@, sid),
            ordered@.len() >= 1,
            ordered@[0] == sid,
            ordered@.no_duplicates(),
            index <= ordered@.len(),
            forall|i: int| 0 <= i < ordered@.len() ==> u.contains(#[trigger] ordered@[i]),
            ordered@.len() <= links@.len() + 1,
            descendants_walk(links@, ordered@, index as nat, (links@.len() + 1 - index) as nat) == descendants_bfs(links@, sid),
            forall|i: int| 1 <= i < ordered@.len() ==> #[trigger] has_earlier_parent(links@, ordered@, i),
            forall|i: int, l: int|
                0 <= i < index && 0 <= l < links@.len() && #[trigger] is_child(links@, ordered@[i], links@[l]) ==> ordered@.contains(
                    links@[l].surface_id,
                ),
        decreases links@.len() + 1 - index,
    {
        let cur = ordered[index];
        let ghost ord0 = ordered@;
        proof {
            lemma_first_surface(links@, cur);
        }
        if let Some(i) = find_surface(links, cur) {
            if let Some(tid) = links[i].toplevel_id {
                let mut l: usize = 0;
                while l < links.len()
                    invariant
                        u == universe(links@, sid),
                        cur == ordered@[index as int],
                        index < ordered@.len(),
                        first_surface(links@, cur) == i,
                        0 <= i < links@.len(),
                        links@[i as int].toplevel_id == Some(tid),
                        l <= links@.len(),
                        ordered@.len() >= 1,
                        ordered@[0] == sid,
                        ordered@.no_duplicates(),
                        forall|k: int| 0 <= k < ordered@.len() ==> u.contains(#[trigger] ordered@[k]),
                        ordered@.len() <= links@.len() + 1,
                        with_children_from(links@, ordered@, tid, l as nat) == with_children_from(links@, ord0, tid, 0),
                        forall|k: int| 1 <= k < ordered@.len() ==> #[trigger] has_earlier_parent(links@, ordered@, k),
                        forall|k: int, m: int|
                            0 <= k < index && 0 <= m < links@.len() && #[trigger] is_child(links@, ordered@[k], links@[m]) ==> ordered@.contains(
                                links@[m].surface_id,
                            ),
                        forall|m: int| 0 <= m < l && #[trigger] is_child(links@, cur, links@[m]) ==> ordered@.contains(links@[m].surface_id),
                    decreases links@.len() - l,
                {
                    if links[l].parent_id.is_some() && links[l].parent_id.unwrap() == tid {
                        let c = links[l].surface_id;
                        if !contains_id(&ordered, c) {
                            let ghost old_ordered = ordered@;
                            ordered.push(c);
                            proof {
                                assert(is_child(links@, cur, links@[l as int]));
                                assert(is_child_surface(links@, old_ordered[index as int], c));
                                assert(u.contains(c)) by {
                                    assert(u[l + 1] == c);
                                }
                                assert forall|k: int| 1 <= k < ordered@.len() implies #[trigger] has_earlier_parent(links@, ordered@, k) by {
                                    if k == ordered@.len() - 1 {
                                        assert(ordered@[index as int] == cur);
                                        assert(ordered@[k] == c);
                                        assert(is_child_surface(links@, ordered@[index as int], ordered@[k]));
                                    } else {
                                        lemma_earlier_parent_push(links@, old_ordered, c, k);
                                    }
                                }
                                assert forall|k: int, m: int|
                                    0 <= k < index && 0 <= m < links@.len() && #[trigger] is_child(links@, ordered@[k], links@[m]) implies ordered@.contains(links@[m].surface_id) by {
                                    assert(ordered@[k] == old_ordered[k]);
                                    lemma_contains_push(old_ordered, c, links@[m].surface_id);
                                }
                                assert forall|m: int| 0 <= m <= l && #[trigger] is_child(links@, cur, links@[m]) implies ordered@.contains(links@[m].surface_id) by {
                                    if m == l {
                                        assert(ordered@[ordered@.len() - 1] == c);
                                    } else {
                                        lemma_contains_push(old_ordered, c, links@[m].surface_id);
                                    }
                                }
                                lemma_nodup_within(ordered@, u);
                                assert(u.len() == links@.len() + 1);
                            }
                        }
                    }
                    proof {
                        if !(links@[l as int].parent_id == Some(tid)) {
                            assert(!is_child(links@, cur, links@[l as int]));
                        }
                    }
                    l = l + 1;
                }
            }
        }
        proof {
            assert forall|m: int| 0 <= m < links@.len() && #[trigger] is_child(links@, ordered@[index as int], links@[m]) implies ordered@.contains(links@[m].surface_id) by {
                lemma_first_surface(links@, cur);
            }
            assert(ordered@ == with_children(links@, ord0, cur));
            assert(ord0[index as int] == cur);
        }
        index = index + 1;
    }
    ordered
}

/// `sid` and every window linked to it, breadth first: for each member,
/// its parent, then its children in search order.
pub fn family_in(links: &Vec<WindowLink>, sid: u64) -> (r: Vec<u64>)
    ensures
        is_family_order(links@, sid, r@),
        r@ == family_bfs(links@, sid),
{
    let ghost u = universe(links@, sid);
    let mut ordered: Vec<u64> = Vec::new();
    ordered.push(sid);
    let mut index: usize = 0;
    proof {
        assert(u.contains(sid)) by { assert(u[0] == sid); }
    }
    while index < ordered.len()
        invariant
            u == universe(links@, sid),
            ordered@.len() >= 1,
            ordered@[0] == sid,
            ordered@.no_duplicates(),
            index <= ordered@.len(),
            forall|i: int| 0 <= i < ordered@.len() ==> u.contains(#[trigger] ordered@[i]),
            ordered@.len() <= links@.len() + 1,
            family_walk(links@, ordered@, index as nat, (links@.len() + 1 - index) as nat) == family_bfs(links@, sid),
            forall|i: int| 1 <= i < ordered@.len() ==> #[trigger] has_earlier_relative(links@, ordered@, i),
            forall|i: int, l: int|
                0 <= i < index && 0 <= l < links@.len() && #[trigger] is_child(links@, ordered@[i], links@[l]) ==> ordered@.contains(
                    links@[l].surface_id,
                ),
            forall|i: int| 0 <= i < index ==> (#[trigger] parent_surface(links@, ordered@[i]) matches Some(p) ==> ordered@.contains(p)),
        decreases links@.len() + 1 - index,
    {
        let cur = ordered[index];
        let ghost ord0 = ordered@;
        proof {
            lemma_first_surface(links@, cur);
        }
        if let Some(p) = parent_of(links, cur) {
            if !contains_id(&ordered, p) {
                let ghost old_ordered = ordered@;
                ordered.push(p);
                proof {
                    let pi = first_surface(links@, cur);
                    let pid = links@[pi].parent_id->Some_0;
                    lemma_first_toplevel(links@, pid);
                    let pj = first_toplevel(links@, pid);
                    assert(links@[pj].surface_id == p);
                    assert(u.contains(p)) by {
                        assert(u[pj + 1] == p);
                    }
                    assert forall|k: int| 1 <= k < ordered@.len() implies #[trigger] has_earlier_relative(links@, ordered@, k) by {
                        if k == ordered@.len() - 1 {
                            assert(ordered@[index as int] == cur);
                            assert(ordered@[k] == p);
                            assert(related(links@, ordered@[index as int], ordered@[k]));
                        } else {
                            lemma_earlier_relative_push(links@, old_ordered, p, k);
                        }
                    }
                    assert forall|k: int, m: int|
                        0 <= k < index && 0 <= m < links@.len() && #[trigger] is_child(links@, ordered@[k], links@[m]) implies ordered@.contains(links@[m].surface_id) by {
                        assert(ordered@[k] == old_ordered[k]);
                        lemma_contains_push(old_ordered, p, links@[m].surface_id);
                    }
                    assert forall|k: int| 0 <= k < index implies (#[trigger] parent_surface(links@, ordered@[k]) matches Some(q) ==> ordered@.contains(q)) by {
                        assert(ordered@[k] == old_ordered[k]);
                        if let Some(q) = parent_surface(links@, ordered@[k]) {
                            lemma_contains_push(old_ordered, p, q);
                        }
                    }
                    assert(ordered@[ordered@.len() - 1] == p);
                    lemma_nodup_within(ordered@, u);
                    assert(u.len() == links@.len() + 1);
                }
            }
        }
        let ghost ord1 = ordered@;
        proof {
            assert(ord1 == with_parent(links@, ord0, cur));
        }
        if let Some(i) = find_surface(links, cur) {
            if let Some(tid) = links[i].toplevel_id {
                let mut l: usize = 0;
                while l < links.len()
                    invariant
                        u == universe(links@, sid),
                        cur == ordered@[index as int],
                        index < ordered@.len(),
                        first_surface(links@, cur) == i,
                        0 <= i < links@.len(),
                        links@[i as int].toplevel_id == Some(tid),
                        l <= links@.len(),
                        ordered@.len() >= 1,
                        ordered@[0] == sid,
                        ordered@.no_duplicates(),
                        forall|k: int| 0 <= k < ordered@.len() ==> u.contains(#[trigger] ordered@[k]),
                        ordered@.len() <= links@.len() + 1,
                        with_children_from(links@, ordered@, tid, l as nat) == with_children_from(links@, ord1, tid, 0),
                        forall|k: int| 1 <= k < ordered@.len() ==> #[trigger] has_earlier_relative(links@, ordered@, k),
                        forall|k: int, m: int|
                            0 <= k < index && 0 <= m < links@.len() && #[trigger] is_child(links@, ordered@[k], links@[m]) ==> ordered@.contains(
                                links@[m].surface_id,
                            ),
                        forall|m: int| 0 <= m < l && #[trigger] is_child(links@, cur, links@[m]) ==> ordered@.contains(links@[m].surface_id),
                        forall|k: int| 0 <= k < index ==> (#[trigger] parent_surface(links@, ordered@[k]) matches Some(p) ==> ordered@.contains(p)),
                        parent_surface(links@, cur) matches Some(p) ==> ordered@.contains(p),
                    decreases links@.len() - l,
                {
                    if links[l].parent_id.is_some() && links[l].parent_id.unwrap() == tid {
                        let c = links[l].surface_id;
                        if !contains_id(&ordered, c) {
                            let ghost old_ordered = ordered@;
                            ordered.push(c);
                            proof {
                                assert(is_child(links@, cur, links@[l as int]));
                                assert(is_child_surface(links@, old_ordered[index as int], c));
                                assert(u.contains(c)) by {
                                    assert(u[l + 1] == c);
                                }
                                assert forall|k: int| 1 <= k < ordered@.len() implies #[trigger] has_earlier_relative(links@, ordered@, k) by {
                                    if k == ordered@.len() - 1 {
                                        assert(ordered@[index as int] == cur);
                                        assert(ordered@[k] == c);
                                        assert(is_child_surface(links@, ordered@[index as int], ordered@[k]));
                                        assert(related(links@, ordered@[index as int], ordered@[k]));
                                    } else {
                                        lemma_earlier_relative_push(links@, old_ordered, c, k);
                                    }
                                }
                                assert forall|k: int, m: int|
                                    0 <= k < index && 0 <= m < links@.len() && #[trigger] is_child(links@, ordered@[k], links@[m]) implies ordered@.contains(links@[m].surface_id) by {
                                    assert(ordered@[k] == old_ordered[k]);
                                    lemma_contains_push(old_ordered, c, links@[m].surface_id);
                                }
                                assert forall|m: int| 0 <= m <= l && #[trigger] is_child(links@, cur, links@[m]) implies ordered@.contains(links@[m].surface_id) by {
                                    if m == l {
                                        assert(ordered@[ordered@.len() - 1] == c);
                                    } else {
                                        lemma_contains_push(old_ordered, c, links@[m].surface_id);
                                    }
                                }
                                assert forall|k: int| 0 <= k < index implies (#[trigger] parent_surface(links@, ordered@[k]) matches Some(q) ==> ordered@.contains(q)) by {
                                    assert(ordered@[k] == old_ordered[k]);
                                    if let Some(q) = parent_surface(links@, ordered@[k]) {
                                        lemma_contains_push(old_ordered, c, q);
                                    }
                                }
                                if let Some(q) = parent_surface(links@, cur) {
                                    lemma_contains_push(old_ordered, c, q);
                                }
                                lemma_nodup_within(ordered@, u);
                                assert(u.len() == links@.len() + 1);
                            }
                        }
                    }
                    proof {
                        if !(links@[l as int].parent_id == Some(tid)) {
                            assert(!is_child(links@, cur, links@[l as int]));
                        }
                    }
                    l = l + 1;
                }
            }
        }
        proof {
            assert forall|m: int| 0 <= m < links@.len() && #[trigger] is_child(links@, ordered@[index as int], links@[m]) implies ordered@.contains(links@[m].surface_id) by {
                lemma_first_surface(links@, cur);
            }
            assert(ordered@[index as int] == cur);
            assert(ordered@ == with_children(links@, ord1, cur));
            assert(ord0[index as int] == cur);
        }
        index = index + 1;
    }
    ordered
}

/// Two slot sequences hold windows with the same links, slot by slot.
pub open spec fn same_links_slots(a: Seq<Slot<Workspace>>, b: Seq<Slot<Workspace>>) -> bool {
    &&& a.len() == b.len()
    &&& forall|j: int| 0 <= j < a.len() ==> links_of(slot_windows(#[trigger] a[j])) == links_of(slot_windows(b[j]))
}

/// Two outputs hold windows with the same links, container by container.
pub open spec fn same_links_output(o1: OutputState, o2: OutputState) -> bool {
    &&& links_of(o1.background.windows@) == links_of(o2.background.windows@)
    &&& links_of(o1.bottom.windows@) == links_of(o2.bottom.windows@)
    &&& links_of(o1.top.windows@) == links_of(o2.top.windows@)
    &&& links_of(o1.overlay.windows@) == links_of(o2.overlay.windows@)
    &&& same_links_slots(o1.workspaces@, o2.workspaces@)
}

/// Same links slot by slot give the same links in workspace order.
pub proof fn lemma_ws_concat_links(a: Seq<Slot<Workspace>>, b: Seq<Slot<Workspace>>)
    requires
        same_links_slots(a, b),
    ensures
        links_of(ws_concat(a)) == links_of(ws_concat(b)),
    decreases a.len(),
{
    if a.len() > 0 {
        assert(same_links_slots(a.drop_last(), b.drop_last())) by {
            assert forall|j: int| 0 <= j < a.drop_last().len() implies links_of(slot_windows(#[trigger] a.drop_last()[j])) == links_of(slot_windows(b.drop_last()[j])) by {
                assert(a.drop_last()[j] == a[j]);
                assert(b.drop_last()[j] == b[j]);
            }
        }
        lemma_ws_concat_links(a.drop_last(), b.drop_last());
        lemma_links_concat(ws_concat(a.drop_last()), slot_windows(a.last()));
        lemma_links_concat(ws_concat(b.drop_last()), slot_windows(b.last()));
        assert(links_of(slot_windows(a[a.len() - 1])) == links_of(slot_windows(b[a.len() - 1])));
    }
}

/// Same links container by container give the same links for the output.
pub proof fn lemma_output_links(o1: OutputState, o2: OutputState)
    requires
        same_links_output(o1, o2),
    ensures
        links_of(output_flat(o1)) == links_of(output_flat(o2)),
{
    lemma_ws_concat_links(o1.workspaces@, o2.workspaces@);
    let p1 = o1.background.windows@ + o1.bottom.windows@;
    let p2 = o2.background.windows@ + o2.bottom.windows@;
    lemma_links_concat(o1.background.windows@, o1.bottom.windows@);
    lemma_links_concat(o2.background.windows@, o2.bottom.windows@);
    lemma_links_concat(p1, ws_concat(o1.workspaces@));
    lemma_links_concat(p2, ws_concat(o2.workspaces@));
    lemma_links_concat(p1 + ws_concat(o1.workspaces@), o1.top.windows@);
    lemma_links_concat(p2 + ws_concat(o2.workspaces@), o2.top.windows@);
    lemma_links_concat(p1 + ws_concat(o1.workspaces@) + o1.top.windows@, o1.overlay.windows@);
    lemma_links_concat(p2 + ws_concat(o2.workspaces@) + o2.top.windows@, o2.overlay.windows@);
}

/// Same links output by output give the same links overall.
pub proof fn lemma_outputs_links(a: Seq<OutputState>, b: Seq<OutputState>)
    requires
        a.len() == b.len(),
        forall|k: int| 0 <= k < a.len() ==> same_links_output(#[trigger] a[k], b[k]),
    ensures
        links_of(outputs_flat(a)) == links_of(outputs_flat(b)),
    decreases a.len(),
{
    if a.len() > 0 {
        assert forall|k: int| 0 <= k < a.drop_last().len() implies same_links_output(#[trigger] a.drop_last()[k], b.drop_last()[k]) by {
            assert(a.drop_last()[k] == a[k]);
            assert(b.drop_last()[k] == b[k]);
        }
        lemma_outputs_links(a.drop_last(), b.drop_last());
        lemma_output_links(a.last(), b.last());
        lemma_links_concat(outputs_flat(a.drop_last()), output_flat(a.last()));
        lemma_links_concat(outputs_flat(b.drop_last()), output_flat(b.last()));
    }
}

/// Replacing a window by one with the same link keeps every link.
pub proof fn lemma_replaced_links(old: Wm, new: Wm, loc: WindowLoc, w: WindowState)
    requires
        loc_valid(old, loc),
        replaced(old, new, loc, w),
        link_of(w) == link_of(window_at(old, loc)),
    ensures
        all_links(new) == all_links(old),
{
    assert forall|k: int| 0 <= k < old.outputs@.len() implies same_links_output(#[trigger] new.outputs@[k], old.outputs@[k]) by {
        if k == loc.output {
            let o = old.outputs@[k];
            let o2 = new.outputs@[k];
            let i = loc.index as int;
            match loc.layer {
                WindowLayer::Background => { assert(links_of(o2.background.windows@) =~= links_of(o.background.windows@)); },
                WindowLayer::Bottom => { assert(links_of(o2.bottom.windows@) =~= links_of(o.bottom.windows@)); },
                WindowLayer::Top => { assert(links_of(o2.top.windows@) =~= links_of(o.top.windows@)); },
                WindowLayer::Overlay => { assert(links_of(o2.overlay.windows@) =~= links_of(o.overlay.windows@)); },
                WindowLayer::Workspace(wi) => {
                    assert forall|j: int| 0 <= j < o2.workspaces@.len() implies links_of(slot_windows(#[trigger] o2.workspaces@[j])) == links_of(slot_windows(o.workspaces@[j])) by {
                        if j == wi {
                            assert(links_of(slot_windows(o2.workspaces@[j])) =~= links_of(slot_windows(o.workspaces@[j])));
                        }
                    }
                },
            }
        }
    }
    lemma_outputs_links(new.outputs@, old.outputs@);
}

} // verus!

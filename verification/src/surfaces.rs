//! Surface trees: each subsurface is attached to a parent surface, and a
//! surface lies below another when following parents from it reaches the
//! other. Input-method popups are found through these trees.

use vstd::prelude::*;

verus! {

/// A subsurface and the surface it is attached to.
#[derive(Clone, Copy, Debug, PartialEq, Eq, Structural)]
pub struct SubsurfaceLink {
    pub surface_id: u64,
    pub parent_id: u64,
}

/// The parent of surface `sid`: that of the first subsurface entry for it,
/// none when `sid` is no subsurface.
pub open spec fn sub_parent(subs: Seq<SubsurfaceLink>, sid: u64) -> Option<u64>
    decreases subs.len(),
{
    if subs.len() == 0 {
        None
    } else {
        match sub_parent(subs.drop_last(), sid) {
            Some(p) => Some(p),
            None => if subs.last().surface_id == sid {
                Some(subs.last().parent_id)
            } else {
                None
            },
        }
    }
}

/// The surface reached from `sid` by following parents `n` times, stopping
/// at a surface that is no subsurface.
pub open spec fn sub_ancestor(subs: Seq<SubsurfaceLink>, sid: u64, n: nat) -> u64
    decreases n,
{
    if n == 0 {
        sid
    } else {
        match sub_parent(subs, sid) {
            Some(p) => sub_ancestor(subs, p, (n - 1) as nat),
            None => sid,
        }
    }
}

/// Following parents from `sid` ends at a surface that is no subsurface.
pub open spec fn sub_chain_ends(subs: Seq<SubsurfaceLink>, sid: u64) -> bool {
    exists|n: nat| sub_parent(subs, #[trigger] sub_ancestor(subs, sid, n)) is None
}

/// `parent` is met within `n` steps of following parents from `child`.
pub open spec fn below_within(subs: Seq<SubsurfaceLink>, child: u64, parent: u64, n: nat) -> bool
    decreases n,
{
    if n == 0 {
        false
    } else {
        match sub_parent(subs, child) {
            Some(p) => p == parent || below_within(subs, p, parent, (n - 1) as nat),
            None => false,
        }
    }
}

/// `child` lies below `parent`: following parents from `child` meets `parent`.
pub open spec fn is_below(subs: Seq<SubsurfaceLink>, child: u64, parent: u64) -> bool {
    exists|n: nat| #[trigger] below_within(subs, child, parent, n)
}

/// The parent found at the first entry for the surface.
proof fn lemma_sub_parent(subs: Seq<SubsurfaceLink>, sid: u64)
    ensures
        sub_parent(subs, sid) is Some ==> exists|j: int| 0 <= j < subs.len() && subs[j].surface_id == sid
            && sub_parent(subs, sid) == Some(subs[j].parent_id)
            && forall|k: int| 0 <= k < j ==> (#[trigger] subs[k]).surface_id != sid,
        sub_parent(subs, sid) is None ==> forall|j: int| 0 <= j < subs.len() ==> (#[trigger] subs[j]).surface_id != sid,
    decreases subs.len(),
{
    if subs.len() > 0 {
        lemma_sub_parent(subs.drop_last(), sid);
        assert(forall|j: int| 0 <= j < subs.len() - 1 ==> subs.drop_last()[j] == subs[j]);
        if sub_parent(subs.drop_last(), sid) is Some {
            let j = choose|j: int| 0 <= j < subs.drop_last().len() && subs.drop_last()[j].surface_id == sid
                && sub_parent(subs.drop_last(), sid) == Some(subs.drop_last()[j].parent_id)
                && forall|k: int| 0 <= k < j ==> (#[trigger] subs.drop_last()[k]).surface_id != sid;
            assert(subs[j] == subs.drop_last()[j]);
        }
    }
}

/// Following parents one more step from the `n`-th ancestor.
proof fn lemma_sub_ancestor_step(subs: Seq<SubsurfaceLink>, sid: u64, n: nat)
    ensures
        sub_ancestor(subs, sid, n + 1) == match sub_parent(subs, sub_ancestor(subs, sid, n)) {
            Some(p) => p,
            None => sub_ancestor(subs, sid, n),
        },
    decreases n,
{
    reveal_with_fuel(sub_ancestor, 2);
    if n > 0 {
        match sub_parent(subs, sid) {
            Some(p) => lemma_sub_ancestor_step(subs, p, (n - 1) as nat),
            None => {},
        }
    }
}

/// Below `parent` from `child` whose parent is `p`, not `parent` itself:
/// the same as below `parent` from `p`.
proof fn lemma_below_step(subs: Seq<SubsurfaceLink>, child: u64, parent: u64, p: u64)
    requires
        sub_parent(subs, child) == Some(p),
        p != parent,
    ensures
        is_below(subs, child, parent) == is_below(subs, p, parent),
{
    if is_below(subs, child, parent) {
        let n = choose|n: nat| #[trigger] below_within(subs, child, parent, n);
        assert(below_within(subs, p, parent, (n - 1) as nat));
    }
    if is_below(subs, p, parent) {
        let n = choose|n: nat| #[trigger] below_within(subs, p, parent, n);
        assert(below_within(subs, child, parent, n + 1));
    }
}

/// The parent of surface `sid` by its first subsurface entry.
pub fn subsurface_parent(subs: &Vec<SubsurfaceLink>, sid: u64) -> (r: Option<u64>)
    ensures
        r == sub_parent(subs@, sid),
{
    proof {
        lemma_sub_parent(subs@, sid);
    }
    let mut i: usize = 0;
    while i < subs.len()
        invariant
            i <= subs@.len(),
            forall|j: int| 0 <= j < i ==> (#[trigger] subs@[j]).surface_id != sid,
            sub_parent(subs@, sid) is Some ==> exists|j: int| 0 <= j < subs@.len() && subs@[j].surface_id == sid
                && sub_parent(subs@, sid) == Some(subs@[j].parent_id)
                && forall|k: int| 0 <= k < j ==> (#[trigger] subs@[k]).surface_id != sid,
            sub_parent(subs@, sid) is None ==> forall|j: int| 0 <= j < subs@.len() ==> (#[trigger] subs@[j]).surface_id != sid,
        decreases subs@.len() - i,
    {
        if subs[i].surface_id == sid {
            return Some(subs[i].parent_id);
        }
        i = i + 1;
    }
    None
}

/// Whether surface `child_id` lies below surface `parent_id`: following
/// subsurface parents from `child_id` meets `parent_id`. The walk must come
/// to an end at a surface that is no subsurface.
pub fn is_child_of(subs: &Vec<SubsurfaceLink>, child_id: u64, parent_id: u64) -> (r: bool)
    requires
        sub_chain_ends(subs@, child_id),
    ensures
        r == is_below(subs@, child_id, parent_id),
{
    let ghost m = choose|m: nat| sub_parent(subs@, #[trigger] sub_ancestor(subs@, child_id, m)) is None;
    let mut cur = child_id;
    let ghost mut k: nat = 0;
    loop
        invariant
            cur == sub_ancestor(subs@, child_id, k),
            k <= m,
            sub_parent(subs@, sub_ancestor(subs@, child_id, m)) is None,
            is_below(subs@, child_id, parent_id) == is_below(subs@, cur, parent_id),
        decreases m - k,
    {
        match subsurface_parent(subs, cur) {
            Some(p) => {
                if p == parent_id {
                    proof {
                        assert(below_within(subs@, cur, parent_id, 1));
                    }
                    return true;
                }
                proof {
                    lemma_below_step(subs@, cur, parent_id, p);
                    lemma_sub_ancestor_step(subs@, child_id, k);
                    if k == m {
                        assert(false);
                    }
                    k = k + 1;
                }
                cur = p;
            },
            None => {
                proof {
                    assert forall|n: nat| !#[trigger] below_within(subs@, cur, parent_id, n) by {}
                }
                return false;
            },
        }
    }
}

/// Surface `sid` is one of the input-method popups `popups`, or lies below one.
pub open spec fn input_popup_hit(subs: Seq<SubsurfaceLink>, popups: Seq<u64>, sid: u64) -> bool {
    exists|i: int| #![trigger popups[i]] 0 <= i < popups.len() && (popups[i] == sid || is_below(subs, sid, popups[i]))
}

/// Whether surface `surface_id` belongs to an input-method popup: it is one
/// of `popups` or lies below one. The popups are tried in order; unless the
/// first is the surface itself, the walk up from the surface must come to
/// an end.
pub fn is_input_popup(subs: &Vec<SubsurfaceLink>, popups: &Vec<u64>, surface_id: u64) -> (r: bool)
    requires
        popups@.len() > 0 && popups@[0] != surface_id ==> sub_chain_ends(subs@, surface_id),
    ensures
        r == input_popup_hit(subs@, popups@, surface_id),
{
    let mut i: usize = 0;
    while i < popups.len()
        invariant
            i <= popups@.len(),
            popups@.len() > 0 && popups@[0] != surface_id ==> sub_chain_ends(subs@, surface_id),
            forall|j: int| #![trigger popups@[j]] 0 <= j < i ==> popups@[j] != surface_id && !is_below(subs@, surface_id, popups@[j]),
        decreases popups@.len() - i,
    {
        let p = popups[i];
        proof {
            if i > 0 {
                assert(popups@[0] != surface_id);
            }
        }
        if p == surface_id {
            proof {
                assert(popups@[i as int] == surface_id);
            }
            return true;
        }
        if is_child_of(subs, surface_id, p) {
            proof {
                assert(is_below(subs@, surface_id, popups@[i as int]));
            }
            return true;
        }
        i = i + 1;
    }
    false
}

} // verus!

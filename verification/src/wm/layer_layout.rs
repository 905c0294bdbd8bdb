//! Placing layer-shell surfaces on the screen and computing the area that
//! their exclusive zones leave to ordinary windows.
//!
//! Layers are laid out background, bottom, top, overlay, each bottom-most
//! window first. Each surface is placed inside the current free box (or the
//! whole screen when its exclusive zone is -1); a surface anchored to exactly
//! one edge (or to three edges) with a positive exclusive zone then shrinks
//! the free box from that edge.

use vstd::prelude::*;
use crate::geometry::Rect;
use crate::wm::floating::Wm;
use crate::slot_vec::Slot;
use crate::wm::types::{OutputState, WindowState, Workspace};

verus! {

/// Anchor bit: top edge.
pub const ANCHOR_TOP: u32 = 1;
/// Anchor bit: bottom edge.
pub const ANCHOR_BOTTOM: u32 = 2;
/// Anchor bit: left edge.
pub const ANCHOR_LEFT: u32 = 4;
/// Anchor bit: right edge.
pub const ANCHOR_RIGHT: u32 = 8;

/// Where a layer surface went, and the size it is told to take.
#[derive(Clone, Copy, Debug, PartialEq, Eq)]
pub struct LayerPlacement {
    pub surface_id: u64,
    pub x: i32,
    pub y: i32,
    pub w: i32,
    pub h: i32,
}

/// Whether `v` is a 32-bit signed value.
pub open spec fn in_i32(v: int) -> bool {
    i32::MIN <= v <= i32::MAX
}

/// Whether anchor set `a` includes edge `bit`.
pub open spec fn anchored(a: u32, bit: u32) -> bool {
    a & bit != 0
}

/// Number of bits set in `a`.
pub open spec fn popcount(a: nat) -> nat
    decreases a,
{
    if a == 0 {
        0
    } else {
        (a % 2) + popcount(a / 2)
    }
}

/// Half of `d`, rounded toward zero (integer division by two).
pub open spec fn trunc_half(d: int) -> int {
    if d >= 0 {
        d / 2
    } else {
        -((-d) / 2)
    }
}

/// The larger of `a` and 0.
pub open spec fn at_least_zero(a: int) -> int {
    if a > 0 {
        a
    } else {
        0
    }
}

/// The box a surface is placed in: the whole screen for exclusive zone -1,
/// otherwise the free box `b` (top, bottom, left, right).
pub open spec fn layer_box(b: (int, int, int, int), win: WindowState, sw: int, sh: int) -> (int, int, int, int) {
    if win.exclusive_zone == -1 {
        (0, sh, 0, sw)
    } else {
        b
    }
}

/// Height and vertical position of a surface in box `bx`.
pub open spec fn vertical(bx: (int, int, int, int), win: WindowState) -> (int, int) {
    let a = win.anchor;
    let (t, bo) = (bx.0, bx.1);
    if anchored(a, ANCHOR_TOP) && anchored(a, ANCHOR_BOTTOM) {
        (at_least_zero(bo - t - win.margin.0 - win.margin.2), t + win.margin.0)
    } else if anchored(a, ANCHOR_TOP) {
        (win.h as int, t + win.margin.0)
    } else if anchored(a, ANCHOR_BOTTOM) {
        (win.h as int, bo - win.h - win.margin.2)
    } else {
        (win.h as int, t + trunc_half(bo - t - win.h))
    }
}

/// Width and horizontal position of a surface in box `bx`.
pub open spec fn horizontal(bx: (int, int, int, int), win: WindowState) -> (int, int) {
    let a = win.anchor;
    let (l, r) = (bx.2, bx.3);
    if anchored(a, ANCHOR_LEFT) && anchored(a, ANCHOR_RIGHT) {
        (at_least_zero(r - l - win.margin.3 - win.margin.1), l + win.margin.3)
    } else if anchored(a, ANCHOR_LEFT) {
        (win.w as int, l + win.margin.3)
    } else if anchored(a, ANCHOR_RIGHT) {
        (win.w as int, r - win.w - win.margin.1)
    } else {
        (win.w as int, l + trunc_half(r - l - win.w))
    }
}

/// The free box after a surface with box `bx` claims its exclusive zone.
pub open spec fn next_bounds(b: (int, int, int, int), bx: (int, int, int, int), win: WindowState) -> (int, int, int, int) {
    let a = win.anchor;
    let z = win.exclusive_zone as int;
    let c = popcount(a as nat);
    if (c == 1 || c == 3) && z > 0 {
        if anchored(a, ANCHOR_TOP) && !anchored(a, ANCHOR_BOTTOM) {
            (bx.0 + z, b.1, b.2, b.3)
        } else if anchored(a, ANCHOR_BOTTOM) && !anchored(a, ANCHOR_TOP) {
            (b.0, bx.1 - z, b.2, b.3)
        } else if anchored(a, ANCHOR_LEFT) && !anchored(a, ANCHOR_RIGHT) {
            (b.0, b.1, bx.2 + z, b.3)
        } else if anchored(a, ANCHOR_RIGHT) && !anchored(a, ANCHOR_LEFT) {
            (b.0, b.1, b.2, bx.3 - z)
        } else {
            b
        }
    } else {
        b
    }
}

/// The free box after laying out `win` in free box `b`.
pub open spec fn step_bounds(b: (int, int, int, int), win: WindowState, sw: int, sh: int) -> (int, int, int, int) {
    if !win.is_layer_surface {
        b
    } else {
        next_bounds(b, layer_box(b, win, sw, sh), win)
    }
}

/// `win` after being laid out in free box `b`: anchoring to two opposite
/// edges stretches it (window size and geometry size).
pub open spec fn laid_window(b: (int, int, int, int), win: WindowState, sw: int, sh: int) -> WindowState {
    if !win.is_layer_surface {
        win
    } else {
        let bx = layer_box(b, win, sw, sh);
        let (h, _) = vertical(bx, win);
        let (w, _) = horizontal(bx, win);
        let a = win.anchor;
        let win1 = if anchored(a, ANCHOR_TOP) && anchored(a, ANCHOR_BOTTOM) {
            WindowState { h: h as i32, geometry: crate::geometry::Rect { h: h as i32, ..win.geometry }, ..win }
        } else {
            win
        };
        if anchored(a, ANCHOR_LEFT) && anchored(a, ANCHOR_RIGHT) {
            WindowState { w: w as i32, geometry: crate::geometry::Rect { w: w as i32, ..win1.geometry }, ..win1 }
        } else {
            win1
        }
    }
}

/// The placement of `win` in free box `b`.
pub open spec fn placement(b: (int, int, int, int), win: WindowState, sw: int, sh: int) -> LayerPlacement {
    let bx = layer_box(b, win, sw, sh);
    let (h, y) = vertical(bx, win);
    let (w, x) = horizontal(bx, win);
    LayerPlacement { surface_id: win.surface_id, x: x as i32, y: y as i32, w: w as i32, h: h as i32 }
}

/// Every 32-bit operation of laying out `win` in free box `b` stays in range.
pub open spec fn step_fits(b: (int, int, int, int), win: WindowState, sw: int, sh: int) -> bool {
    let bx = layer_box(b, win, sw, sh);
    let a = win.anchor;
    let m = win.margin;
    let (t, bo, l, r) = bx;
    let z = win.exclusive_zone as int;
    let c = popcount(a as nat);
    !win.is_layer_surface || {
        &&& (if anchored(a, ANCHOR_TOP) && anchored(a, ANCHOR_BOTTOM) {
            in_i32(bo - t) && in_i32(bo - t - m.0) && in_i32(bo - t - m.0 - m.2) && in_i32(t + m.0)
        } else if anchored(a, ANCHOR_TOP) {
            in_i32(t + m.0)
        } else if anchored(a, ANCHOR_BOTTOM) {
            in_i32(bo - win.h) && in_i32(bo - win.h - m.2)
        } else {
            in_i32(bo - t) && in_i32(bo - t - win.h) && in_i32(t + trunc_half(bo - t - win.h))
        })
        &&& (if anchored(a, ANCHOR_LEFT) && anchored(a, ANCHOR_RIGHT) {
            in_i32(r - l) && in_i32(r - l - m.3) && in_i32(r - l - m.3 - m.1) && in_i32(l + m.3)
        } else if anchored(a, ANCHOR_LEFT) {
            in_i32(l + m.3)
        } else if anchored(a, ANCHOR_RIGHT) {
            in_i32(r - win.w) && in_i32(r - win.w - m.1)
        } else {
            in_i32(r - l) && in_i32(r - l - win.w) && in_i32(l + trunc_half(r - l - win.w))
        })
        &&& ((c == 1 || c == 3) && z > 0) ==> (if anchored(a, ANCHOR_TOP) && !anchored(a, ANCHOR_BOTTOM) {
            in_i32(t + z)
        } else if anchored(a, ANCHOR_BOTTOM) && !anchored(a, ANCHOR_TOP) {
            in_i32(bo - z)
        } else if anchored(a, ANCHOR_LEFT) && !anchored(a, ANCHOR_RIGHT) {
            in_i32(l + z)
        } else if anchored(a, ANCHOR_RIGHT) && !anchored(a, ANCHOR_LEFT) {
            in_i32(r - z)
        } else {
            true
        })
    }
}

/// The free box after laying out the windows `ws` in order, starting from `b`.
pub open spec fn fold_bounds(b: (int, int, int, int), ws: Seq<WindowState>, sw: int, sh: int) -> (int, int, int, int)
    decreases ws.len(),
{
    if ws.len() == 0 {
        b
    } else {
        step_bounds(fold_bounds(b, ws.drop_last(), sw, sh), ws.last(), sw, sh)
    }
}

/// Every window of `ws` lays out within 32-bit range.
#[verifier::opaque]
pub open spec fn list_fits(b: (int, int, int, int), ws: Seq<WindowState>, sw: int, sh: int) -> bool {
    forall|i: int| 0 <= i < ws.len() ==> step_fits(fold_bounds(b, ws.take(i), sw, sh), #[trigger] ws[i], sw, sh)
}

/// The placements of the layer surfaces of `ws`, in order.
pub open spec fn list_placements(b: (int, int, int, int), ws: Seq<WindowState>, sw: int, sh: int) -> Seq<LayerPlacement>
    decreases ws.len(),
{
    if ws.len() == 0 {
        Seq::empty()
    } else {
        let before = list_placements(b, ws.drop_last(), sw, sh);
        if ws.last().is_layer_surface {
            before.push(placement(fold_bounds(b, ws.drop_last(), sw, sh), ws.last(), sw, sh))
        } else {
            before
        }
    }
}

/// `ws2` is `ws` laid out from free box `b`.
pub open spec fn list_laid(b: (int, int, int, int), ws: Seq<WindowState>, ws2: Seq<WindowState>, sw: int, sh: int) -> bool {
    &&& ws2.len() == ws.len()
    &&& forall|i: int| 0 <= i < ws.len() ==> #[trigger] ws2[i] == laid_window(fold_bounds(b, ws.take(i), sw, sh), ws[i], sw, sh)
}

/// Every value of free box `b` is a 32-bit value.
pub open spec fn bounds_in_i32(b: (int, int, int, int)) -> bool {
    in_i32(b.0) && in_i32(b.1) && in_i32(b.2) && in_i32(b.3)
}

/// The free boxes before each layer of `o` and after the last: background,
/// bottom, top, overlay.
pub open spec fn layer_bounds(o: OutputState, sw: int, sh: int) -> Seq<(int, int, int, int)> {
    let b0 = (0int, sh, 0int, sw);
    let b1 = fold_bounds(b0, o.background.windows@, sw, sh);
    let b2 = fold_bounds(b1, o.bottom.windows@, sw, sh);
    let b3 = fold_bounds(b2, o.top.windows@, sw, sh);
    let b4 = fold_bounds(b3, o.overlay.windows@, sw, sh);
    seq![b0, b1, b2, b3, b4]
}

/// Laying out the layers of `o` on an `sw` by `sh` screen stays within 32-bit range.
pub open spec fn layout_fits(o: OutputState, sw: int, sh: int) -> bool {
    let b = layer_bounds(o, sw, sh);
    &&& list_fits(b[0], o.background.windows@, sw, sh)
    &&& list_fits(b[1], o.bottom.windows@, sw, sh)
    &&& list_fits(b[2], o.top.windows@, sw, sh)
    &&& list_fits(b[3], o.overlay.windows@, sw, sh)
    &&& in_i32(b[4].3 - b[4].2)
    &&& in_i32(b[4].1 - b[4].0)
}

/// The area that the layers of `o` leave free.
pub open spec fn usable_area_of(o: OutputState, sw: int, sh: int) -> Rect {
    let b = layer_bounds(o, sw, sh)[4];
    Rect {
        x: b.2 as i32,
        y: b.0 as i32,
        w: at_least_zero(b.3 - b.2) as i32,
        h: at_least_zero(b.1 - b.0) as i32,
    }
}

/// A count of set bits never exceeds the number itself.
pub proof fn lemma_popcount_le(n: nat)
    ensures
        popcount(n) <= n,
    decreases n,
{
    if n > 0 {
        lemma_popcount_le(n / 2);
    }
}

/// Number of bits set in `a`.
pub fn bit_count(a: u32) -> (r: u32)
    ensures
        r == popcount(a as nat),
{
    let mut x: u32 = a;
    let mut c: u32 = 0;
    proof {
        lemma_popcount_le(a as nat);
    }
    while x > 0
        invariant
            c + popcount(x as nat) == popcount(a as nat),
            popcount(a as nat) <= a,
        decreases x,
    {
        proof {
            lemma_popcount_le(a as nat);
        }
        c = c + (x % 2);
        x = x / 2;
    }
    c
}

/// The free box `b` read as integers.
pub open spec fn bi(b: (i64, i64, i64, i64)) -> (int, int, int, int) {
    (b.0 as int, b.1 as int, b.2 as int, b.3 as int)
}

/// Laying out one window keeps the free box within 32-bit range.
pub proof fn lemma_step_bounds_in_i32(b: (int, int, int, int), win: WindowState, sw: int, sh: int)
    requires
        bounds_in_i32(b),
        0 <= sw <= u16::MAX,
        0 <= sh <= u16::MAX,
        step_fits(b, win, sw, sh),
    ensures
        bounds_in_i32(step_bounds(b, win, sw, sh)),
{
}

/// Height and vertical position of `win` in box `bx`, computed.
fn place_vertical(win: &WindowState, bx: (i64, i64, i64, i64)) -> (r: (i64, i64))
    requires
        bounds_in_i32(bi(bx)),
    ensures
        (r.0 as int, r.1 as int) == vertical(bi(bx), *win),
{
    let (bt, bb, _bl, _br) = bx;
    let a = win.anchor;
    let m0 = win.margin.0 as i64;
    let m2 = win.margin.2 as i64;
    if (a & ANCHOR_TOP) != 0 && (a & ANCHOR_BOTTOM) != 0 {
        let d = bb - bt - m0 - m2;
        let hh: i64 = if d > 0 { d } else { 0 };
        (hh, bt + m0)
    } else if (a & ANCHOR_TOP) != 0 {
        (win.h as i64, bt + m0)
    } else if (a & ANCHOR_BOTTOM) != 0 {
        (win.h as i64, bb - win.h as i64 - m2)
    } else {
        let d = bb - bt - win.h as i64;
        let half: i64 = if d >= 0 { d / 2 } else { -((-d) / 2) };
        (win.h as i64, bt + half)
    }
}

/// Width and horizontal position of `win` in box `bx`, computed.
fn place_horizontal(win: &WindowState, bx: (i64, i64, i64, i64)) -> (r: (i64, i64))
    requires
        bounds_in_i32(bi(bx)),
    ensures
        (r.0 as int, r.1 as int) == horizontal(bi(bx), *win),
{
    let (_bt, _bb, bl, br) = bx;
    let a = win.anchor;
    let m1 = win.margin.1 as i64;
    let m3 = win.margin.3 as i64;
    if (a & ANCHOR_LEFT) != 0 && (a & ANCHOR_RIGHT) != 0 {
        let d = br - bl - m3 - m1;
        let ww: i64 = if d > 0 { d } else { 0 };
        (ww, bl + m3)
    } else if (a & ANCHOR_LEFT) != 0 {
        (win.w as i64, bl + m3)
    } else if (a & ANCHOR_RIGHT) != 0 {
        (win.w as i64, br - win.w as i64 - m1)
    } else {
        let d = br - bl - win.w as i64;
        let half: i64 = if d >= 0 { d / 2 } else { -((-d) / 2) };
        (win.w as i64, bl + half)
    }
}

/// The free box after `win`, placed in box `bx`, claims its exclusive zone.
fn claim_zone(cur: (i64, i64, i64, i64), bx: (i64, i64, i64, i64), win: &WindowState) -> (r: (i64, i64, i64, i64))
    requires
        bounds_in_i32(bi(bx)),
        bounds_in_i32(bi(cur)),
    ensures
        bi(r) == next_bounds(bi(cur), bi(bx), *win),
{
    let a = win.anchor;
    let z = win.exclusive_zone as i64;
    let c = bit_count(a);
    if (c == 1 || c == 3) && z > 0 {
        if (a & ANCHOR_TOP) != 0 && (a & ANCHOR_BOTTOM) == 0 {
            (bx.0 + z, cur.1, cur.2, cur.3)
        } else if (a & ANCHOR_BOTTOM) != 0 && (a & ANCHOR_TOP) == 0 {
            (cur.0, bx.1 - z, cur.2, cur.3)
        } else if (a & ANCHOR_LEFT) != 0 && (a & ANCHOR_RIGHT) == 0 {
            (cur.0, cur.1, bx.2 + z, cur.3)
        } else if (a & ANCHOR_RIGHT) != 0 && (a & ANCHOR_LEFT) == 0 {
            (cur.0, cur.1, cur.2, bx.3 - z)
        } else {
            cur
        }
    } else {
        cur
    }
}

/// Lays out the windows of `v` in order from free box `b`, appending the
/// placements of its layer surfaces to `out`; answers the free box after.
#[verifier::spinoff_prover]
#[verifier::rlimit(40)]
fn layout_list(
    v: &mut Vec<WindowState>,
    b: (i64, i64, i64, i64),
    sw: i64,
    sh: i64,
    out: &mut Vec<LayerPlacement>,
) -> (r: (i64, i64, i64, i64))
    requires
        bounds_in_i32(bi(b)),
        0 <= sw <= u16::MAX,
        0 <= sh <= u16::MAX,
        list_fits(bi(b), old(v)@, sw as int, sh as int),
    ensures
        list_laid(bi(b), old(v)@, final(v)@, sw as int, sh as int),
        bi(r) == fold_bounds(bi(b), old(v)@, sw as int, sh as int),
        bounds_in_i32(bi(r)),
        final(out)@ == old(out)@ + list_placements(bi(b), old(v)@, sw as int, sh as int),
{
    let ghost orig = v@;
    let ghost out0 = out@;
    proof {
        reveal(list_fits);
    }
    let mut cur = b;
    let mut i: usize = 0;
    proof {
        assert(orig.take(0) =~= Seq::<WindowState>::empty());
    }
    while i < v.len()
        invariant
            0 <= sw <= u16::MAX,
            0 <= sh <= u16::MAX,
            bounds_in_i32(bi(b)),
            list_fits(bi(b), orig, sw as int, sh as int),
            v@.len() == orig.len(),
            i <= orig.len(),
            forall|j: int| 0 <= j < i ==> #[trigger] v@[j] == laid_window(fold_bounds(bi(b), orig.take(j), sw as int, sh as int), orig[j], sw as int, sh as int),
            forall|j: int| i <= j < orig.len() ==> #[trigger] v@[j] == orig[j],
            bi(cur) == fold_bounds(bi(b), orig.take(i as int), sw as int, sh as int),
            bounds_in_i32(bi(cur)),
            out@ == out0 + list_placements(bi(b), orig.take(i as int), sw as int, sh as int),
        decreases orig.len() - i,
    {
        let ghost pre = bi(cur);
        let ghost w0 = orig[i as int];
        proof {
            reveal(list_fits);
            assert(orig.take(i as int + 1).drop_last() =~= orig.take(i as int));
            assert(orig.take(i as int + 1).last() == w0);
            assert(step_fits(pre, w0, sw as int, sh as int));
        }
        let win = &mut v[i];
        if win.is_layer_surface {
            let bx = if win.exclusive_zone == -1 {
                (0i64, sh, 0i64, sw)
            } else {
                cur
            };
            let (hh, y) = place_vertical(win, bx);
            let (ww, x) = place_horizontal(win, bx);
            let a = win.anchor;
            if (a & ANCHOR_TOP) != 0 && (a & ANCHOR_BOTTOM) != 0 {
                win.h = hh as i32;
                win.geometry.h = hh as i32;
            }
            if (a & ANCHOR_LEFT) != 0 && (a & ANCHOR_RIGHT) != 0 {
                win.w = ww as i32;
                win.geometry.w = ww as i32;
            }
            out.push(LayerPlacement { surface_id: win.surface_id, x: x as i32, y: y as i32, w: win.w, h: win.h });
            cur = claim_zone(cur, bx, win);
        }
        proof {
            lemma_step_bounds_in_i32(pre, w0, sw as int, sh as int);
            assert(v@[i as int] == laid_window(pre, w0, sw as int, sh as int));
        }
        i = i + 1;
    }
    proof {
        assert(orig.take(orig.len() as int) =~= orig);
    }
    cur
}

/// Whether `v` is a 32-bit signed value.
fn fits32(v: i64) -> (r: bool)
    ensures
        r == in_i32(v as int),
{
    -2147483648 <= v && v <= 2147483647
}

/// Whether laying out `win` in free box `b` stays within 32-bit range (see `step_fits`).
fn step_fits_exec(b: (i64, i64, i64, i64), win: &WindowState, sw: i64, sh: i64) -> (r: bool)
    requires
        bounds_in_i32(bi(b)),
        0 <= sw <= u16::MAX,
        0 <= sh <= u16::MAX,
    ensures
        r == step_fits(bi(b), *win, sw as int, sh as int),
{
    if !win.is_layer_surface {
        return true;
    }
    let bx = if win.exclusive_zone == -1 {
        (0i64, sh, 0i64, sw)
    } else {
        b
    };
    let (t, bo, l, r) = bx;
    let a = win.anchor;
    let m0 = win.margin.0 as i64;
    let m1 = win.margin.1 as i64;
    let m2 = win.margin.2 as i64;
    let m3 = win.margin.3 as i64;
    let h = win.h as i64;
    let w = win.w as i64;
    let z = win.exclusive_zone as i64;
    let top = (a & ANCHOR_TOP) != 0;
    let bottom = (a & ANCHOR_BOTTOM) != 0;
    let left = (a & ANCHOR_LEFT) != 0;
    let right = (a & ANCHOR_RIGHT) != 0;
    let v_ok = if top && bottom {
        fits32(bo - t) && fits32(bo - t - m0) && fits32(bo - t - m0 - m2) && fits32(t + m0)
    } else if top {
        fits32(t + m0)
    } else if bottom {
        fits32(bo - h) && fits32(bo - h - m2)
    } else {
        let d = bo - t - h;
        let half: i64 = if d >= 0 { d / 2 } else { -((-d) / 2) };
        fits32(bo - t) && fits32(d) && fits32(t + half)
    };
    let h_ok = if left && right {
        fits32(r - l) && fits32(r - l - m3) && fits32(r - l - m3 - m1) && fits32(l + m3)
    } else if left {
        fits32(l + m3)
    } else if right {
        fits32(r - w) && fits32(r - w - m1)
    } else {
        let d = r - l - w;
        let half: i64 = if d >= 0 { d / 2 } else { -((-d) / 2) };
        fits32(r - l) && fits32(d) && fits32(l + half)
    };
    let c = bit_count(a);
    let z_ok = if (c == 1 || c == 3) && z > 0 {
        if top && !bottom {
            fits32(t + z)
        } else if bottom && !top {
            fits32(bo - z)
        } else if left && !right {
            fits32(l + z)
        } else if right && !left {
            fits32(r - z)
        } else {
            true
        }
    } else {
        true
    };
    v_ok && h_ok && z_ok
}

/// The free box after laying out `win` in free box `b`, when that stays
/// within 32-bit range.
fn check_step(b: (i64, i64, i64, i64), win: &WindowState, sw: i64, sh: i64) -> (r: Option<(i64, i64, i64, i64)>)
    requires
        bounds_in_i32(bi(b)),
        0 <= sw <= u16::MAX,
        0 <= sh <= u16::MAX,
    ensures
        match r {
            Some(n) => step_fits(bi(b), *win, sw as int, sh as int) && bi(n) == step_bounds(bi(b), *win, sw as int, sh as int)
                && bounds_in_i32(bi(n)),
            None => !step_fits(bi(b), *win, sw as int, sh as int),
        },
{
    if !step_fits_exec(b, win, sw, sh) {
        return None;
    }
    proof {
        lemma_step_bounds_in_i32(bi(b), *win, sw as int, sh as int);
    }
    if win.is_layer_surface {
        let bx = if win.exclusive_zone == -1 {
            (0i64, sh, 0i64, sw)
        } else {
            b
        };
        Some(claim_zone(b, bx, win))
    } else {
        Some(b)
    }
}

/// Whether laying out the windows of `v` in order from free box `b` stays
/// within 32-bit range; answers the free box after, when it does.
#[verifier::spinoff_prover]
#[verifier::rlimit(40)]
fn list_fits_exec(v: &Vec<WindowState>, b: (i64, i64, i64, i64), sw: i64, sh: i64) -> (r: Option<(i64, i64, i64, i64)>)
    requires
        bounds_in_i32(bi(b)),
        0 <= sw <= u16::MAX,
        0 <= sh <= u16::MAX,
    ensures
        match r {
            Some(e) => list_fits(bi(b), v@, sw as int, sh as int) && bi(e) == fold_bounds(bi(b), v@, sw as int, sh as int)
                && bounds_in_i32(bi(e)),
            None => !list_fits(bi(b), v@, sw as int, sh as int),
        },
{
    let mut cur = b;
    let mut i: usize = 0;
    proof {
        assert(v@.take(0) =~= Seq::<WindowState>::empty());
    }
    while i < v.len()
        invariant
            0 <= sw <= u16::MAX,
            0 <= sh <= u16::MAX,
            bounds_in_i32(bi(b)),
            i <= v@.len(),
            forall|j: int| 0 <= j < i ==> step_fits(fold_bounds(bi(b), v@.take(j), sw as int, sh as int), #[trigger] v@[j], sw as int, sh as int),
            bi(cur) == fold_bounds(bi(b), v@.take(i as int), sw as int, sh as int),
            bounds_in_i32(bi(cur)),
        decreases v@.len() - i,
    {
        let win = &v[i];
        proof {
            assert(v@.take(i as int + 1).drop_last() =~= v@.take(i as int));
            assert(v@.take(i as int + 1).last() == v@[i as int]);
        }
        match check_step(cur, win, sw, sh) {
            Some(n) => {
                cur = n;
            },
            None => {
                proof {
                    reveal(list_fits);
                }
                return None;
            },
        }
        i = i + 1;
    }
    proof {
        assert(v@.take(v@.len() as int) =~= v@);
        reveal(list_fits);
    }
    Some(cur)
}

/// `win` after the maximized-window refit to `usable`: a maximized window
/// that is not fullscreen takes the usable area's size.
pub open spec fn fit_maximized(win: WindowState, usable: Rect) -> WindowState {
    if win.maximized && !win.fullscreen {
        WindowState { w: usable.w, h: usable.h, ..win }
    } else {
        win
    }
}

/// Surfaces of `ws` that the refit resizes, in order.
pub open spec fn refit_ids(ws: Seq<WindowState>) -> Seq<u64>
    decreases ws.len(),
{
    if ws.len() == 0 {
        Seq::empty()
    } else {
        let r = refit_ids(ws.drop_last());
        if ws.last().maximized && !ws.last().fullscreen {
            r.push(ws.last().surface_id)
        } else {
            r
        }
    }
}

/// Surfaces of the workspaces `s` that the refit resizes, workspace by workspace.
pub open spec fn refit_ids_slots(s: Seq<Slot<Workspace>>) -> Seq<u64>
    decreases s.len(),
{
    if s.len() == 0 {
        Seq::empty()
    } else {
        refit_ids_slots(s.drop_last()) + match s.last() {
            Slot::Occupied(ws) => refit_ids(ws.windows@),
            Slot::Empty => Seq::empty(),
        }
    }
}

/// Surfaces of the outputs `os` that the refit resizes, output by output.
pub open spec fn refit_ids_outputs(os: Seq<OutputState>) -> Seq<u64>
    decreases os.len(),
{
    if os.len() == 0 {
        Seq::empty()
    } else {
        refit_ids_outputs(os.drop_last()) + refit_ids_slots(os.last().workspaces@)
    }
}

/// Slot `s2` is slot `s` with every window refit to `usable`.
pub open spec fn slot_refitted(s: Slot<Workspace>, s2: Slot<Workspace>, usable: Rect) -> bool {
    &&& (s2 is Occupied <==> s is Occupied)
    &&& s2 is Occupied ==> {
        &&& s2->Occupied_0.id == s->Occupied_0.id
        &&& s2->Occupied_0.windows@.len() == s->Occupied_0.windows@.len()
        &&& forall|i: int|
            0 <= i < s->Occupied_0.windows@.len() ==> #[trigger] s2->Occupied_0.windows@[i]
                == fit_maximized(s->Occupied_0.windows@[i], usable)
    }
}

/// `s2` is the workspaces `s` with every window refit to `usable`.
pub open spec fn slots_refitted(s: Seq<Slot<Workspace>>, s2: Seq<Slot<Workspace>>, usable: Rect) -> bool {
    &&& s2.len() == s.len()
    &&& forall|j: int| 0 <= j < s.len() ==> slot_refitted(#[trigger] s[j], s2[j], usable)
}

/// Refits the windows of `v` to `usable`, appending the ids of those resized to `ids`.
fn refit_windows(v: &mut Vec<WindowState>, usable: Rect, ids: &mut Vec<u64>)
    ensures
        final(v)@.len() == old(v)@.len(),
        forall|i: int| 0 <= i < old(v)@.len() ==> #[trigger] final(v)@[i] == fit_maximized(old(v)@[i], usable),
        final(ids)@ == old(ids)@ + refit_ids(old(v)@),
{
    let ghost orig = v@;
    let ghost ids0 = ids@;
    let mut i: usize = 0;
    proof {
        assert(orig.take(0) =~= Seq::<WindowState>::empty());
    }
    while i < v.len()
        invariant
            v@.len() == orig.len(),
            i <= orig.len(),
            forall|j: int| 0 <= j < i ==> #[trigger] v@[j] == fit_maximized(orig[j], usable),
            forall|j: int| i <= j < orig.len() ==> #[trigger] v@[j] == orig[j],
            ids@ == ids0 + refit_ids(orig.take(i as int)),
        decreases orig.len() - i,
    {
        proof {
            assert(orig.take(i as int + 1).drop_last() =~= orig.take(i as int));
        }
        let win = &mut v[i];
        if win.maximized && !win.fullscreen {
            win.w = usable.w;
            win.h = usable.h;
            ids.push(win.surface_id);
        }
        i = i + 1;
    }
    proof {
        assert(orig.take(orig.len() as int) =~= orig);
    }
}

/// Refits the windows of every workspace of `o` to its usable area.
fn refit_output(o: &mut OutputState, ids: &mut Vec<u64>)
    ensures
        slots_refitted(old(o).workspaces@, final(o).workspaces@, old(o).usable_area),
        *final(o) == (OutputState { workspaces: final(o).workspaces, ..*old(o) }),
        final(ids)@ == old(ids)@ + refit_ids_slots(old(o).workspaces@),
{
    let ghost orig = o.workspaces@;
    let ghost ids0 = ids@;
    let usable = o.usable_area;
    let n = o.workspaces.inner.len();
    let mut w: usize = 0;
    proof {
        assert(orig.take(0) =~= Seq::<Slot<Workspace>>::empty());
    }
    while w < n
        invariant
            n == orig.len(),
            w <= n,
            usable == old(o).usable_area,
            *o == (OutputState { workspaces: o.workspaces, ..*old(o) }),
            o.workspaces@.len() == n,
            orig == old(o).workspaces@,
            forall|j: int| w <= j < n ==> #[trigger] o.workspaces@[j] == orig[j],
            forall|j: int| 0 <= j < w ==> slot_refitted(#[trigger] orig[j], o.workspaces@[j], usable),
            ids@ == ids0 + refit_ids_slots(orig.take(w as int)),
        decreases n - w,
    {
        proof {
            assert(orig.take(w as int + 1).drop_last() =~= orig.take(w as int));
        }
        match &mut o.workspaces.inner[w] {
            Slot::Occupied(ws) => {
                refit_windows(&mut ws.windows, usable, ids);
            },
            Slot::Empty => {},
        }
        w = w + 1;
    }
    proof {
        assert(orig.take(n as int) =~= orig);
    }
}

/// Lays out the four layers of `out` and records the area they leave free.
fn layout_output(out: &mut OutputState, screen_size: (u16, u16), placements: &mut Vec<LayerPlacement>)
    requires
        layout_fits(*old(out), screen_size.0 as int, screen_size.1 as int),
    ensures
        ({
            let sw = screen_size.0 as int;
            let sh = screen_size.1 as int;
            let o = *old(out);
            let o2 = *final(out);
            let b = layer_bounds(o, sw, sh);
            &&& list_laid(b[0], o.background.windows@, o2.background.windows@, sw, sh)
            &&& list_laid(b[1], o.bottom.windows@, o2.bottom.windows@, sw, sh)
            &&& list_laid(b[2], o.top.windows@, o2.top.windows@, sw, sh)
            &&& list_laid(b[3], o.overlay.windows@, o2.overlay.windows@, sw, sh)
            &&& o2.usable_area == usable_area_of(o, sw, sh)
            &&& o2.id == o.id
            &&& o2.active_workspace == o.active_workspace
            &&& o2.workspaces == o.workspaces
            &&& final(placements)@ == old(placements)@ + list_placements(b[0], o.background.windows@, sw, sh)
                + list_placements(b[1], o.bottom.windows@, sw, sh) + list_placements(b[2], o.top.windows@, sw, sh)
                + list_placements(b[3], o.overlay.windows@, sw, sh)
        }),
{
    let sw = screen_size.0 as i64;
    let sh = screen_size.1 as i64;
    let b0 = (0i64, sh, 0i64, sw);
    let b1 = layout_list(&mut out.background.windows, b0, sw, sh, placements);
    let b2 = layout_list(&mut out.bottom.windows, b1, sw, sh, placements);
    let b3 = layout_list(&mut out.top.windows, b2, sw, sh, placements);
    let b4 = layout_list(&mut out.overlay.windows, b3, sw, sh, placements);
    let (u_top, u_bottom, u_left, u_right) = b4;
    let uw = u_right - u_left;
    let uh = u_bottom - u_top;
    out.usable_area = Rect {
        x: u_left as i32,
        y: u_top as i32,
        w: if uw > 0 { uw as i32 } else { 0 },
        h: if uh > 0 { uh as i32 } else { 0 },
    };
}

/// `new` is `old` with every output's workspace windows refit to that output's usable area.
pub open spec fn outputs_refitted(old: Seq<OutputState>, new: Seq<OutputState>) -> bool {
    &&& new.len() == old.len()
    &&& forall|k: int| 0 <= k < old.len() ==> {
        &&& slots_refitted(old[k].workspaces@, #[trigger] new[k].workspaces@, old[k].usable_area)
        &&& new[k] == (OutputState { workspaces: new[k].workspaces, ..old[k] })
    }
}

impl Wm {
    /// Resizes every maximized (not fullscreen) workspace window of every
    /// output to its output's usable area; answers their surfaces, output by output.
    fn refit_all(&mut self) -> (ids: Vec<u64>)
        ensures
            outputs_refitted(old(self).outputs@, final(self).outputs@),
            ids@ == refit_ids_outputs(old(self).outputs@),
            final(self).popups == old(self).popups,
            final(self).drag_target == old(self).drag_target,
            final(self).resize_state == old(self).resize_state,
            final(self).is_swiping == old(self).is_swiping,
            final(self).compaction_occurred == old(self).compaction_occurred,
    {
        let ghost mid_self = *self;
        let mut ids: Vec<u64> = Vec::new();
        proof {
            assert(mid_self.outputs@.take(0) =~= Seq::<OutputState>::empty());
        }
        let mut k: usize = 0;
        while k < self.outputs.len()
            invariant
                self.outputs@.len() == mid_self.outputs@.len(),
                k <= self.outputs@.len(),
                forall|j: int| k <= j < self.outputs@.len() ==> #[trigger] self.outputs@[j] == mid_self.outputs@[j],
                forall|j: int| 0 <= j < k ==> {
                    &&& slots_refitted(mid_self.outputs@[j].workspaces@, #[trigger] self.outputs@[j].workspaces@, mid_self.outputs@[j].usable_area)
                    &&& self.outputs@[j] == (OutputState { workspaces: self.outputs@[j].workspaces, ..mid_self.outputs@[j] })
                },
                ids@ == refit_ids_outputs(mid_self.outputs@.take(k as int)),
                self.popups == mid_self.popups,
                self.drag_target == mid_self.drag_target,
                self.resize_state == mid_self.resize_state,
                self.is_swiping == mid_self.is_swiping,
                self.compaction_occurred == mid_self.compaction_occurred,
            decreases self.outputs@.len() - k,
        {
            proof {
                assert(mid_self.outputs@.take(k as int + 1).drop_last() =~= mid_self.outputs@.take(k as int));
            }
            let out = &mut self.outputs[k];
            refit_output(out, &mut ids);
            k = k + 1;
        }
        proof {
            assert(mid_self.outputs@.take(mid_self.outputs@.len() as int) =~= mid_self.outputs@);
        }
        ids
    }

    /// Lays out the layer surfaces of the first output on an `sw` by `sh`
    /// screen, records the area left free as its usable area, and resizes
    /// every maximized (not fullscreen) workspace window of every output to its
    /// output's usable area. Answers the layer placements, in layout order,
    /// and the surfaces of the resized windows, output by output.
    pub fn recalculate_layer_layout(&mut self, screen_size: (u16, u16)) -> (r: (Vec<LayerPlacement>, Vec<u64>))
        requires
            old(self).wf(),
            old(self).outputs@.len() > 0 ==> layout_fits(
                old(self).outputs@[0],
                screen_size.0 as int,
                screen_size.1 as int,
            ),
        ensures
            final(self).wf(),
            old(self).outputs@.len() == 0 ==> *final(self) == *old(self) && r.0@.len() == 0 && r.1@.len() == 0,
            old(self).outputs@.len() > 0 ==> {
                let sw = screen_size.0 as int;
                let sh = screen_size.1 as int;
                let o = old(self).outputs@[0];
                let o2 = final(self).outputs@[0];
                let b = layer_bounds(o, sw, sh);
                let usable = usable_area_of(o, sw, sh);
                &&& list_laid(b[0], o.background.windows@, o2.background.windows@, sw, sh)
                &&& list_laid(b[1], o.bottom.windows@, o2.bottom.windows@, sw, sh)
                &&& list_laid(b[2], o.top.windows@, o2.top.windows@, sw, sh)
                &&& list_laid(b[3], o.overlay.windows@, o2.overlay.windows@, sw, sh)
                &&& o2.usable_area == usable
                &&& o2.id == o.id
                &&& o2.active_workspace == o.active_workspace
                &&& slots_refitted(o.workspaces@, o2.workspaces@, usable)
                &&& final(self).outputs@.len() == old(self).outputs@.len()
                &&& forall|k: int| 1 <= k < old(self).outputs@.len() ==> {
                    &&& slots_refitted(old(self).outputs@[k].workspaces@, #[trigger] final(self).outputs@[k].workspaces@, old(self).outputs@[k].usable_area)
                    &&& final(self).outputs@[k] == (OutputState { workspaces: final(self).outputs@[k].workspaces, ..old(self).outputs@[k] })
                }
                &&& r.0@ == list_placements(b[0], o.background.windows@, sw, sh) + list_placements(b[1], o.bottom.windows@, sw, sh)
                    + list_placements(b[2], o.top.windows@, sw, sh) + list_placements(b[3], o.overlay.windows@, sw, sh)
                &&& r.1@ == refit_ids_outputs(old(self).outputs@)
                &&& final(self).popups == old(self).popups
                &&& final(self).drag_target == old(self).drag_target
                &&& final(self).resize_state == old(self).resize_state
                &&& final(self).is_swiping == old(self).is_swiping
                &&& final(self).compaction_occurred == old(self).compaction_occurred
            },
    {
        let mut placements: Vec<LayerPlacement> = Vec::new();
        if self.outputs.len() == 0 {
            return (placements, Vec::new());
        }
        let ghost old_self = *self;
        {
            let out = &mut self.outputs[0];
            layout_output(out, screen_size, &mut placements);
        }
        let ghost mid_self = *self;
        proof {
            assert(placements@ =~= Seq::<LayerPlacement>::empty() + placements@);
            assert(mid_self.outputs@ =~= old_self.outputs@.update(0, mid_self.outputs@[0]));
        }
        let ids = self.refit_all();
        proof {
            lemma_refit_ids_outputs_same(old_self.outputs@, mid_self.outputs@);
            assert forall|j: int| 0 <= j < self.outputs@.len() implies (#[trigger] self.outputs@[j]).workspaces@.len() > 0 by {
                assert(slots_refitted(mid_self.outputs@[j].workspaces@, self.outputs@[j].workspaces@, mid_self.outputs@[j].usable_area));
            }
            let o2 = self.outputs@[0];
            assert(slots_refitted(mid_self.outputs@[0].workspaces@, o2.workspaces@, mid_self.outputs@[0].usable_area));
            assert forall|i: int| 0 <= i < o2.workspaces@.len() && #[trigger] o2.workspaces@[i] is Occupied implies o2.workspaces@[i]->Occupied_0.id == i by {
                assert(slot_refitted(mid_self.outputs@[0].workspaces@[i], o2.workspaces@[i], mid_self.outputs@[0].usable_area));
            }
            assert forall|k: int| 1 <= k < old_self.outputs@.len() implies #[trigger] mid_self.outputs@[k] == old_self.outputs@[k] by {}
        }
        (placements, ids)
    }
}

/// The refit ids depend only on the workspaces.
proof fn lemma_refit_ids_outputs_same(a: Seq<OutputState>, b: Seq<OutputState>)
    requires
        a.len() == b.len(),
        forall|j: int| 0 <= j < a.len() ==> (#[trigger] a[j]).workspaces == b[j].workspaces,
    ensures
        refit_ids_outputs(a) == refit_ids_outputs(b),
    decreases a.len(),
{
    if a.len() > 0 {
        lemma_refit_ids_outputs_same(a.drop_last(), b.drop_last());
    }
}

impl Wm {
    /// Whether laying out the layer surfaces of the first output on a
    /// screen of `screen_size` stays within 32-bit range (see
    /// `layout_fits`); always so without outputs.
    #[verifier::spinoff_prover]
    #[verifier::rlimit(40)]
    pub fn layer_layout_fits(&self, screen_size: (u16, u16)) -> (r: bool)
        ensures
            r == (self.outputs@.len() > 0 ==> layout_fits(self.outputs@[0], screen_size.0 as int, screen_size.1 as int)),
    {
        if self.outputs.len() == 0 {
            return true;
        }
        let out = &self.outputs[0];
        let sw = screen_size.0 as i64;
        let sh = screen_size.1 as i64;
        let b0 = (0i64, sh, 0i64, sw);
        let b1 = match list_fits_exec(&out.background.windows, b0, sw, sh) {
            Some(e) => e,
            None => return false,
        };
        let b2 = match list_fits_exec(&out.bottom.windows, b1, sw, sh) {
            Some(e) => e,
            None => return false,
        };
        let b3 = match list_fits_exec(&out.top.windows, b2, sw, sh) {
            Some(e) => e,
            None => return false,
        };
        let b4 = match list_fits_exec(&out.overlay.windows, b3, sw, sh) {
            Some(e) => e,
            None => return false,
        };
        proof {
            let lb = layer_bounds(*out, sw as int, sh as int);
            assert(bi(b0) == lb[0]);
            assert(bi(b1) == lb[1]);
            assert(bi(b2) == lb[2]);
            assert(bi(b3) == lb[3]);
            assert(bi(b4) == lb[4]);
        }
        fits32(b4.3 - b4.2) && fits32(b4.1 - b4.0)
    }
}

/// What a layer surface's exclusive zone takes from the free box. A surface
/// anchored to one edge, or to three (so that one edge is left over), with
/// a positive zone `z` reserves `z` along the edge it is anchored to alone,
/// measured from its box's edge: the free box's top, bottom, left or right
/// moves in by `z`, and nothing else changes. Any other surface leaves the
/// free box as it is.
pub proof fn law_exclusive_zone(b: (int, int, int, int), win: WindowState, sw: int, sh: int)
    requires
        win.is_layer_surface,
    ensures
        ({
            let a = win.anchor;
            let z = win.exclusive_zone as int;
            let bx = layer_box(b, win, sw, sh);
            let nb = step_bounds(b, win, sw, sh);
            let claims = (popcount(a as nat) == 1 || popcount(a as nat) == 3) && z > 0;
            let top = anchored(a, ANCHOR_TOP);
            let bottom = anchored(a, ANCHOR_BOTTOM);
            let left = anchored(a, ANCHOR_LEFT);
            let right = anchored(a, ANCHOR_RIGHT);
            &&& claims && top && !bottom ==> nb == (bx.0 + z, b.1, b.2, b.3)
            &&& claims && bottom && !top ==> nb == (b.0, bx.1 - z, b.2, b.3)
            &&& claims && left && !right && top == bottom ==> nb == (b.0, b.1, bx.2 + z, b.3)
            &&& claims && right && !left && top == bottom ==> nb == (b.0, b.1, b.2, bx.3 - z)
            &&& !claims ==> nb == b
        }),
{
}

/// Without the layer shell, nothing is reserved: a window that is no layer
/// surface leaves the free box as it is.
pub proof fn law_windows_reserve_nothing(b: (int, int, int, int), win: WindowState, sw: int, sh: int)
    requires
        !win.is_layer_surface,
    ensures
        step_bounds(b, win, sw, sh) == b,
{
}

/// A single dock anchored to the left edge alone, with a positive exclusive
/// zone `z`, leaves a usable area that starts `z` from the screen's left and
/// takes the rest of the width and all of the height.
pub proof fn law_left_dock_usable_area(o: OutputState, win: WindowState, sw: int, sh: int)
    requires
        o.background.windows@.len() == 0,
        o.bottom.windows@.len() == 0,
        o.top.windows@ == seq![win],
        o.overlay.windows@.len() == 0,
        win.is_layer_surface,
        win.anchor == ANCHOR_LEFT,
        win.exclusive_zone > 0,
        0 <= sw <= i32::MAX,
        0 <= sh <= i32::MAX,
    ensures
        usable_area_of(o, sw, sh).x as int == win.exclusive_zone as int,
        usable_area_of(o, sw, sh).y == 0,
        usable_area_of(o, sw, sh).w as int == at_least_zero(sw - win.exclusive_zone),
        usable_area_of(o, sw, sh).h as int == sh,
{
    let b0 = (0int, sh, 0int, sw);
    assert(fold_bounds(b0, o.background.windows@, sw, sh) == b0);
    assert(fold_bounds(b0, o.bottom.windows@, sw, sh) == b0);
    assert(o.top.windows@.drop_last() =~= Seq::<WindowState>::empty());
    assert(popcount(ANCHOR_LEFT as nat) == 1) by {
        reveal_with_fuel(popcount, 4);
    }
    assert(ANCHOR_LEFT & ANCHOR_TOP == 0) by (bit_vector);
    assert(ANCHOR_LEFT & ANCHOR_BOTTOM == 0) by (bit_vector);
    assert(ANCHOR_LEFT & ANCHOR_RIGHT == 0) by (bit_vector);
    assert(ANCHOR_LEFT & ANCHOR_LEFT != 0) by (bit_vector);
    let b3 = fold_bounds(b0, o.top.windows@, sw, sh);
    assert(o.top.windows@.last() == win);
    assert(fold_bounds(b0, o.top.windows@.drop_last(), sw, sh) == b0);
    assert(b3 == step_bounds(b0, win, sw, sh));
    assert(layer_box(b0, win, sw, sh) == b0);
    assert(popcount(win.anchor as nat) == 1);
    assert(!anchored(win.anchor, ANCHOR_TOP));
    assert(!anchored(win.anchor, ANCHOR_BOTTOM));
    assert(anchored(win.anchor, ANCHOR_LEFT));
    assert(!anchored(win.anchor, ANCHOR_RIGHT));
    assert(b3 == (0int, sh, win.exclusive_zone as int, sw));
    assert(fold_bounds(b3, o.overlay.windows@, sw, sh) == b3);
}

/// Where a layer surface is placed in its box (top, bottom, left, right):
/// anchored to the top it starts its top margin below the box's top;
/// anchored to the bottom alone it ends its bottom margin above the box's
/// bottom; anchored to both it fills the box between the margins (never
/// less than nothing); anchored to neither it is centred (rounding toward
/// the top). Across, the same with left and right.
pub proof fn law_layer_placement(b: (int, int, int, int), win: WindowState, sw: int, sh: int)
    ensures
        ({
            let p = placement(b, win, sw, sh);
            let (t, bo, l, r) = layer_box(b, win, sw, sh);
            let a = win.anchor;
            let (mt, mr, mb, ml) = (win.margin.0 as int, win.margin.1 as int, win.margin.2 as int, win.margin.3 as int);
            let (py, ph, px, pw) = (p.y as int, p.h as int, p.x as int, p.w as int);
            let (top, bottom, left, right) = (anchored(a, ANCHOR_TOP), anchored(a, ANCHOR_BOTTOM), anchored(a, ANCHOR_LEFT), anchored(a, ANCHOR_RIGHT));
            &&& p.surface_id == win.surface_id
            &&& in_i32(t + mt) && top ==> py == t + mt
            &&& in_i32(bo - win.h - mb) && bottom && !top ==> py == bo - win.h - mb && ph == win.h
            &&& in_i32(at_least_zero(bo - t - mt - mb)) && top && bottom ==> ph == at_least_zero(bo - t - mt - mb)
            &&& top && !bottom ==> ph == win.h
            &&& !top && !bottom ==> ph == win.h
            &&& in_i32(t + trunc_half(bo - t - win.h)) && !top && !bottom ==> py == t + trunc_half(bo - t - win.h)
            &&& in_i32(l + ml) && left ==> px == l + ml
            &&& in_i32(r - win.w - mr) && right && !left ==> px == r - win.w - mr && pw == win.w
            &&& in_i32(at_least_zero(r - l - ml - mr)) && left && right ==> pw == at_least_zero(r - l - ml - mr)
            &&& left && !right ==> pw == win.w
            &&& !left && !right ==> pw == win.w
            &&& in_i32(l + trunc_half(r - l - win.w)) && !left && !right ==> px == l + trunc_half(r - l - win.w)
        }),
{
}

/// A surface with exclusive zone -1 is placed in the whole screen, whatever
/// other surfaces reserved; any other surface in the free box.
pub proof fn law_layer_box(b: (int, int, int, int), win: WindowState, sw: int, sh: int)
    ensures
        win.exclusive_zone == -1 ==> layer_box(b, win, sw, sh) == (0int, sh, 0int, sw),
        win.exclusive_zone != -1 ==> layer_box(b, win, sw, sh) == b,
{
}

} // verus!

//! Placing a popup relative to its parent from an xdg positioner: the
//! anchor point on the anchor rectangle, and the direction the popup
//! extends from it. Keeping the popup on screen needs the parent's position,
//! which the embedding server keeps, and is done there.

use vstd::prelude::*;
use crate::wm::layer_layout::trunc_half;

verus! {

/// The point of the anchor rectangle a popup is placed at.
#[derive(Clone, Copy, Debug, PartialEq, Eq)]
pub enum Anchor {
    /// No edge (the protocol's `none`): the anchor point stays at the
    /// rectangle's origin.
    NoEdge,
    Top,
    Bottom,
    Left,
    Right,
    TopLeft,
    BottomLeft,
    TopRight,
    BottomRight,
}

/// The direction a popup extends from its anchor point.
#[derive(Clone, Copy, Debug, PartialEq, Eq)]
pub enum Gravity {
    /// Centred on the anchor point (the protocol's `none`).
    Center,
    Top,
    Bottom,
    Left,
    Right,
    TopLeft,
    BottomLeft,
    TopRight,
    BottomRight,
}

/// What a client set on an xdg positioner.
#[derive(Clone, Copy, Debug)]
pub struct PositionerData {
    /// Width and height of the popup.
    pub size: (i32, i32),
    /// x, y, width and height of the anchor rectangle, relative to the parent.
    pub anchor_rect: (i32, i32, i32, i32),
    pub offset: (i32, i32),
    pub anchor: Anchor,
    pub gravity: Gravity,
    /// The constraint adjustment bits.
    pub constraint_adjustment: u32,
}

impl Default for PositionerData {
    /// Nothing set: empty size and rectangle, no anchor edge, centred gravity, no adjustment.
    fn default() -> (r: Self)
        ensures
            r == (PositionerData {
                size: (0, 0),
                anchor_rect: (0, 0, 0, 0),
                offset: (0, 0),
                anchor: Anchor::NoEdge,
                gravity: Gravity::Center,
                constraint_adjustment: 0,
            }),
    {
        PositionerData {
            size: (0, 0),
            anchor_rect: (0, 0, 0, 0),
            offset: (0, 0),
            anchor: Anchor::NoEdge,
            gravity: Gravity::Center,
            constraint_adjustment: 0,
        }
    }
}

/// How far right of the rectangle's left edge the anchor point lies.
pub open spec fn anchor_dx(a: Anchor, w: int) -> int {
    match a {
        Anchor::TopRight | Anchor::Right | Anchor::BottomRight => w,
        Anchor::Top | Anchor::Bottom => trunc_half(w),
        _ => 0,
    }
}

/// How far below the rectangle's top edge the anchor point lies.
pub open spec fn anchor_dy(a: Anchor, h: int) -> int {
    match a {
        Anchor::BottomLeft | Anchor::Bottom | Anchor::BottomRight => h,
        Anchor::Left | Anchor::Right => trunc_half(h),
        _ => 0,
    }
}

/// How far left of the anchor point the popup's left edge lies.
pub open spec fn gravity_dx(g: Gravity, w: int) -> int {
    match g {
        Gravity::TopLeft | Gravity::Left | Gravity::BottomLeft => w,
        Gravity::Center | Gravity::Top | Gravity::Bottom => trunc_half(w),
        _ => 0,
    }
}

/// How far above the anchor point the popup's top edge lies.
pub open spec fn gravity_dy(g: Gravity, h: int) -> int {
    match g {
        Gravity::TopLeft | Gravity::Top | Gravity::TopRight => h,
        Gravity::Center | Gravity::Left | Gravity::Right => trunc_half(h),
        _ => 0,
    }
}

/// Whether `v` fits in an `i32`.
pub open spec fn fits_i32(v: int) -> bool {
    i32::MIN <= v <= i32::MAX
}

/// The popup's position relative to its parent, step by step: the anchor
/// rectangle's corner moved by the offset, then to the anchor point, then
/// back by the gravity. Each step's x and y.
pub open spec fn placement_steps(d: PositionerData) -> Seq<(int, int)> {
    let x0 = d.anchor_rect.0 + d.offset.0;
    let y0 = d.anchor_rect.1 + d.offset.1;
    let x1 = x0 + anchor_dx(d.anchor, d.anchor_rect.2 as int);
    let y1 = y0 + anchor_dy(d.anchor, d.anchor_rect.3 as int);
    let x2 = x1 - gravity_dx(d.gravity, d.size.0 as int);
    let y2 = y1 - gravity_dy(d.gravity, d.size.1 as int);
    seq![(x0, y0), (x1, y1), (x2, y2)]
}

/// Every step of the placement fits in an `i32`.
pub open spec fn placement_fits(d: PositionerData) -> bool {
    forall|i: int| 0 <= i < 3 ==> fits_i32((#[trigger] placement_steps(d)[i]).0) && fits_i32(placement_steps(d)[i].1)
}

/// Whether `v` is a 32-bit signed value.
fn fits32(v: i64) -> (r: bool)
    ensures
        r == fits_i32(v as int),
{
    -2147483648 <= v && v <= 2147483647
}

/// Half of `v`, rounded toward zero.
fn half64(v: i64) -> (r: i64)
    requires
        v > i64::MIN,
    ensures
        r == trunc_half(v as int),
{
    if v >= 0 {
        v / 2
    } else {
        -((-v) / 2)
    }
}

/// Whether placing a popup from `d` stays within 32-bit range (see `placement_steps`).
pub fn popup_placement_fits(d: &PositionerData) -> (r: bool)
    ensures
        r == placement_fits(*d),
{
    let x0 = d.anchor_rect.0 as i64 + d.offset.0 as i64;
    let y0 = d.anchor_rect.1 as i64 + d.offset.1 as i64;
    let w = d.anchor_rect.2 as i64;
    let h = d.anchor_rect.3 as i64;
    let adx: i64 = match d.anchor {
        Anchor::TopRight | Anchor::Right | Anchor::BottomRight => w,
        Anchor::Top | Anchor::Bottom => half64(w),
        _ => 0,
    };
    let ady: i64 = match d.anchor {
        Anchor::BottomLeft | Anchor::Bottom | Anchor::BottomRight => h,
        Anchor::Left | Anchor::Right => half64(h),
        _ => 0,
    };
    let sw = d.size.0 as i64;
    let sh = d.size.1 as i64;
    let gdx: i64 = match d.gravity {
        Gravity::TopLeft | Gravity::Left | Gravity::BottomLeft => sw,
        Gravity::Center | Gravity::Top | Gravity::Bottom => half64(sw),
        _ => 0,
    };
    let gdy: i64 = match d.gravity {
        Gravity::TopLeft | Gravity::Top | Gravity::TopRight => sh,
        Gravity::Center | Gravity::Left | Gravity::Right => half64(sh),
        _ => 0,
    };
    let x1 = x0 + adx;
    let y1 = y0 + ady;
    let x2 = x1 - gdx;
    let y2 = y1 - gdy;
    let ok0 = fits32(x0) && fits32(y0);
    let ok1 = fits32(x1) && fits32(y1);
    let ok2 = fits32(x2) && fits32(y2);
    proof {
        let st = placement_steps(*d);
        assert(st[0] == (x0 as int, y0 as int));
        assert(st[1] == (x1 as int, y1 as int));
        assert(st[2] == (x2 as int, y2 as int));
        if !ok0 {
            assert(!(fits_i32(placement_steps(*d)[0].0) && fits_i32(placement_steps(*d)[0].1)));
        } else if !ok1 {
            assert(!(fits_i32(placement_steps(*d)[1].0) && fits_i32(placement_steps(*d)[1].1)));
        } else if !ok2 {
            assert(!(fits_i32(placement_steps(*d)[2].0) && fits_i32(placement_steps(*d)[2].1)));
        }
    }
    ok0 && ok1 && ok2
}

/// Half of `v`, rounded toward zero, in 32 bits.
fn half(v: i32) -> (r: i32)
    ensures
        r == trunc_half(v as int),
{
    v / 2
}

/// The popup's position relative to its parent (see `placement_steps`),
/// before it is kept on screen.
pub fn place_popup(d: &PositionerData) -> (r: (i32, i32))
    requires
        placement_fits(*d),
    ensures
        r.0 == placement_steps(*d)[2].0,
        r.1 == placement_steps(*d)[2].1,
{
    proof {
        assert(fits_i32(placement_steps(*d)[0].0) && fits_i32(placement_steps(*d)[0].1));
        assert(fits_i32(placement_steps(*d)[1].0) && fits_i32(placement_steps(*d)[1].1));
        assert(fits_i32(placement_steps(*d)[2].0) && fits_i32(placement_steps(*d)[2].1));
    }
    let mut x = d.anchor_rect.0 + d.offset.0;
    let mut y = d.anchor_rect.1 + d.offset.1;
    match d.anchor {
        Anchor::TopRight | Anchor::Right | Anchor::BottomRight => {
            x = x + d.anchor_rect.2;
        },
        Anchor::Top | Anchor::Bottom => {
            x = x + half(d.anchor_rect.2);
        },
        _ => {},
    }
    match d.anchor {
        Anchor::BottomLeft | Anchor::Bottom | Anchor::BottomRight => {
            y = y + d.anchor_rect.3;
        },
        Anchor::Left | Anchor::Right => {
            y = y + half(d.anchor_rect.3);
        },
        _ => {},
    }
    match d.gravity {
        Gravity::TopLeft | Gravity::Left | Gravity::BottomLeft => {
            x = x - d.size.0;
        },
        Gravity::Center | Gravity::Top | Gravity::Bottom => {
            x = x - half(d.size.0);
        },
        _ => {},
    }
    match d.gravity {
        Gravity::TopLeft | Gravity::Top | Gravity::TopRight => {
            y = y - d.size.1;
        },
        Gravity::Center | Gravity::Left | Gravity::Right => {
            y = y - half(d.size.1);
        },
        _ => {},
    }
    (x, y)
}

/// Where the popup lands for positioner `d`.
pub open spec fn popup_position(d: PositionerData) -> (int, int) {
    placement_steps(d)[2]
}

/// With anchor `TopLeft` and gravity `BottomRight` the popup's top-left
/// corner sits on the anchor rectangle's top-left corner, moved by the
/// offset.
pub proof fn law_popup_corner(d: PositionerData)
    requires
        d.anchor == Anchor::TopLeft,
        d.gravity == Gravity::BottomRight,
    ensures
        popup_position(d) == (d.anchor_rect.0 + d.offset.0, d.anchor_rect.1 + d.offset.1),
{
}

/// The anchor point moves the popup from the rectangle's top-left corner:
/// across the full width for the right-hand anchors, half of it for `Top`
/// and `Bottom`; down the full height for the bottom anchors, half of it
/// for `Left` and `Right` (halves rounded toward zero); not at all
/// otherwise.
pub proof fn law_popup_anchor_point(d: PositionerData)
    ensures
        ({
            let (x, y) = popup_position(d);
            let (bx, by) = popup_position(PositionerData { anchor: Anchor::TopLeft, ..d });
            let w = d.anchor_rect.2 as int;
            let h = d.anchor_rect.3 as int;
            &&& (d.anchor == Anchor::TopRight || d.anchor == Anchor::Right || d.anchor == Anchor::BottomRight) ==> x == bx + w
            &&& (d.anchor == Anchor::Top || d.anchor == Anchor::Bottom) ==> x == bx + trunc_half(w)
            &&& (d.anchor == Anchor::NoEdge || d.anchor == Anchor::Left || d.anchor == Anchor::TopLeft
                || d.anchor == Anchor::BottomLeft) ==> x == bx
            &&& (d.anchor == Anchor::BottomLeft || d.anchor == Anchor::Bottom || d.anchor == Anchor::BottomRight) ==> y == by + h
            &&& (d.anchor == Anchor::Left || d.anchor == Anchor::Right) ==> y == by + trunc_half(h)
            &&& (d.anchor == Anchor::NoEdge || d.anchor == Anchor::Top || d.anchor == Anchor::TopLeft
                || d.anchor == Anchor::TopRight) ==> y == by
        }),
{
}

/// The anchor points in the middles of the left and right edges are at the
/// same height, and those in the middles of the top and bottom edges at the
/// same place across.
pub proof fn law_popup_edge_middles(d: PositionerData)
    ensures
        popup_position(PositionerData { anchor: Anchor::Left, ..d }).1 == popup_position(
            PositionerData { anchor: Anchor::Right, ..d },
        ).1,
        popup_position(PositionerData { anchor: Anchor::Left, ..d }).1 == popup_position(
            PositionerData { anchor: Anchor::TopLeft, ..d },
        ).1 + trunc_half(d.anchor_rect.3 as int),
        popup_position(PositionerData { anchor: Anchor::Top, ..d }).0 == popup_position(
            PositionerData { anchor: Anchor::Bottom, ..d },
        ).0,
        popup_position(PositionerData { anchor: Anchor::Top, ..d }).0 == popup_position(
            PositionerData { anchor: Anchor::TopLeft, ..d },
        ).0 + trunc_half(d.anchor_rect.2 as int),
{
}

/// The gravity moves the popup away from the anchor point: left by its full
/// width for the left-hand gravities, by half of it for `Center`, `Top` and
/// `Bottom`; up by its full height for the top gravities, by half of it
/// for `Center`, `Left` and `Right`; not at all otherwise (measured from
/// gravity `BottomRight`, where the anchor point is the popup's corner).
pub proof fn law_popup_gravity(d: PositionerData)
    ensures
        ({
            let (x, y) = popup_position(d);
            let (bx, by) = popup_position(PositionerData { gravity: Gravity::BottomRight, ..d });
            let w = d.size.0 as int;
            let h = d.size.1 as int;
            &&& (d.gravity == Gravity::TopLeft || d.gravity == Gravity::Left || d.gravity == Gravity::BottomLeft) ==> x == bx - w
            &&& (d.gravity == Gravity::Center || d.gravity == Gravity::Top || d.gravity == Gravity::Bottom) ==> x == bx - trunc_half(w)
            &&& (d.gravity == Gravity::Right || d.gravity == Gravity::TopRight || d.gravity == Gravity::BottomRight) ==> x == bx
            &&& (d.gravity == Gravity::TopLeft || d.gravity == Gravity::Top || d.gravity == Gravity::TopRight) ==> y == by - h
            &&& (d.gravity == Gravity::Center || d.gravity == Gravity::Left || d.gravity == Gravity::Right) ==> y == by - trunc_half(h)
            &&& (d.gravity == Gravity::Bottom || d.gravity == Gravity::BottomLeft || d.gravity == Gravity::BottomRight) ==> y == by
        }),
{
}

} // verus!

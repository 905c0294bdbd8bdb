use pattern::gpu::{decode_gamma, side_by_side};
use pattern::popup::{place_popup, popup_placement_fits, Anchor, Gravity, PositionerData};

fn positioner(anchor: Anchor, gravity: Gravity) -> PositionerData {
    PositionerData {
        size: (200, 300),
        anchor_rect: (10, 20, 100, 40),
        offset: (5, -5),
        anchor,
        gravity,
        constraint_adjustment: 0,
    }
}

#[test]
fn popup_below_a_menu_item() {
    let d = positioner(Anchor::BottomLeft, Gravity::BottomRight);
    assert_eq!(place_popup(&d), (15, 55));
}

#[test]
fn popup_without_an_anchor_edge_is_centred_on_the_rectangle_origin() {
    let d = positioner(Anchor::NoEdge, Gravity::Center);
    assert_eq!(place_popup(&d), (15 - 100, 15 - 150));
}

#[test]
fn popup_centred_below_the_middle_of_the_bottom_edge() {
    let d = positioner(Anchor::Bottom, Gravity::Bottom);
    assert_eq!(place_popup(&d), (15 + 50 - 100, 15 + 40));
}

#[test]
fn popup_to_the_left_of_a_right_anchor() {
    let d = positioner(Anchor::Right, Gravity::TopLeft);
    assert_eq!(place_popup(&d), (15 + 100 - 200, 15 + 20 - 300));
}

#[test]
fn popup_halves_round_toward_zero() {
    let d = PositionerData {
        size: (-3, 5),
        anchor_rect: (0, 0, -5, 7),
        offset: (0, 0),
        anchor: Anchor::Top,
        gravity: Gravity::Center,
        constraint_adjustment: 0,
    };
    assert_eq!(place_popup(&d), (-2 + 1, -2));
}

#[test]
fn default_positioner_is_centred_and_empty() {
    let d = PositionerData::default();
    assert_eq!(d.anchor, Anchor::NoEdge);
    assert_eq!(d.gravity, Gravity::Center);
    assert_eq!(place_popup(&d), (0, 0));
}

#[test]
fn gamma_ramps_come_red_green_blue() {
    let values: [u16; 6] = [1, 258, 3, 1024, 65535, 0];
    let mut bytes = Vec::new();
    for v in values {
        bytes.extend_from_slice(&v.to_ne_bytes());
    }
    let lut = decode_gamma(&bytes, 2).unwrap();
    assert_eq!(lut.len(), 2);
    assert_eq!((lut[0].red, lut[0].green, lut[0].blue, lut[0].reserved), (1, 3, 65535, 0));
    assert_eq!((lut[1].red, lut[1].green, lut[1].blue, lut[1].reserved), (258, 1024, 0, 0));
}

#[test]
fn gamma_table_of_no_entries_fails() {
    assert!(decode_gamma(&[], 0).is_none());
}

#[test]
fn ordinary_positioners_fit() {
    assert!(popup_placement_fits(&positioner(Anchor::BottomRight, Gravity::TopLeft)));
    assert!(popup_placement_fits(&PositionerData::default()));
}

#[test]
fn a_placement_past_the_coordinate_range_does_not_fit() {
    let d = PositionerData {
        size: (200, 300),
        anchor_rect: (i32::MAX - 10, 0, 100, 40),
        offset: (0, 0),
        anchor: Anchor::Right,
        gravity: Gravity::Right,
        constraint_adjustment: 0,
    };
    assert!(!popup_placement_fits(&d));
}

#[test]
fn outputs_are_laid_out_left_to_right() {
    assert_eq!(side_by_side(&vec![1920, 1280, 2560]), vec![0, 1920, 3200]);
    assert_eq!(side_by_side(&vec![]), Vec::<i32>::new());
    assert_eq!(side_by_side(&vec![u16::MAX, 7]), vec![0, 65535]);
}

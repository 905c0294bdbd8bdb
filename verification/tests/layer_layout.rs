use pattern::wm::floating::Wm;
use pattern::wm::layer_layout::{bit_count, LayerPlacement, ANCHOR_BOTTOM, ANCHOR_LEFT, ANCHOR_RIGHT, ANCHOR_TOP};
use pattern::wm::locate::WindowKey;

fn panel_setup() -> Wm {
    let mut wm = Wm::new();
    wm.map_layer_surface(20, 200, 2);
    wm.set_layer_surface_size(20, 0, 30);
    wm.set_layer_surface_anchor(20, ANCHOR_TOP | ANCHOR_LEFT | ANCHOR_RIGHT);
    wm.set_layer_surface_zone(20, 30);
    wm.map_layer_surface(21, 210, 1);
    wm.set_layer_surface_size(21, 400, 50);
    wm.set_layer_surface_anchor(21, ANCHOR_BOTTOM);
    wm.set_layer_surface_zone(21, 50);
    wm
}

#[test]
fn anchor_bits_and_counting() {
    assert_eq!((ANCHOR_TOP, ANCHOR_BOTTOM, ANCHOR_LEFT, ANCHOR_RIGHT), (1, 2, 4, 8));
    assert_eq!(bit_count(0), 0);
    assert_eq!(bit_count(13), 3);
    assert_eq!(bit_count(u32::MAX), 32);
}

#[test]
fn panels_reserve_their_exclusive_zones() {
    let mut wm = panel_setup();
    let (placements, refit) = wm.recalculate_layer_layout((1920, 1080));
    assert_eq!(
        placements,
        vec![
            LayerPlacement { surface_id: 21, x: 760, y: 1030, w: 400, h: 50 },
            LayerPlacement { surface_id: 20, x: 0, y: 0, w: 1920, h: 30 },
        ]
    );
    assert!(refit.is_empty());
    let u = wm.outputs[0].usable_area;
    assert_eq!((u.x, u.y, u.w, u.h), (0, 30, 1920, 1000));
    let bar = wm.find_window(WindowKey::Surface(20)).unwrap();
    assert_eq!((bar.w, bar.h, bar.geometry.w), (1920, 30, 1920));
}

#[test]
fn a_surface_with_zone_minus_one_takes_the_whole_screen_as_its_box() {
    let mut wm = panel_setup();
    wm.map_layer_surface(22, 220, 3);
    wm.set_layer_surface_size(22, 100, 100);
    wm.set_layer_surface_zone(22, -1);
    let (placements, _) = wm.recalculate_layer_layout((1920, 1080));
    assert_eq!(placements[2], LayerPlacement { surface_id: 22, x: 910, y: 490, w: 100, h: 100 });
}

#[test]
fn margins_push_anchored_surfaces_inward() {
    let mut wm = Wm::new();
    wm.map_layer_surface(30, 300, 0);
    wm.set_layer_surface_size(30, 200, 100);
    wm.set_layer_surface_anchor(30, ANCHOR_RIGHT | ANCHOR_BOTTOM);
    wm.set_layer_surface_margin(30, 1, 10, 20, 3);
    let (placements, _) = wm.recalculate_layer_layout((800, 600));
    assert_eq!(placements, vec![LayerPlacement { surface_id: 30, x: 800 - 200 - 10, y: 600 - 100 - 20, w: 200, h: 100 }]);
    let u = wm.outputs[0].usable_area;
    assert_eq!((u.x, u.y, u.w, u.h), (0, 0, 800, 600));
}

#[test]
fn maximized_windows_are_refit_to_the_usable_area() {
    let mut wm = panel_setup();
    wm.map_window(1, 10);
    wm.assign_toplevel(1, 100);
    let c = wm.set_maximized(100, true, (1920, 1080), 3).unwrap();
    assert_eq!((c.w, c.h, c.maximized), (0, 0, true));
    wm.ack_configure(1, 3);
    wm.apply_committed_configure(1, 0, 0);
    assert!(wm.find_window(WindowKey::Surface(1)).unwrap().maximized);
    let (_, refit) = wm.recalculate_layer_layout((1920, 1080));
    assert_eq!(refit, vec![1]);
    let w = wm.find_window(WindowKey::Surface(1)).unwrap();
    assert_eq!((w.w, w.h), (1920, 1000));
    let c = wm.set_maximized(100, false, (1920, 1080), 4).unwrap();
    assert_eq!((c.w, c.h, c.maximized), (800, 600, false));
}

#[test]
fn ordinary_panels_fit_the_screen() {
    let wm = panel_setup();
    assert!(wm.layer_layout_fits((1920, 1080)));
    assert!(Wm::new().layer_layout_fits((0, 0)));
}

#[test]
fn a_margin_that_pushes_a_surface_past_the_coordinate_range_does_not_fit() {
    let mut wm = Wm::new();
    wm.map_layer_surface(30, 300, 0);
    wm.set_layer_surface_size(30, 200, 100);
    wm.set_layer_surface_anchor(30, ANCHOR_RIGHT | ANCHOR_BOTTOM);
    wm.set_layer_surface_margin(30, 0, i32::MIN, 0, 0);
    assert!(!wm.layer_layout_fits((800, 600)));
}

use pattern::geometry::Rect;
use pattern::wm::configure::PositionStep;
use pattern::wm::floating::Wm;
use pattern::wm::focus::FocusConfigure;
use pattern::wm::locate::WindowKey;
use pattern::wm::types::PopupState;

fn active_ids(wm: &Wm) -> Vec<u64> {
    wm.get_workspace_windows().iter().map(|w| w.surface_id).collect()
}

fn wm_with_toplevels(n: u64) -> Wm {
    let mut wm = Wm::new();
    for i in 1..=n {
        wm.map_window(i, i as u32 * 10);
        wm.assign_toplevel(i, i * 100);
    }
    wm
}

#[test]
fn a_mapped_window_takes_focus_at_the_default_size() {
    let mut wm = Wm::new();
    wm.map_window(1, 10);
    let ws = wm.get_workspace_windows();
    assert_eq!(ws.len(), 1);
    assert_eq!((ws[0].surface_id, ws[0].protocol_id, ws[0].w, ws[0].h), (1, 10, 800, 600));
    assert_eq!((ws[0].geometry.w, ws[0].geometry.h), (800, 600));
    assert!(ws[0].toplevel_id.is_none() && !ws[0].is_layer_surface);
    assert_eq!(wm.get_focused_window(), Some(1));
    assert_eq!(wm.find_window(WindowKey::Protocol(10)).unwrap().surface_id, 1);
    assert!(wm.find_window(WindowKey::Surface(2)).is_none());
}

#[test]
fn toplevel_properties_are_set_through_the_toplevel_handle() {
    let mut wm = wm_with_toplevels(1);
    wm.set_window_title(100, "Terminal".to_string());
    wm.set_window_app_id(100, "foot".to_string());
    wm.set_window_ssd(100, true);
    wm.set_modal(100, true);
    wm.set_window_title(999, "ignored".to_string());
    let w = wm.find_window(WindowKey::Toplevel(100)).unwrap();
    assert_eq!(w.title.as_deref(), Some("Terminal"));
    assert_eq!(w.app_id.as_deref(), Some("foot"));
    assert!(w.ssd && w.modal);
    assert_eq!(wm.all_windows().len(), 1);
}

#[test]
fn surface_properties_are_set_through_the_surface_handle() {
    let mut wm = wm_with_toplevels(1);
    wm.refresh_window_dimensions(1, 640, 480);
    wm.ack_configure(1, 42);
    wm.set_window_geometry(1, Rect { x: 5, y: 6, w: 630, h: 470 });
    let w = wm.find_window(WindowKey::Surface(1)).unwrap();
    assert_eq!((w.w, w.h), (640, 480));
    assert_eq!(w.acknowledged_serial, Some(42));
    assert_eq!((w.geometry.x, w.geometry.y, w.geometry.w, w.geometry.h), (5, 6, 630, 470));
}

#[test]
fn focusing_a_window_raises_it() {
    let mut wm = wm_with_toplevels(3);
    assert_eq!(active_ids(&wm), vec![1, 2, 3]);
    assert_eq!(wm.get_focused_window(), Some(3));
    assert_eq!(wm.focus_window(1), 1);
    assert_eq!(active_ids(&wm), vec![2, 3, 1]);
    assert_eq!(wm.get_focused_window(), Some(1));
}

#[test]
fn focus_goes_to_the_first_transient_child_and_raises_the_family() {
    let mut wm = wm_with_toplevels(3);
    wm.set_window_parent(300, Some(100));
    assert_eq!(wm.get_root_parent_id(3), 1);
    assert_eq!(wm.get_root_parent_id(2), 2);
    assert_eq!(wm.get_descendants_ordered(1), vec![1, 3]);
    assert_eq!(wm.get_transient_group(3), vec![3, 1]);
    assert_eq!(wm.get_transient_group(2), vec![2]);
    assert_eq!(wm.focus_window(1), 3);
    assert_eq!(active_ids(&wm), vec![2, 1, 3]);
}

#[test]
fn focusing_a_popup_focuses_its_parent() {
    let mut wm = wm_with_toplevels(2);
    let popup = PopupState { surface_id: 50, parent_surface_id: 1, x: 3, y: 4, geometry: Rect { x: 0, y: 0, w: 10, h: 10 } };
    wm.map_popup(popup);
    assert_eq!(wm.popup_parent_of(50), Some(1));
    assert_eq!(wm.focus_window(50), 1);
    assert_eq!(active_ids(&wm), vec![2, 1]);
    wm.update_popup_position(50, 7, 8);
    let p = wm.get_popups();
    assert_eq!((p[0].x, p[0].y), (7, 8));
    wm.unmap_popup(50);
    assert!(wm.get_popups().is_empty());
}

#[test]
fn unmapping_removes_every_window_of_the_surface() {
    let mut wm = wm_with_toplevels(2);
    wm.unmap_window(2);
    assert_eq!(active_ids(&wm), vec![1]);
    assert!(wm.find_window(WindowKey::Surface(2)).is_none());
    assert_eq!(wm.get_focused_window(), Some(1));
    wm.unmap_window(1);
    assert_eq!(wm.get_focused_window(), None);
}

#[test]
fn minimizing_focuses_the_next_window_down() {
    let mut wm = wm_with_toplevels(3);
    assert_eq!(wm.set_minimized(300), Some(2));
    assert!(wm.find_window(WindowKey::Surface(3)).unwrap().minimized);
    assert_eq!(active_ids(&wm), vec![1, 3, 2]);
    assert_eq!(wm.set_minimized(200), Some(1));
    assert_eq!(wm.set_minimized(100), None);
    assert_eq!(wm.set_minimized(999), None);
}

#[test]
fn all_windows_marks_the_dragged_window() {
    let mut wm = wm_with_toplevels(2);
    let start = wm.begin_drag(1, (1920, 1080), 7);
    assert!(start.started);
    assert!(start.configures.is_empty());
    assert!(wm.is_dragging() && !wm.is_resizing());
    let all = wm.all_windows();
    assert_eq!(all.iter().map(|w| (w.surface_id, w.is_interacting)).collect::<Vec<_>>(), vec![(2, false), (1, true)]);
    wm.end_drag();
    assert!(!wm.is_dragging());
    assert!(!wm.begin_drag(9, (1920, 1080), 8).started);
}

#[test]
fn a_resize_ends_a_drag_and_the_other_way_round() {
    let mut wm = wm_with_toplevels(2);
    wm.set_window_geometry(1, Rect { x: 1, y: 2, w: 300, h: 200 });
    assert!(wm.begin_interactive_move(100, (1920, 1080), 1).started);
    assert!(wm.is_dragging());
    let start = wm.begin_interactive_resize(100, 4, (1920, 1080), 2);
    assert!(start.started);
    assert!(wm.is_resizing() && !wm.is_dragging());
    let rs = wm.resize_state.unwrap();
    assert_eq!((rs.surface_id, rs.edges, rs.start_geometry.w, rs.start_geometry.h), (1, 4, 300, 200));
    assert!(wm.begin_drag(2, (1920, 1080), 3).started);
    assert!(wm.is_dragging() && !wm.is_resizing());
    assert!(!wm.begin_interactive_resize(999, 4, (1920, 1080), 4).started);
}

#[test]
fn leaving_fullscreen_for_a_move_sends_a_configure() {
    let mut wm = wm_with_toplevels(1);
    let c = wm.set_fullscreen(100, true, (1920, 1080), 5).unwrap();
    assert_eq!((c.toplevel_id, c.w, c.h, c.fullscreen), (100, 1920, 1080, true));
    wm.ack_configure(1, 5);
    wm.apply_committed_configure(1, 1920, 1080);
    assert!(wm.find_window(WindowKey::Surface(1)).unwrap().fullscreen);
    let start = wm.begin_interactive_move(100, (1920, 1080), 6);
    assert!(start.started);
    assert_eq!(start.configures.len(), 2);
    for c in &start.configures {
        assert_eq!((c.toplevel_id, c.w, c.h, c.fullscreen, c.maximized), (100, 800, 600, false, false));
    }
    let sent = &wm.find_window(WindowKey::Surface(1)).unwrap().sent_configures;
    assert_eq!(sent.len(), 1);
    assert_eq!((sent[0].serial, sent[0].fullscreen, sent[0].w, sent[0].h), (6, false, 800, 600));
}

#[test]
fn input_focus_skips_layer_surfaces_without_keyboard_input() {
    let mut wm = wm_with_toplevels(2);
    wm.map_layer_surface(9, 90, 2);
    assert_eq!(wm.plan_input_focus(Some(1), Some(1)), None);
    let plan = wm.plan_input_focus(Some(1), Some(9)).unwrap();
    assert_eq!(plan.focus, None);
    assert_eq!(plan.activate, None);
    assert_eq!(
        plan.deactivate,
        Some(FocusConfigure { toplevel_id: 100, activated: false, maximized: false, fullscreen: false, w: 0, h: 0 })
    );
    let plan = wm.plan_input_focus(None, Some(2)).unwrap();
    assert_eq!(plan.focus, Some(2));
    assert_eq!(plan.deactivate, None);
    assert_eq!(
        plan.activate,
        Some(FocusConfigure { toplevel_id: 200, activated: true, maximized: false, fullscreen: false, w: 0, h: 0 })
    );
    wm.set_layer_keyboard_interactivity(9, 1);
    assert_eq!(wm.plan_input_focus(None, Some(9)).unwrap().focus, Some(9));
    assert_eq!(wm.get_focused_window(), Some(9));
}

#[test]
fn a_maximize_takes_effect_when_the_client_commits_its_acknowledgement() {
    let mut wm = wm_with_toplevels(1);
    wm.recalculate_layer_layout((1920, 1080));
    wm.set_window_geometry(1, Rect { x: 4, y: 6, w: 800, h: 600 });
    let c = wm.set_maximized(100, true, (1920, 1080), 7).unwrap();
    assert_eq!((c.w, c.h, c.maximized), (1920, 1080, true));
    assert!(!wm.find_window(WindowKey::Surface(1)).unwrap().maximized);
    wm.ack_configure(1, 7);
    let steps = wm.apply_committed_configure(1, 1920, 1080);
    assert_eq!(
        steps,
        vec![PositionStep::SaveCurrent, PositionStep::PlaceInArea { area_x: 0, area_y: 0, geom_x: 4, geom_y: 6 }]
    );
    let w = wm.find_window(WindowKey::Surface(1)).unwrap();
    assert!(w.maximized && !w.fullscreen);
    assert_eq!((w.w, w.h, w.saved_size), (1920, 1080, Some((800, 600))));
    assert!(w.acknowledged_serial.is_none());
}

#[test]
fn a_fullscreen_takes_effect_when_the_client_commits_its_acknowledgement() {
    let mut wm = wm_with_toplevels(1);
    wm.set_window_geometry(1, Rect { x: 4, y: 6, w: 800, h: 600 });
    wm.set_fullscreen(100, true, (1280, 720), 9).unwrap();
    wm.ack_configure(1, 9);
    let steps = wm.apply_committed_configure(1, 1280, 720);
    assert_eq!(steps, vec![PositionStep::SaveCurrent, PositionStep::MoveTo { x: -4, y: -6 }]);
    let w = wm.find_window(WindowKey::Surface(1)).unwrap();
    assert!(w.fullscreen && !w.maximized);
    assert_eq!((w.w, w.h, w.saved_size), (1280, 720, Some((800, 600))));
}

#[test]
fn leaving_maximize_gives_back_the_first_size() {
    let mut wm = wm_with_toplevels(1);
    wm.recalculate_layer_layout((1920, 1080));
    wm.set_maximized(100, true, (1920, 1080), 7).unwrap();
    wm.ack_configure(1, 7);
    wm.apply_committed_configure(1, 1920, 1080);
    let c = wm.set_maximized(100, false, (1920, 1080), 8).unwrap();
    assert_eq!((c.w, c.h, c.maximized), (800, 600, false));
    wm.ack_configure(1, 8);
    let steps = wm.apply_committed_configure(1, 800, 600);
    assert_eq!(steps, vec![PositionStep::RestoreSaved]);
    let w = wm.find_window(WindowKey::Surface(1)).unwrap();
    assert!(!w.maximized && !w.fullscreen);
    assert_eq!((w.w, w.h, w.saved_size), (800, 600, None));
}

#[test]
fn leaving_fullscreen_gives_back_the_first_size() {
    let mut wm = wm_with_toplevels(1);
    wm.set_fullscreen(100, true, (1280, 720), 9).unwrap();
    wm.ack_configure(1, 9);
    wm.apply_committed_configure(1, 1280, 720);
    let c = wm.set_fullscreen(100, false, (1280, 720), 10).unwrap();
    assert_eq!((c.w, c.h, c.fullscreen), (800, 600, false));
    wm.ack_configure(1, 10);
    let steps = wm.apply_committed_configure(1, 800, 600);
    assert_eq!(steps, vec![PositionStep::RestoreSaved]);
    let w = wm.find_window(WindowKey::Surface(1)).unwrap();
    assert!(!w.fullscreen && !w.maximized);
    assert_eq!((w.w, w.h, w.saved_size), (800, 600, None));
}

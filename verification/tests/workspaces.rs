use pattern::wm::floating::Wm;
use pattern::wm::swipe::{SwipeDirection, SwipeEnd, SwipeOffset};
use pattern::wm::types::{WorkspaceInsertPosition, INITIAL_WORKSPACES};

fn window_ids(wm: &Wm, ws: usize) -> Vec<u64> {
    wm.get_workspace_windows_by_id(ws).iter().map(|w| w.surface_id).collect()
}

#[test]
fn a_new_manager_has_ten_empty_workspaces() {
    let wm = Wm::new();
    assert_eq!(wm.outputs.len(), 1);
    assert_eq!(wm.outputs[0].workspaces.inner.len(), INITIAL_WORKSPACES);
    assert_eq!(INITIAL_WORKSPACES, 10);
    assert_eq!(wm.get_active_workspace(), 0);
    assert_eq!(wm.max_allowed_workspace(), 0);
    assert!(wm.get_workspace_windows().is_empty());
    assert!(!wm.is_dragging() && !wm.is_resizing() && !wm.is_workspace_swiping());
}

#[test]
fn the_next_workspace_needs_a_window_on_this_one() {
    let mut wm = Wm::new();
    assert!(!wm.focus_after_workspace());
    assert_eq!(wm.get_active_workspace(), 0);
    wm.map_window(1, 10);
    assert_eq!(wm.max_allowed_workspace(), 1);
    assert!(wm.focus_after_workspace());
    assert_eq!(wm.get_active_workspace(), 1);
    assert!(!wm.focus_after_workspace());
    assert!(wm.focus_before_workspace());
    assert_eq!(wm.get_active_workspace(), 0);
    assert!(!wm.focus_before_workspace());
}

#[test]
fn focus_workspace_stops_past_the_last_used_one() {
    let mut wm = Wm::new();
    assert!(!wm.focus_workspace(5));
    assert!(wm.focus_workspace(0));
    wm.map_window(1, 10);
    assert!(wm.focus_workspace(1));
    assert_eq!(wm.get_active_workspace(), 1);
    assert!(!wm.focus_workspace(2));
}

#[test]
fn ensure_workspace_grows_with_fresh_workspaces() {
    let mut wm = Wm::new();
    wm.ensure_workspace(12);
    assert_eq!(wm.outputs[0].workspaces.inner.len(), 13);
    for i in 10..13 {
        let ws = wm.outputs[0].workspaces.get(i).unwrap().unwrap_ref();
        assert_eq!(ws.id, i);
        assert!(ws.windows.is_empty());
    }
    wm.ensure_workspace(3);
    assert_eq!(wm.outputs[0].workspaces.inner.len(), 13);
}

#[test]
fn moving_a_window_compacts_the_workspaces() {
    let mut wm = Wm::new();
    wm.map_window(1, 10);
    wm.map_window(2, 20);
    assert!(wm.move_window_to_workspace(2, 0, 3));
    assert_eq!(window_ids(&wm, 0), vec![1]);
    assert_eq!(window_ids(&wm, 1), vec![2]);
    assert!(window_ids(&wm, 3).is_empty());
    assert_eq!(wm.get_workspace_id_for_window(2), Some(1));
    assert_eq!(wm.get_workspace_id_for_window(1), Some(0));
    assert_eq!(wm.get_workspace_id_for_window(9), None);
    assert!(!wm.take_compaction_occurred());
}

#[test]
fn moving_to_an_unknown_output_lands_on_the_active_workspace() {
    let mut wm = Wm::new();
    wm.map_window(1, 10);
    wm.map_window(2, 20);
    assert!(!wm.move_window_to_workspace(1, 7, 2));
    assert_eq!(window_ids(&wm, 0), vec![2, 1]);
    assert!(!wm.move_window_to_workspace(99, 0, 2));
}

#[test]
fn compaction_follows_the_active_workspace() {
    let mut wm = Wm::new();
    wm.map_window(1, 10);
    assert!(wm.move_window_to_workspace(1, 0, 2));
    assert_eq!(window_ids(&wm, 1), vec![1]);
    wm.map_window(2, 20);
    assert!(wm.focus_workspace(1));
    wm.map_window(3, 30);
    assert_eq!(window_ids(&wm, 1), vec![1, 3]);
    wm.unmap_window(1);
    wm.unmap_window(3);
    assert_eq!(wm.get_active_workspace(), 1);
    assert!(wm.focus_workspace(0));
    assert!(!wm.take_compaction_occurred());
}

#[test]
fn unmapping_the_last_window_before_the_active_one_moves_it() {
    let mut wm = Wm::new();
    wm.map_window(1, 10);
    assert!(wm.focus_workspace(1));
    wm.map_window(2, 20);
    assert!(wm.move_window_to_workspace(1, 0, 5));
    assert_eq!(wm.get_active_workspace(), 0);
    assert!(wm.take_compaction_occurred());
    assert!(!wm.take_compaction_occurred());
    assert_eq!(window_ids(&wm, 0), vec![2]);
    assert_eq!(window_ids(&wm, 1), vec![1]);
}

#[test]
fn workspaces_are_created_only_in_free_slots() {
    let mut wm = Wm::new();
    assert_eq!(wm.create_workspace(0, WorkspaceInsertPosition::After(9)), Some(10));
    assert_eq!(wm.outputs[0].workspaces.inner.len(), 11);
    assert_eq!(wm.create_workspace(0, WorkspaceInsertPosition::After(3)), None);
    assert_eq!(wm.create_workspace(0, WorkspaceInsertPosition::Before(3)), None);
    assert_eq!(wm.create_workspace(0, WorkspaceInsertPosition::Before(0)), None);
    assert_eq!(wm.create_workspace(4, WorkspaceInsertPosition::After(9)), None);
    assert!(!wm.delete_workspace(4, 3));
}

#[test]
fn deleting_a_workspace_empties_its_slot() {
    let mut wm = Wm::new();
    assert!(wm.delete_workspace(0, 5));
    assert!(wm.outputs[0].workspaces.inner[5].is_empty());
    for i in (0..5).chain(6..10) {
        assert!(!wm.outputs[0].workspaces.inner[i].is_empty());
    }
    assert!(!wm.delete_workspace(0, 10));
    assert!(!wm.delete_workspace(7, 0));
    assert_eq!(wm.outputs[0].workspaces.inner.len(), 10);
}

#[test]
fn a_swipe_back_from_the_first_workspace_is_reset() {
    let mut wm = Wm::new();
    assert_eq!(wm.update_workspace_swipe(SwipeDirection::TowardPrevious), SwipeOffset::Unchanged);
    wm.begin_workspace_swipe();
    assert!(wm.is_workspace_swiping());
    assert_eq!(wm.update_workspace_swipe(SwipeDirection::TowardPrevious), SwipeOffset::Reset);
    assert_eq!(wm.update_workspace_swipe(SwipeDirection::Still), SwipeOffset::Accept);
    assert_eq!(wm.update_workspace_swipe(SwipeDirection::TowardNext), SwipeOffset::Reset);
}

#[test]
fn a_swipe_forward_creates_the_next_workspace_and_ends_there() {
    let mut wm = Wm::new();
    wm.map_window(1, 10);
    wm.ensure_workspace(0);
    wm.begin_workspace_swipe();
    assert_eq!(wm.update_workspace_swipe(SwipeDirection::TowardNext), SwipeOffset::Accept);
    wm.end_workspace_swipe(SwipeEnd::Next);
    assert!(!wm.is_workspace_swiping());
    assert_eq!(wm.get_active_workspace(), 1);
    wm.begin_workspace_swipe();
    assert_eq!(wm.update_workspace_swipe(SwipeDirection::TowardPrevious), SwipeOffset::Accept);
    wm.end_workspace_swipe(SwipeEnd::Previous);
    assert_eq!(wm.get_active_workspace(), 0);
    wm.begin_workspace_swipe();
    wm.end_workspace_swipe(SwipeEnd::Stay);
    assert_eq!(wm.get_active_workspace(), 0);
    wm.end_workspace_swipe(SwipeEnd::Next);
    assert_eq!(wm.get_active_workspace(), 0);
}

#[test]
fn an_emptied_workspace_slot_is_refilled_or_dropped() {
    let mut wm = Wm::new();
    assert!(wm.delete_workspace(0, 3));
    wm.ensure_workspace(4);
    assert!(!wm.outputs[0].workspaces.inner[3].is_empty());
    assert_eq!(wm.get_workspace_windows_by_id(3).len(), 0);

    let mut wm = Wm::new();
    wm.map_window(1, 10);
    assert!(wm.delete_workspace(0, 2));
    wm.compact_workspaces();
    assert_eq!(wm.outputs[0].workspaces.inner.len(), 10);
    for i in 0..10 {
        assert!(!wm.outputs[0].workspaces.inner[i].is_empty());
    }
    assert_eq!(wm.get_workspace_id_for_window(1), Some(0));
}

#[test]
fn a_workspace_is_created_again_in_a_deleted_slot() {
    let mut wm = Wm::new();
    assert!(wm.delete_workspace(0, 4));
    assert_eq!(wm.create_workspace(0, WorkspaceInsertPosition::After(3)), Some(4));
    assert_eq!(wm.create_workspace(0, WorkspaceInsertPosition::Before(5)), None);
    assert!(!wm.outputs[0].workspaces.inner[4].is_empty());
}

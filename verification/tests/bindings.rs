use pattern::config::keybinds::{KeyPattern, KeySpec};
use pattern::config::{focus_command, fullscreen_command, move_command, CompositorCommand};
use pattern::input::bindings::{BindingAction, BindingStore, CommandEffect};
use pattern::input::Mods;
use pattern::wm::floating::Wm;

fn ctrl() -> Mods {
    Mods { alt: false, ctrl: true, shift: false, mod4: false }
}

fn is_fullscreen(c: &CompositorCommand, want: (Option<u32>, bool, bool)) -> bool {
    match c {
        CompositorCommand::FullscreenWindow { id, toggle, value } => (*id, *toggle, *value) == want,
        _ => false,
    }
}

#[test]
fn a_binding_reads_back_what_was_bound_last() {
    let mut store: BindingStore<&str> = BindingStore::new();
    let q = KeyPattern { mods: ctrl(), key: KeySpec::Keysym(0x71) };
    let code = KeyPattern { mods: ctrl(), key: KeySpec::Keycode(38) };
    assert_eq!(store.get(&q), None);
    store.insert(q, "quit");
    store.insert(code, "term");
    store.insert(q, "close");
    assert_eq!(store.get(&q), Some(&"close"));
    assert_eq!(store.get(&code), Some(&"term"));
    assert_eq!(store.entries.len(), 2);
    assert_eq!(store.get(&KeyPattern { mods: Mods::default(), key: KeySpec::Keysym(0x71) }), None);
}

#[test]
fn a_key_press_matches_its_keysym_before_its_keycode() {
    let mut store: BindingStore<u32> = BindingStore::new();
    store.insert(KeyPattern { mods: ctrl(), key: KeySpec::Keycode(38) }, 1);
    assert_eq!(store.binding_for_key(30, true, 0x61, ctrl()), Some(&1));
    store.insert(KeyPattern { mods: ctrl(), key: KeySpec::Keysym(0x61) }, 2);
    assert_eq!(store.binding_for_key(30, true, 0x61, ctrl()), Some(&2));
    assert_eq!(store.binding_for_key(30, false, 0x61, ctrl()), None);
    assert_eq!(store.binding_for_key(30, true, 0x61, Mods::default()), None);
    assert_eq!(store.binding_for_key(31, true, 0x62, ctrl()), None);
}

#[test]
fn script_options_build_commands() {
    assert!(is_fullscreen(&fullscreen_command(None, None, None), (None, true, false)));
    assert!(is_fullscreen(&fullscreen_command(Some(4), Some(true), None), (Some(4), false, true)));
    assert!(is_fullscreen(&fullscreen_command(None, Some(false), Some(true)), (None, true, false)));
    assert!(matches!(move_command(3, None), CompositorCommand::MoveWindowToWorkspace { id: None, workspace: 2 }));
    assert!(matches!(move_command(0, Some(5)), CompositorCommand::MoveWindowToWorkspace { id: Some(5), workspace: 0 }));
    assert!(matches!(
        focus_command(None, Some(2), None, None),
        CompositorCommand::FocusWorkspace { id: Some(1), next: false, previous: false }
    ));
    assert!(matches!(
        focus_command(Some(4), Some(2), Some(true), None),
        CompositorCommand::FocusWorkspace { id: Some(4), next: true, previous: false }
    ));
    assert!(matches!(focus_command(None, None, None, Some(true)), CompositorCommand::FocusWorkspace { id: None, next: false, previous: true }));
}

#[test]
fn commands_leave_the_server_its_part() {
    let mut wm = Wm::new();
    wm.map_window(1, 10);
    wm.assign_toplevel(1, 100);
    assert_eq!(wm.execute_command(&CompositorCommand::Quit), CommandEffect::Exit);
    assert_eq!(wm.execute_command(&CompositorCommand::Exec { full_sh_cmd: "foot".to_string() }), CommandEffect::Spawn);
    assert_eq!(wm.execute_command(&CompositorCommand::CloseWindow { id: Some(10) }), CommandEffect::CloseToplevel(100));
    assert_eq!(wm.execute_command(&CompositorCommand::CloseWindow { id: Some(11) }), CommandEffect::Done);
    assert_eq!(wm.execute_command(&CompositorCommand::CloseWindow { id: None }), CommandEffect::CloseActive);
    assert_eq!(
        wm.execute_command(&CompositorCommand::FullscreenWindow { id: None, toggle: true, value: false }),
        CommandEffect::Fullscreen { id: None, toggle: true, value: false }
    );
    assert_eq!(wm.execute_command(&CompositorCommand::DragWindow), CommandEffect::Done);
    assert_eq!(wm.execute_command(&CompositorCommand::ResizeWindow), CommandEffect::Done);
    assert_eq!(CommandEffect::Exit.binding_action(false), BindingAction::Exit);
    assert_eq!(CommandEffect::Spawn.binding_action(true), BindingAction::Handled);
    assert_eq!(CommandEffect::Spawn.binding_action(false), BindingAction::Unhandled);
    assert_eq!(CommandEffect::Done.binding_action(false), BindingAction::Handled);
}

#[test]
fn workspace_commands_move_focus_and_windows() {
    let mut wm = Wm::new();
    wm.map_window(1, 10);
    let next = CompositorCommand::FocusWorkspace { id: None, next: true, previous: false };
    assert_eq!(wm.execute_command(&next), CommandEffect::Refocus);
    assert_eq!(wm.get_active_workspace(), 1);
    assert_eq!(wm.execute_command(&next), CommandEffect::Done);
    let back = CompositorCommand::FocusWorkspace { id: Some(0), next: false, previous: false };
    assert_eq!(wm.execute_command(&back), CommandEffect::Refocus);
    assert_eq!(wm.execute_command(&CompositorCommand::FocusWorkspace { id: None, next: false, previous: false }), CommandEffect::Done);
    let mv = CompositorCommand::MoveWindowToWorkspace { id: None, workspace: 4 };
    assert_eq!(wm.execute_command(&mv), CommandEffect::Refocus);
    assert_eq!(wm.get_workspace_id_for_window(1), Some(1));
    assert_eq!(wm.get_active_workspace(), 0);
    assert_eq!(wm.execute_command(&mv), CommandEffect::Done);
    let mv_by_id = CompositorCommand::MoveWindowToWorkspace { id: Some(10), workspace: 0 };
    assert_eq!(wm.execute_command(&mv_by_id), CommandEffect::Refocus);
    assert_eq!(wm.get_workspace_id_for_window(1), Some(0));
}

#[test]
fn a_queued_move_follows_the_window() {
    let mut wm = Wm::new();
    wm.map_window(1, 10);
    wm.map_window(2, 20);
    let mv = CompositorCommand::MoveWindowToWorkspace { id: Some(20), workspace: 3 };
    assert_eq!(wm.execute_queued_command(&mv), CommandEffect::Refocus);
    assert_eq!(wm.get_workspace_id_for_window(2), Some(1));
    assert_eq!(wm.get_active_workspace(), 0);
    let mv = CompositorCommand::MoveWindowToWorkspace { id: Some(10), workspace: 1 };
    assert_eq!(wm.execute_queued_command(&mv), CommandEffect::Refocus);
    assert_eq!(wm.get_workspace_id_for_window(1), Some(1));
    assert_eq!(wm.get_active_workspace(), 1);
    assert_eq!(wm.execute_queued_command(&CompositorCommand::Quit), CommandEffect::Exit);
}

#[test]
fn a_fullscreen_request_toggles_the_window_state() {
    let mut wm = Wm::new();
    wm.map_window(1, 10);
    wm.assign_toplevel(1, 100);
    let c = wm.request_fullscreen_window(Some(10), None, true, false, (1280, 720), 1).unwrap().unwrap();
    assert_eq!((c.toplevel_id, c.w, c.h, c.fullscreen), (100, 1280, 720, true));
    assert!(wm.request_fullscreen_window(None, Some(1), false, false, (1280, 720), 2).unwrap().is_none());
    assert!(wm.request_fullscreen_window(None, None, true, false, (1280, 720), 3).is_none());
    assert!(wm.request_fullscreen_window(Some(99), None, true, false, (1280, 720), 4).is_none());
    wm.map_window(2, 20);
    assert!(wm.request_fullscreen_window(Some(20), None, true, false, (1280, 720), 5).is_none());
}

use pattern::draw_order::{base_layer, draw_key, window_draw_key};

#[test]
fn shell_layers_and_workspace_windows_stack_in_order() {
    assert_eq!(base_layer(false, 3), 2);
    assert_eq!((base_layer(true, 0), base_layer(true, 1), base_layer(true, 2), base_layer(true, 3), base_layer(true, 9)), (0, 1, 3, 4, 3));
    assert_eq!(draw_key(2, true), 4);
    assert_eq!(draw_key(2, false), 2);
    assert_eq!(draw_key(4, false), 5);
    assert_eq!(draw_key(7, true), 7);
}

#[test]
fn fullscreen_windows_cover_the_top_layer_but_not_the_overlay() {
    let fullscreen = window_draw_key(false, 0, true);
    assert!(fullscreen > window_draw_key(true, 2, false));
    assert!(fullscreen < window_draw_key(true, 3, false));
    assert_eq!(window_draw_key(true, 3, true), 5);
    assert_eq!(window_draw_key(false, 0, false), 2);
}

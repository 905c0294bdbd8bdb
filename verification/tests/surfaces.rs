use pattern::surfaces::{is_child_of, is_input_popup, subsurface_parent, SubsurfaceLink};

fn tree() -> Vec<SubsurfaceLink> {
    vec![
        SubsurfaceLink { surface_id: 5, parent_id: 3 },
        SubsurfaceLink { surface_id: 3, parent_id: 1 },
        SubsurfaceLink { surface_id: 7, parent_id: 1 },
        SubsurfaceLink { surface_id: 5, parent_id: 9 },
    ]
}

#[test]
fn the_first_entry_names_the_parent() {
    let subs = tree();
    assert_eq!(subsurface_parent(&subs, 5), Some(3));
    assert_eq!(subsurface_parent(&subs, 1), None);
}

#[test]
fn a_nested_subsurface_lies_below_every_ancestor() {
    let subs = tree();
    assert!(is_child_of(&subs, 5, 3));
    assert!(is_child_of(&subs, 5, 1));
    assert!(!is_child_of(&subs, 5, 9));
    assert!(!is_child_of(&subs, 5, 7));
    assert!(!is_child_of(&subs, 5, 5));
    assert!(!is_child_of(&subs, 1, 5));
}

#[test]
fn input_popups_and_what_lies_below_them() {
    let subs = tree();
    assert!(is_input_popup(&subs, &vec![8, 3], 3));
    assert!(is_input_popup(&subs, &vec![8, 3], 5));
    assert!(!is_input_popup(&subs, &vec![8, 3], 7));
    assert!(!is_input_popup(&subs, &vec![], 5));
}

#[test]
fn the_first_popup_itself_needs_no_walk() {
    let cycle = vec![
        SubsurfaceLink { surface_id: 2, parent_id: 4 },
        SubsurfaceLink { surface_id: 4, parent_id: 2 },
    ];
    assert!(is_input_popup(&cycle, &vec![2], 2));
}

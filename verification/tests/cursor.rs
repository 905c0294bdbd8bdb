use pattern::cursor::get_frame;

#[test]
fn the_frame_whose_slot_holds_the_time_shows() {
    let delays = vec![100, 50, 200];
    assert_eq!(get_frame(&delays, 350, 0), Some(0));
    assert_eq!(get_frame(&delays, 350, 99), Some(0));
    assert_eq!(get_frame(&delays, 350, 100), Some(1));
    assert_eq!(get_frame(&delays, 350, 149), Some(1));
    assert_eq!(get_frame(&delays, 350, 150), Some(2));
    assert_eq!(get_frame(&delays, 350, 349), Some(2));
    assert_eq!(get_frame(&delays, 350, 350 + 120), Some(1));
}

#[test]
fn still_and_empty_animations() {
    assert_eq!(get_frame(&vec![], 10, 5), None);
    assert_eq!(get_frame(&vec![0, 0], 0, 1234), Some(0));
    assert_eq!(get_frame(&vec![10, 10], 100, 50), Some(0));
}

use mega_clipboard::window::{
    can_place, set_auto_start, window_position, AutoStart, WIN_HEIGHT, WIN_WIDTH,
};

#[test]
fn size() {
    assert_eq!((WIN_WIDTH, WIN_HEIGHT), (650, 750));
}

#[test]
fn positions() {
    assert_eq!(window_position([0, 0, 1920, 1040]), (635, 280));
    assert_eq!(window_position([100, 0, 1021, 1000]), (235, 240));
    assert_eq!(window_position([0, 0, 647, 700]), (-1, -60));
    assert_eq!(window_position([0, 0, 0, 0]), (-325, -760));
}

#[test]
fn places() {
    assert!(can_place([0, 0, 1920, 1040]));
    assert!(can_place([0, 0, 0, 0]));
    assert!(!can_place([-1, 0, i32::MAX, 0]));
    assert!(!can_place([0, 0, i32::MIN, 0]));
    assert!(!can_place([0, 0, 0, i32::MIN]));
    assert!(can_place([0, 0, i32::MAX, i32::MAX]));
}

#[test]
fn start_with_the_system() {
    let path = || Some("C:\\mega.exe".to_string());
    assert_eq!(set_auto_start(true, path()), AutoStart::Enter("C:\\mega.exe".to_string()));
    assert_eq!(set_auto_start(true, None), AutoStart::Leave);
    assert_eq!(set_auto_start(false, path()), AutoStart::TakeOut);
    assert_eq!(set_auto_start(false, None), AutoStart::TakeOut);
}

use instant_desktop::monitor::{Monitor, Monitors, Rect};

fn sample() -> Monitor {
    Monitor::from_geometry(1, Rect::new(-1920, -8, 0, 1072), Rect::new(-1920, -8, 0, 1032))
}

#[test]
fn getters_read_both_rectangles() {
    let m = sample();
    assert_eq!(m.id(), 1);
    assert_eq!((m.left(), m.top(), m.right(), m.bottom()), (-1920, -8, 0, 1072));
    assert_eq!((m.width(), m.height()), (1920, 1080));
    assert_eq!((m.work_left(), m.work_top(), m.work_right(), m.work_bottom()), (-1920, -8, 0, 1032));
    assert_eq!((m.work_width(), m.work_height()), (1920, 1040));
}

#[test]
fn new_monitor_has_empty_geometry() {
    let m = Monitor::new(3);
    assert_eq!(m.id(), 3);
    assert_eq!((m.width(), m.height(), m.work_width(), m.work_height()), (0, 0, 0, 0));
}

#[test]
fn info_str_gives_size_and_corners() {
    let m = Monitor::from_geometry(1, Rect::new(0, 0, 1920, 1080), Rect::new(0, 0, 1920, 1040));
    assert_eq!(m.info_str(), "1: 1920 x 1080; (0, 0, 1919, 1079)");
    assert_eq!(sample().info_str(), "1: 1920 x 1080; (-1920, -8, -1, 1071)");
}

#[test]
fn info_text_puts_one_monitor_per_line() {
    let mut ms = Monitors::new();
    ms.add(Monitor::from_geometry(0, Rect::new(0, 0, 10, 20), Rect::new(0, 0, 10, 20)));
    ms.add(Monitor::from_geometry(4, Rect::new(10, 0, 30, 20), Rect::new(10, 0, 30, 20)));
    assert_eq!(ms.info_text(), "0: 10 x 20; (0, 0, 9, 19)\n4: 20 x 20; (10, 0, 29, 19)");
    assert_eq!(Monitors::new().info_text(), "");
}

#[test]
fn frame_follows_fullscreen_setting() {
    let m = sample();
    assert_eq!(m.frame(true), Rect::new(-1920, -8, 0, 1072));
    assert_eq!(m.frame(false), Rect::new(-1920, -8, 0, 1032));
    assert_eq!(m.frame(false).height(), 1040);
    assert_eq!(m.frame(true).width(), 1920);
}

#[test]
fn monitors_find_by_id() {
    let mut ms = Monitors::new();
    ms.add(Monitor::new(0));
    ms.add(sample());
    assert_eq!(ms.len(), 2);
    assert_eq!(ms.ids(), vec![0, 1]);
    assert_eq!(ms.find(1).map(|m| m.left()), Some(-1920));
    assert!(ms.find(2).is_none());
    assert_eq!(ms.position(1), Some(1));
    assert_eq!(ms.get(0).id(), 0);
    assert_eq!(ms.list().len(), 2);
}

#[test]
fn extreme_rectangle_reports_its_size() {
    let r = Rect::new(i32::MIN, i32::MIN, -1, -1);
    assert_eq!(r.width(), i32::MAX);
    let m = Monitor::from_geometry(u32::MAX, r, r);
    assert_eq!(
        m.info_str(),
        "4294967295: 2147483647 x 2147483647; (-2147483648, -2147483648, -2, -2)"
    );
}

use instant_desktop::monitor::Rect;
use instant_desktop::topology::{resolve, DisplayDevice, DisplayGeometry};

fn wide(s: &str) -> Vec<u16> {
    s.encode_utf16().collect()
}

fn device(name: &str, active: bool, has_context: bool) -> DisplayDevice {
    DisplayDevice { name: wide(name), active, has_context }
}

fn geometry(name: &str, left: i32, work_bottom: i32) -> DisplayGeometry {
    DisplayGeometry {
        device_name: wide(name),
        bounds: Rect::new(left, 0, left + 1920, 1080),
        work: Rect::new(left, 0, left + 1920, work_bottom),
    }
}

#[test]
fn every_live_device_is_bound_to_its_geometry() {
    let devices = vec![
        device("\\\\.\\DISPLAY1", true, true),
        device("\\\\.\\DISPLAY2", false, true),
        device("\\\\.\\DISPLAY3", true, true),
    ];
    let geometries = vec![geometry("\\\\.\\DISPLAY3", 1920, 1040), geometry("\\\\.\\DISPLAY1", 0, 1000)];
    let ms = resolve(&devices, &geometries).list();
    assert_eq!(ms.len(), 2);
    assert_eq!(ms[0].id(), 0);
    assert_eq!(ms[0].left(), 0);
    assert_eq!(ms[0].work_bottom(), 1000);
    assert_eq!(ms[1].id(), 1);
    assert_eq!(ms[1].left(), 1920);
    assert_eq!(ms[1].work_bottom(), 1040);
}

#[test]
fn unmatched_device_is_left_out_and_keeps_its_id() {
    let devices = vec![
        device("A", true, true),
        device("B", true, true),
        device("C", true, true),
    ];
    let geometries = vec![geometry("A", 0, 1040), geometry("C", 1920, 1040)];
    let ids = resolve(&devices, &geometries).ids();
    assert_eq!(ids, vec![0, 2]);
}

#[test]
fn device_without_context_takes_no_id() {
    let devices = vec![
        device("A", true, false),
        device("B", true, true),
    ];
    let geometries = vec![geometry("A", 0, 1040), geometry("B", 1920, 1040)];
    let ms = resolve(&devices, &geometries).list();
    assert_eq!(ms.len(), 1);
    assert_eq!(ms[0].id(), 0);
    assert_eq!(ms[0].left(), 1920);
}

#[test]
fn first_geometry_of_a_name_wins() {
    let devices = vec![device("A", true, true)];
    let geometries = vec![geometry("B", 5, 1), geometry("A", 10, 2), geometry("A", 20, 3)];
    let ms = resolve(&devices, &geometries).list();
    assert_eq!(ms.len(), 1);
    assert_eq!(ms[0].left(), 10);
}

#[test]
fn no_devices_give_no_monitors() {
    let ms = resolve(&Vec::new(), &vec![geometry("A", 0, 1040)]);
    assert_eq!(ms.len(), 0);
}

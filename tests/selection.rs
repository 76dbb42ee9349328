use instant_desktop::monitor::{Monitor, Monitors, Rect};
use instant_desktop::selection::{State, UnknownMonitorId};

fn three_monitors() -> Monitors {
    let mut ms = Monitors::new();
    ms.add(Monitor::from_geometry(0, Rect::new(0, 0, 100, 100), Rect::new(0, 0, 100, 90)));
    ms.add(Monitor::from_geometry(2, Rect::new(100, 0, 200, 100), Rect::new(100, 0, 200, 90)));
    ms.add(Monitor::from_geometry(5, Rect::new(200, 0, 300, 100), Rect::new(200, 0, 300, 90)));
    ms
}

#[test]
fn new_state_selects_and_hovers_nothing() {
    let state = State::new(three_monitors());
    assert!(state.get_selected().is_empty());
    for id in [0, 2, 5] {
        assert!(!state.is_selected(id));
        assert!(!state.is_hovered(id));
    }
}

#[test]
fn toggle_twice_restores_selection() {
    let mut state = State::new(three_monitors());
    state.toggle_selected(5).unwrap();
    let before = state.get_selected();
    state.toggle_selected(2).unwrap();
    assert!(state.is_selected(2));
    state.toggle_selected(2).unwrap();
    assert_eq!(state.get_selected(), before);
    assert!(!state.is_selected(2));
}

#[test]
fn hover_last_write_wins() {
    let mut state = State::new(three_monitors());
    state.set_hovered(0).unwrap();
    state.set_hovered(5).unwrap();
    assert!(state.is_hovered(5));
    assert!(!state.is_hovered(0));
}

#[test]
fn unknown_id_changes_nothing() {
    let mut state = State::new(three_monitors());
    state.toggle_selected(2).unwrap();
    state.set_hovered(2).unwrap();
    assert_eq!(state.toggle_selected(7), Err(UnknownMonitorId { id: 7 }));
    assert_eq!(state.get_selected(), vec![2]);
    assert!(state.is_hovered(2));
    assert_eq!(state.set_hovered(1), Err(UnknownMonitorId { id: 1 }));
    assert!(state.is_hovered(2));
    assert!(!state.is_selected(7));
}

#[test]
fn selected_ids_come_in_ascending_order() {
    let mut state = State::new(three_monitors());
    state.toggle_selected(5).unwrap();
    state.toggle_selected(0).unwrap();
    state.toggle_selected(2).unwrap();
    assert_eq!(state.get_selected(), vec![0, 2, 5]);
    state.toggle_selected(0).unwrap();
    assert_eq!(state.get_selected(), vec![2, 5]);
}

#[test]
fn state_over_no_monitors_refuses_every_id() {
    let mut state = State::new(Monitors::new());
    assert_eq!(state.toggle_selected(0), Err(UnknownMonitorId { id: 0 }));
    assert!(state.get_selected().is_empty());
}

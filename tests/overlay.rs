use instant_desktop::monitor::{Monitor, Monitors, Rect};
use instant_desktop::overlay::{colors_for, command_for, label, window_colors, Color, Command, Key, WindowColors};
use instant_desktop::selection::State;

fn state() -> State {
    let mut ms = Monitors::new();
    ms.add(Monitor::from_geometry(0, Rect::new(0, 0, 100, 100), Rect::new(0, 0, 100, 100)));
    ms.add(Monitor::from_geometry(12, Rect::new(100, 0, 200, 100), Rect::new(100, 0, 200, 100)));
    State::new(ms)
}

#[test]
fn four_states_have_their_own_colors() {
    let all = [
        window_colors(false, false),
        window_colors(false, true),
        window_colors(true, false),
        window_colors(true, true),
    ];
    assert_eq!(all[0], WindowColors { background: Color::Black, label_background: Color::Light, label_text: Color::White });
    assert_eq!(all[1], WindowColors { background: Color::Dark, label_background: Color::LightHovered, label_text: Color::White });
    assert_eq!(all[2], WindowColors { background: Color::Primary, label_background: Color::Dark, label_text: Color::White });
    assert_eq!(all[3], WindowColors { background: Color::Primary, label_background: Color::White, label_text: Color::Dark });
    for i in 0..4 {
        for j in 0..4 {
            assert_eq!(i == j, all[i] == all[j]);
        }
    }
}

#[test]
fn colors_follow_the_shared_state() {
    let mut s = state();
    assert_eq!(colors_for(&s, 12), window_colors(false, false));
    s.set_hovered(12).unwrap();
    assert_eq!(colors_for(&s, 12), window_colors(false, true));
    s.toggle_selected(12).unwrap();
    assert_eq!(colors_for(&s, 12), window_colors(true, true));
    s.set_hovered(0).unwrap();
    assert_eq!(colors_for(&s, 12), window_colors(true, false));
    assert_eq!(colors_for(&s, 0), window_colors(false, true));
}

#[test]
fn palette_values() {
    assert_eq!(Color::Primary.rgb(), (0xff, 0xd2, 0x00));
    assert_eq!(Color::Light.rgb(), (0x8a, 0x91, 0x99));
    assert_eq!(Color::LightHovered.rgb(), (0xbf, 0xc4, 0xca));
    assert_eq!(Color::Dark.rgb(), (0x33, 0x31, 0x32));
    assert_eq!(Color::White.rgb(), (0xff, 0xff, 0xff));
    assert_eq!(Color::Black.rgb(), (0, 0, 0));
}

#[test]
fn label_shows_the_id() {
    let s = state();
    assert_eq!(label(&s, 12), "12");
    assert_eq!(label(&s, 0), "0");
    assert_eq!(label(&s, 3), "error: monitor not found");
}

#[test]
fn keys_commit_or_cancel() {
    assert_eq!(command_for(Key::Enter), Command::Launch);
    assert_eq!(command_for(Key::Escape), Command::Quit);
    assert_eq!(command_for(Key::Backspace), Command::Quit);
    assert_eq!(command_for(Key::Delete), Command::Quit);
    assert_eq!(command_for(Key::Other), Command::Ignore);
}

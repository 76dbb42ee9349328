use instant_desktop::monitor::{Monitor, Monitors, Rect};
use instant_desktop::profile::{join_ids, patch_profile};
use instant_desktop::selection::State;

fn two_monitors() -> Monitors {
    let mut ms = Monitors::new();
    ms.add(Monitor::from_geometry(0, Rect::new(0, 0, 1920, 1080), Rect::new(0, 0, 1920, 1040)));
    ms.add(Monitor::from_geometry(1, Rect::new(1920, 0, 3840, 1080), Rect::new(1920, 0, 3840, 1040)));
    ms
}

#[test]
fn end_to_end_example() {
    let mut state = State::new(two_monitors());
    assert_eq!(state.toggle_selected(1), Ok(()));
    let selected = state.get_selected();
    assert_eq!(selected, vec![1]);
    let out = patch_profile("username:s:alice", &selected);
    assert_eq!(out, "username:s:alice\nuse multimon:i:1\nselectedmonitors:s:1");
    let lines: Vec<&str> = out.split('\n').collect();
    assert_eq!(lines.iter().filter(|l| **l == "username:s:alice").count(), 1);
    assert_eq!(lines.iter().filter(|l| **l == "use multimon:i:1").count(), 1);
    assert_eq!(lines.iter().filter(|l| **l == "selectedmonitors:s:1").count(), 1);
    assert_eq!(lines[0], "username:s:alice");
}

#[test]
fn patch_twice_equals_patch_once() {
    let texts = [
        "",
        "username:s:alice",
        "screen mode id:i:2\nuse multimon:i:0\nselectedmonitors:s:3,4\n",
        "Use Multimon:i:0\r\nfull address:s:host\r\n",
    ];
    for t in texts.iter() {
        let once = patch_profile(t, &[0, 2]);
        let twice = patch_profile(&once, &[0, 2]);
        assert_eq!(once, twice);
    }
}

#[test]
fn patch_keeps_unrelated_lines_in_order() {
    let text = "a:s:1\nuse multimon:i:0\nb:i:2\nselectedmonitors:s:7\nc:s:x";
    let out = patch_profile(text, &[1, 3]);
    assert_eq!(out, "a:s:1\nuse multimon:i:1\nb:i:2\nselectedmonitors:s:1,3\nc:s:x");
    let others: Vec<&str> = out
        .split('\n')
        .filter(|l| !l.starts_with("use multimon") && !l.starts_with("selectedmonitors"))
        .collect();
    assert_eq!(others, vec!["a:s:1", "b:i:2", "c:s:x"]);
}

#[test]
fn patch_matches_keys_without_regard_to_case() {
    let out = patch_profile("USE MULTIMON:I:0\r\nfoo\nSelectedMonitors:S:9", &[0, 2]);
    assert_eq!(out, "USE MULTIMON:I:1\nfoo\nSelectedMonitors:S:0,2");
}

#[test]
fn patch_accepts_any_blank_between_use_and_multimon() {
    assert_eq!(
        patch_profile("use\tmultimon:i:0", &[]),
        "use\tmultimon:i:1\nselectedmonitors:s:"
    );
    assert_eq!(
        patch_profile("use\u{a0}multimon:i:0", &[5]),
        "use\u{a0}multimon:i:1\nselectedmonitors:s:5"
    );
    assert_eq!(
        patch_profile("usemultimon:i:0", &[5]),
        "usemultimon:i:0\nuse multimon:i:1\nselectedmonitors:s:5"
    );
}

#[test]
fn patch_folds_long_s_like_s() {
    assert_eq!(
        patch_profile("u\u{17f}e multimon:i:0", &[1]),
        "u\u{17f}e multimon:i:1\nselectedmonitors:s:1"
    );
}

#[test]
fn patch_of_empty_text_appends_both_directives() {
    assert_eq!(patch_profile("", &[]), "\nuse multimon:i:1\nselectedmonitors:s:");
}

#[test]
fn patch_keeps_trailing_line_feed_as_empty_line() {
    assert_eq!(
        patch_profile("a:s:b\n", &[0]),
        "a:s:b\n\nuse multimon:i:1\nselectedmonitors:s:0"
    );
}

#[test]
fn patch_rewrites_every_matching_line() {
    assert_eq!(
        patch_profile("selectedmonitors:s:9\nx\nselectedmonitors:s:8,7", &[4]),
        "selectedmonitors:s:4\nx\nselectedmonitors:s:4\nuse multimon:i:1"
    );
}

#[test]
fn patch_needs_the_key_at_line_start() {
    assert_eq!(
        patch_profile(" use multimon:i:0", &[2]),
        " use multimon:i:0\nuse multimon:i:1\nselectedmonitors:s:2"
    );
}

#[test]
fn ids_join_with_single_commas() {
    let s: String = join_ids(&[0, 10, 4294967295]).into_iter().collect();
    assert_eq!(s, "0,10,4294967295");
    assert!(join_ids(&[]).is_empty());
    let one: String = join_ids(&[7]).into_iter().collect();
    assert_eq!(one, "7");
}

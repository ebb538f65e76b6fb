use mirkobo::monitor::{first_monitor, list_monitors, resolution_string, select_monitor, wayland_session};
use mirkobo::text::decimal_string;

#[test]
fn decimal_text() {
    assert_eq!(decimal_string(0), "0");
    assert_eq!(decimal_string(7), "7");
    assert_eq!(decimal_string(10), "10");
    assert_eq!(decimal_string(1234567890), "1234567890");
    assert_eq!(decimal_string(usize::MAX), usize::MAX.to_string());
}

#[test]
fn resolution_names() {
    assert_eq!(resolution_string(1920, 1080), "1920x1080");
    assert_eq!(resolution_string(0, 5), "0x5");
}

#[test]
fn monitor_listing() {
    assert_eq!(list_monitors(&[(1920, 1080), (800, 600)]), "Monitors: \n1920x1080\n800x600");
    assert_eq!(list_monitors(&[(1024, 768)]), "Monitors: \n1024x768");
    assert_eq!(list_monitors(&[]), "Monitors: ");
}

#[test]
fn default_monitor_is_first() {
    assert_eq!(first_monitor(&[(2560, 1440), (1920, 1080)]), "2560x1440");
}

#[test]
fn monitor_choice_takes_last_match() {
    let sizes = [(1920, 1080), (800, 600), (1920, 1080), (640, 480)];
    assert_eq!(select_monitor(&sizes, &"1920x1080".to_string()), Some(2));
    assert_eq!(select_monitor(&sizes, &"640x480".to_string()), Some(3));
    assert_eq!(select_monitor(&sizes, &"1920x108".to_string()), None);
    assert_eq!(select_monitor(&sizes, &"01920x1080".to_string()), None);
    assert_eq!(select_monitor(&[], &"800x600".to_string()), None);
}

#[test]
fn wayland_detection() {
    assert!(wayland_session(true, true));
    assert!(wayland_session(true, false));
    assert!(wayland_session(false, false));
    assert!(!wayland_session(false, true));
}

#[test]
fn names_tell_resolutions_apart() {
    assert_ne!(resolution_string(1, 11), resolution_string(11, 1));
    assert_ne!(resolution_string(10, 0), resolution_string(1, 0));
    assert_eq!(resolution_string(1024, 768), resolution_string(1024, 768));
}

#[test]
fn default_monitor_is_selectable() {
    let sizes = [(1280, 800), (1920, 1080)];
    let name = first_monitor(&sizes);
    assert_eq!(select_monitor(&sizes, &name), Some(0));
}

use wayland_qubes::input::{
    button_action, focus_action, focus_outcome, key_action, keymap_states, motion_location, ButtonAction,
};
use wayland_qubes::shell::Region;

#[test]
fn button_wheel_up() {
    assert_eq!(button_action(4, 4), ButtonAction::Axis { vertical: true, amount: -10 });
}

#[test]
fn buttons_and_wheel() {
    assert_eq!(button_action(1, 4), ButtonAction::Button { code: 0x110, pressed: true });
    assert_eq!(button_action(2, 5), ButtonAction::Button { code: 0x112, pressed: false });
    assert_eq!(button_action(3, 4), ButtonAction::Button { code: 0x111, pressed: true });
    assert_eq!(button_action(5, 5), ButtonAction::Axis { vertical: true, amount: 10 });
    assert_eq!(button_action(6, 4), ButtonAction::Axis { vertical: false, amount: -10 });
    assert_eq!(button_action(7, 4), ButtonAction::Axis { vertical: false, amount: 10 });
    assert_eq!(button_action(8, 4), ButtonAction::Ignore);
    assert_eq!(button_action(1, 6), ButtonAction::Ignore);
    assert_eq!(button_action(4, 3), ButtonAction::Ignore);
}

#[test]
fn keys() {
    assert_eq!(key_action(8, 2), Some((0, true)));
    assert_eq!(key_action(0x107, 3), Some((0xff, false)));
    assert_eq!(key_action(7, 2), None);
    assert_eq!(key_action(0x108, 2), None);
    assert_eq!(key_action(30, 4), None);
}

#[test]
fn keymap_bits() {
    let mut keys = [0u32; 8];
    keys[0] = 0b101;
    keys[1] = 1 << 31;
    keys[7] = 1 << 31;
    let r = keymap_states(keys);
    assert_eq!(r.len(), 256);
    let pressed: Vec<u32> = r.iter().filter(|k| k.1).map(|k| k.0).collect();
    assert_eq!(pressed, vec![0, 2, 63, 255]);
    assert!(r.iter().enumerate().all(|(i, k)| k.0 == i as u32));
}

#[test]
fn focus_events() {
    assert_eq!(focus_action(9, 0), Some(true));
    assert_eq!(focus_action(10, 7), Some(false));
    assert_eq!(focus_action(11, 0), None);
    assert_eq!(focus_action(9, 8), None);
    let o = focus_outcome(false, true, false);
    assert!(o.activated && o.send_configure && !o.popup_done && o.keyboard_focus);
    let o = focus_outcome(false, true, true);
    assert!(o.activated && !o.send_configure);
    let o = focus_outcome(true, false, false);
    assert!(o.popup_done && !o.send_configure && !o.keyboard_focus);
}

#[test]
fn motion_is_offset_and_saturates() {
    assert_eq!(motion_location(5, 6, None, None), (5, 6));
    assert_eq!(motion_location(5, 6, Some((10, -20)), None), (15, 6));
    let g = Some(Region { x: 3, y: -4, w: 1, h: 1 });
    assert_eq!(motion_location(5, 6, Some((10, 20)), g), (18, 26));
    assert_eq!(motion_location(u32::MAX - 1, 0, Some((10, 0)), g), (u32::MAX, 0));
}

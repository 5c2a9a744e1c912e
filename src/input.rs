//! Translation of the daemon's input events into what the seat receives.
use vstd::prelude::*;

use crate::shell::Region;

verus! {

/// Linux input code of the left button.
pub const BTN_LEFT: u32 = 0x110;
/// Linux input code of the right button.
pub const BTN_RIGHT: u32 = 0x111;
/// Linux input code of the middle button.
pub const BTN_MIDDLE: u32 = 0x112;
/// Scroll distance of one wheel step.
pub const WHEEL_STEP: i32 = 10;

/// What a daemon `Button` event becomes.
#[derive(Clone, Copy, Debug, PartialEq, Eq, Structural)]
pub enum ButtonAction {
    /// The event is skipped.
    Ignore,
    /// A button press or release with its input code.
    Button { code: u32, pressed: bool },
    /// One wheel frame on an axis, with the signed scroll amount.
    Axis { vertical: bool, amount: i32 },
}

pub open spec fn button_spec(button: u32, ty: u32) -> ButtonAction {
    if ty != 4 && ty != 5 {
        ButtonAction::Ignore
    } else if button == 1 {
        ButtonAction::Button { code: BTN_LEFT, pressed: ty == 4 }
    } else if button == 2 {
        ButtonAction::Button { code: BTN_MIDDLE, pressed: ty == 4 }
    } else if button == 3 {
        ButtonAction::Button { code: BTN_RIGHT, pressed: ty == 4 }
    } else if button == 4 {
        ButtonAction::Axis { vertical: true, amount: (-WHEEL_STEP) as i32 }
    } else if button == 5 {
        ButtonAction::Axis { vertical: true, amount: WHEEL_STEP }
    } else if button == 6 {
        ButtonAction::Axis { vertical: false, amount: (-WHEEL_STEP) as i32 }
    } else if button == 7 {
        ButtonAction::Axis { vertical: false, amount: WHEEL_STEP }
    } else {
        ButtonAction::Ignore
    }
}

/// A daemon `Button` event: type 4 presses, 5 releases, any other type is
/// skipped. Buttons 1, 2, 3 are left, middle, right; 4 to 7 scroll up, down,
/// left, right; others are skipped.
pub fn button_action(button: u32, ty: u32) -> (r: ButtonAction)
    ensures
        r == button_spec(button, ty),
{
    if ty != 4 && ty != 5 {
        return ButtonAction::Ignore;
    }
    let pressed = ty == 4;
    match button {
        1 => ButtonAction::Button { code: BTN_LEFT, pressed },
        2 => ButtonAction::Button { code: BTN_MIDDLE, pressed },
        3 => ButtonAction::Button { code: BTN_RIGHT, pressed },
        4 => ButtonAction::Axis { vertical: true, amount: -WHEEL_STEP },
        5 => ButtonAction::Axis { vertical: true, amount: WHEEL_STEP },
        6 => ButtonAction::Axis { vertical: false, amount: -WHEEL_STEP },
        7 => ButtonAction::Axis { vertical: false, amount: WHEEL_STEP },
        _ => ButtonAction::Ignore,
    }
}

/// A daemon `Keypress` event: the seat's key code (the X keycode less 8)
/// and whether it is pressed; `None` for a keycode outside `[8, 0x108)` or a
/// type other than 2 (pressed) and 3 (released).
pub fn key_action(keycode: u32, ty: u32) -> (r: Option<(u32, bool)>)
    ensures
        r == (if 8 <= keycode < 0x108 && (ty == 2 || ty == 3) {
            Some(((keycode - 8) as u32, ty == 2))
        } else {
            None
        }),
{
    if keycode < 8 || keycode >= 0x108 {
        return None;
    }
    match ty {
        2 => Some((keycode - 8, true)),
        3 => Some((keycode - 8, false)),
        _ => None,
    }
}

/// Whether bit `i` of a 256-bit key map is set.
pub open spec fn key_bit(keys: [u32; 8], i: int) -> bool {
    (keys@[i / 32] >> ((i % 32) as u32)) & 1u32 == 1u32
}

/// A daemon `Keymap` event: for each key code `i` below 256, whether it is
/// pressed.
pub fn keymap_states(keys: [u32; 8]) -> (r: Vec<(u32, bool)>)
    ensures
        r@.len() == 256,
        forall|i: int| 0 <= i < 256 ==> #[trigger] r@[i] == (i as u32, key_bit(keys, i)),
{
    let mut r: Vec<(u32, bool)> = Vec::new();
    let mut i: u32 = 0;
    while i < 256
        invariant
            i <= 256,
            r@.len() == i,
            forall|k: int| 0 <= k < i ==> #[trigger] r@[k] == (k as u32, key_bit(keys, k)),
        decreases 256 - i,
    {
        let word = keys[(i / 32) as usize];
        let pressed = (word >> (i % 32)) & 1 == 1;
        r.push((i, pressed));
        i += 1;
    }
    r
}

/// A daemon `Focus` event: `Some(true)` for type 9 (gained), `Some(false)`
/// for type 10 (lost); `None`, to skip it, for another type or a detail
/// above 7.
pub fn focus_action(ty: u32, detail: u32) -> (r: Option<bool>)
    ensures
        r == (if (ty == 9 || ty == 10) && detail <= 7 { Some(ty == 9) } else { None }),
{
    let has_focus = match ty {
        9 => true,
        10 => false,
        _ => { return None; },
    };
    if detail > 7 {
        return None;
    }
    Some(has_focus)
}

/// What a focus change does to a window's role.
#[derive(Clone, Copy, Debug, PartialEq, Eq, Structural)]
pub struct FocusOutcome {
    /// The toplevel's `Activated` flag afterwards.
    pub activated: bool,
    /// Whether the role is sent a configure.
    pub send_configure: bool,
    /// Whether the popup is dismissed.
    pub popup_done: bool,
    /// Whether the keyboard focus goes to the surface (else to nothing).
    pub keyboard_focus: bool,
}

/// A focus change on a window: a toplevel's `Activated` flag follows the
/// focus and it is sent a configure where the flag changed; a popup that
/// loses the focus is dismissed.
pub fn focus_outcome(is_popup: bool, has_focus: bool, activated: bool) -> (r: FocusOutcome)
    ensures
        r.keyboard_focus == has_focus,
        r.popup_done == (is_popup && !has_focus),
        r.activated == (if is_popup { activated } else { has_focus }),
        r.send_configure == (!is_popup && activated != has_focus),
{
    if is_popup {
        FocusOutcome { activated, send_configure: false, popup_done: !has_focus, keyboard_focus: has_focus }
    } else {
        FocusOutcome {
            activated: has_focus,
            send_configure: activated != has_focus,
            popup_done: false,
            keyboard_focus: has_focus,
        }
    }
}

/// `a + b`, stopping at `u32::MAX`.
pub open spec fn sat_add(a: int, b: int) -> u32 {
    if a + b > u32::MAX { u32::MAX } else { (a + b) as u32 }
}

pub open spec fn nonneg(v: i32) -> int {
    if v < 0 { 0 } else { v as int }
}

/// A motion's position in the compositor: the daemon's position plus the
/// window's placement and the surface's geometry corner, each taken as zero
/// where negative, saturating; unchanged for an unknown window.
pub open spec fn motion_spec(x: u32, y: u32, placement: Option<(i32, i32)>, geometry: Option<Region>) -> (u32, u32) {
    match placement {
        None => (x, y),
        Some((px, py)) => {
            let (gx, gy) = match geometry {
                Some(g) => (nonneg(g.x), nonneg(g.y)),
                None => (0, 0),
            };
            (sat_add(sat_add(x as int, nonneg(px)) as int, gx), sat_add(sat_add(y as int, nonneg(py)) as int, gy))
        },
    }
}

fn sat_add_exec(a: u32, b: i32) -> (r: u32)
    ensures
        r == sat_add(a as int, nonneg(b)),
{
    if b < 0 {
        a
    } else {
        a.saturating_add(b as u32)
    }
}

/// The position of a daemon `Motion` event in the compositor; `placement`
/// is `None` for a window not in the registry.
pub fn motion_location(x: u32, y: u32, placement: Option<(i32, i32)>, geometry: Option<Region>) -> (r: (u32, u32))
    ensures
        r == motion_spec(x, y, placement, geometry),
{
    match placement {
        None => (x, y),
        Some((px, py)) => {
            let (gx, gy) = match geometry {
                Some(g) => (g.x, g.y),
                None => (0, 0),
            };
            (sat_add_exec(sat_add_exec(x, px), gx), sat_add_exec(sat_add_exec(y, py), gy))
        },
    }
}

} // verus!

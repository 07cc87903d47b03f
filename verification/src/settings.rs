//! Player controls and HUD values: the rebindable control actions, the
//! material properties of the HUD, and hex color codes.

use vstd::prelude::*;

verus! {

/// An action that a key can be bound to.
#[derive(Debug, Clone, Copy, PartialEq, Eq, Hash, Structural)]
pub enum ControlAction {
    TogglePause,
    ToggleMachMenu,
    ResetVertical,
    ResetSpeed,
    Jump,
    MoveForward,
    MoveBackward,
    MoveLeft,
    MoveRight,
    TurnRight,
    TurnLeft,
    PitchUp,
    PitchDown,
}

impl ControlAction {
    /// Every action, in menu order.
    pub fn all() -> (r: [ControlAction; 13])
        ensures
            r@ == seq![ControlAction::TogglePause, ControlAction::ToggleMachMenu, ControlAction::ResetVertical, ControlAction::ResetSpeed, ControlAction::Jump, ControlAction::MoveForward, ControlAction::MoveBackward, ControlAction::MoveLeft, ControlAction::MoveRight, ControlAction::TurnRight, ControlAction::TurnLeft, ControlAction::PitchUp, ControlAction::PitchDown],
    {
        let r = [
            ControlAction::TogglePause,
            ControlAction::ToggleMachMenu,
            ControlAction::ResetVertical,
            ControlAction::ResetSpeed,
            ControlAction::Jump,
            ControlAction::MoveForward,
            ControlAction::MoveBackward,
            ControlAction::MoveLeft,
            ControlAction::MoveRight,
            ControlAction::TurnRight,
            ControlAction::TurnLeft,
            ControlAction::PitchUp,
            ControlAction::PitchDown,
        ];
        assert(r@ =~= seq![ControlAction::TogglePause, ControlAction::ToggleMachMenu, ControlAction::ResetVertical, ControlAction::ResetSpeed, ControlAction::Jump, ControlAction::MoveForward, ControlAction::MoveBackward, ControlAction::MoveLeft, ControlAction::MoveRight, ControlAction::TurnRight, ControlAction::TurnLeft, ControlAction::PitchUp, ControlAction::PitchDown]);
        r
    }

    /// The action's name for people.
    pub fn label(self) -> (r: &'static str)
        ensures
            r@ == match self {
                ControlAction::TogglePause => "Toggle pause"@,
                ControlAction::ToggleMachMenu => "Toggle Mach menu"@,
                ControlAction::ResetVertical => "Reset vertical speed"@,
                ControlAction::ResetSpeed => "Reset horizontal speed"@,
                ControlAction::Jump => "Jump"@,
                ControlAction::MoveForward => "Move forward"@,
                ControlAction::MoveBackward => "Move backward"@,
                ControlAction::MoveLeft => "Move left"@,
                ControlAction::MoveRight => "Move right"@,
                ControlAction::TurnRight => "Turn right"@,
                ControlAction::TurnLeft => "Turn left"@,
                ControlAction::PitchUp => "Pitch up"@,
                ControlAction::PitchDown => "Pitch down"@,
            },
    {
        match self {
            ControlAction::TogglePause => "Toggle pause",
            ControlAction::ToggleMachMenu => "Toggle Mach menu",
            ControlAction::ResetVertical => "Reset vertical speed",
            ControlAction::ResetSpeed => "Reset horizontal speed",
            ControlAction::Jump => "Jump",
            ControlAction::MoveForward => "Move forward",
            ControlAction::MoveBackward => "Move backward",
            ControlAction::MoveLeft => "Move left",
            ControlAction::MoveRight => "Move right",
            ControlAction::TurnRight => "Turn right",
            ControlAction::TurnLeft => "Turn left",
            ControlAction::PitchUp => "Pitch up",
            ControlAction::PitchDown => "Pitch down",
        }
    }
}

/// The key bound to each action; `K` is the key type of the input layer.
#[derive(Debug, Clone)]
pub struct ControlBindings<K> {
    pub toggle_pause: K,
    pub toggle_mach_menu: K,
    pub reset_vertical: K,
    pub reset_speed: K,
    pub jump: K,
    pub move_forward: K,
    pub move_backward: K,
    pub move_left: K,
    pub move_right: K,
    pub turn_right: K,
    pub turn_left: K,
    pub pitch_up: K,
    pub pitch_down: K,
}

impl<K: Copy> ControlBindings<K> {
    /// The key bound to `action`.
    pub open spec fn binding(&self, action: ControlAction) -> K {
        match action {
            ControlAction::TogglePause => self.toggle_pause,
            ControlAction::ToggleMachMenu => self.toggle_mach_menu,
            ControlAction::ResetVertical => self.reset_vertical,
            ControlAction::ResetSpeed => self.reset_speed,
            ControlAction::Jump => self.jump,
            ControlAction::MoveForward => self.move_forward,
            ControlAction::MoveBackward => self.move_backward,
            ControlAction::MoveLeft => self.move_left,
            ControlAction::MoveRight => self.move_right,
            ControlAction::TurnRight => self.turn_right,
            ControlAction::TurnLeft => self.turn_left,
            ControlAction::PitchUp => self.pitch_up,
            ControlAction::PitchDown => self.pitch_down,
        }
    }

    /// The key bound to `action`.
    pub fn key_for(&self, action: ControlAction) -> (k: K)
        ensures
            k == self.binding(action),
    {
        match action {
            ControlAction::TogglePause => self.toggle_pause,
            ControlAction::ToggleMachMenu => self.toggle_mach_menu,
            ControlAction::ResetVertical => self.reset_vertical,
            ControlAction::ResetSpeed => self.reset_speed,
            ControlAction::Jump => self.jump,
            ControlAction::MoveForward => self.move_forward,
            ControlAction::MoveBackward => self.move_backward,
            ControlAction::MoveLeft => self.move_left,
            ControlAction::MoveRight => self.move_right,
            ControlAction::TurnRight => self.turn_right,
            ControlAction::TurnLeft => self.turn_left,
            ControlAction::PitchUp => self.pitch_up,
            ControlAction::PitchDown => self.pitch_down,
        }
    }

    /// Binds `key` to `action`, leaving the other bindings.
    pub fn set_key(&mut self, action: ControlAction, key: K)
        ensures
            final(self).binding(action) == key,
            forall|a: ControlAction| a != action ==> #[trigger] final(self).binding(a) == old(self).binding(a),
    {
        match action {
            ControlAction::TogglePause => self.toggle_pause = key,
            ControlAction::ToggleMachMenu => self.toggle_mach_menu = key,
            ControlAction::ResetVertical => self.reset_vertical = key,
            ControlAction::ResetSpeed => self.reset_speed = key,
            ControlAction::Jump => self.jump = key,
            ControlAction::MoveForward => self.move_forward = key,
            ControlAction::MoveBackward => self.move_backward = key,
            ControlAction::MoveLeft => self.move_left = key,
            ControlAction::MoveRight => self.move_right = key,
            ControlAction::TurnRight => self.turn_right = key,
            ControlAction::TurnLeft => self.turn_left = key,
            ControlAction::PitchUp => self.pitch_up = key,
            ControlAction::PitchDown => self.pitch_down = key,
        }
    }
}

/// A surface property of the player's material that the HUD sets.
#[derive(Debug, Clone, Copy, PartialEq, Eq, Structural)]
pub enum MaterialProperty {
    Reflectiveness,
    Roughness,
}

impl MaterialProperty {
    /// The property's name for people.
    pub fn label(self) -> (r: &'static str)
        ensures
            r@ == match self {
                MaterialProperty::Reflectiveness => "Reflectiveness"@,
                MaterialProperty::Roughness => "Roughness"@,
            },
    {
        match self {
            MaterialProperty::Reflectiveness => "Reflectiveness",
            MaterialProperty::Roughness => "Roughness",
        }
    }
}

/// The value of a hex digit, if `b` is one.
pub open spec fn hex_digit(b: u8) -> Option<u8> {
    if 48 <= b <= 57 {
        Some((b - 48) as u8)
    } else if 97 <= b <= 102 {
        Some((b - 87) as u8)
    } else if 65 <= b <= 70 {
        Some((b - 55) as u8)
    } else {
        None
    }
}

/// What `u8::from_str_radix(.., 16)` gives for two bytes: a `+` and one
/// digit, or two digits.
pub open spec fn hex_pair(a: u8, b: u8) -> Option<u8> {
    if a == 43 {
        hex_digit(b)
    } else {
        match (hex_digit(a), hex_digit(b)) {
            (Some(x), Some(y)) => Some((x * 16 + y) as u8),
            _ => None,
        }
    }
}

/// The red, green and blue bytes of a six-byte hex code, two bytes each.
pub open spec fn hex_rgb(h: Seq<u8>) -> Option<[u8; 3]> {
    if h.len() != 6 {
        None
    } else {
        match (hex_pair(h[0], h[1]), hex_pair(h[2], h[3]), hex_pair(h[4], h[5])) {
            (Some(r), Some(g), Some(b)) => Some([r, g, b]),
            _ => None,
        }
    }
}

/// The upper-case hex digit for `d` (below 16).
pub open spec fn hex_char(d: u8) -> u8 {
    if d < 10 {
        (48 + d) as u8
    } else {
        (55 + d) as u8
    }
}

/// A color written as six upper-case hex digits, red first, high digit
/// first in each pair, reads back as the same color; written in lower case,
/// it reads back the same.
pub proof fn lemma_hex_color_roundtrip(c: [u8; 3])
    ensures
        hex_rgb(seq![
            hex_char(c[0] / 16), hex_char(c[0] % 16),
            hex_char(c[1] / 16), hex_char(c[1] % 16),
            hex_char(c[2] / 16), hex_char(c[2] % 16),
        ]) == Some(c),
        hex_rgb(seq![
            crate::wad::lower_byte(hex_char(c[0] / 16)), crate::wad::lower_byte(hex_char(c[0] % 16)),
            crate::wad::lower_byte(hex_char(c[1] / 16)), crate::wad::lower_byte(hex_char(c[1] % 16)),
            crate::wad::lower_byte(hex_char(c[2] / 16)), crate::wad::lower_byte(hex_char(c[2] % 16)),
        ]) == Some(c),
{
    lemma_hex_pair_of(c[0]);
    lemma_hex_pair_of(c[1]);
    lemma_hex_pair_of(c[2]);
    let r = [c[0], c[1], c[2]];
    assert(r@ =~= c@);
}

proof fn lemma_hex_pair_of(b: u8)
    ensures
        hex_pair(hex_char(b / 16), hex_char(b % 16)) == Some(b),
        hex_pair(crate::wad::lower_byte(hex_char(b / 16)), crate::wad::lower_byte(hex_char(b % 16))) == Some(b),
{
    let hi = b / 16;
    let lo = b % 16;
    assert(hi * 16 + lo == b);
    assert(hex_digit(hex_char(hi)) == Some(hi));
    assert(hex_digit(hex_char(lo)) == Some(lo));
    assert(hex_digit(crate::wad::lower_byte(hex_char(hi))) == Some(hi));
    assert(hex_digit(crate::wad::lower_byte(hex_char(lo))) == Some(lo));
}

fn hex_digit_exec(b: u8) -> (r: Option<u8>)
    ensures
        r == hex_digit(b),
{
    if b >= 48 && b <= 57 {
        Some(b - 48)
    } else if b >= 97 && b <= 102 {
        Some(b - 87)
    } else if b >= 65 && b <= 70 {
        Some(b - 55)
    } else {
        None
    }
}

fn hex_pair_exec(a: u8, b: u8) -> (r: Option<u8>)
    ensures
        r == hex_pair(a, b),
{
    if a == 43 {
        return hex_digit_exec(b);
    }
    match (hex_digit_exec(a), hex_digit_exec(b)) {
        (Some(x), Some(y)) => Some(x * 16 + y),
        _ => None,
    }
}

/// The color bytes of a hex code such as "CC4D4D"; `None` unless it is six
/// bytes of three hex pairs. The code must split into pairs at character
/// boundaries.
pub fn parse_hex_rgb(hex: &str) -> (r: Option<[u8; 3]>)
    requires
        vstd::utf8::encode_utf8(hex@).len() == 6 ==> vstd::utf8::is_char_boundary(vstd::utf8::encode_utf8(hex@), 2)
            && vstd::utf8::is_char_boundary(vstd::utf8::encode_utf8(hex@), 4),
    ensures
        r == hex_rgb(vstd::utf8::encode_utf8(hex@)),
{
    let h = hex.as_bytes();
    if h.len() != 6 {
        return None;
    }
    match (hex_pair_exec(h[0], h[1]), hex_pair_exec(h[2], h[3]), hex_pair_exec(h[4], h[5])) {
        (Some(r), Some(g), Some(b)) => Some([r, g, b]),
        _ => None,
    }
}

} // verus!

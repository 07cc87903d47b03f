//! The tuning preset file: `slot.key=value` lines, one slot per prefix
//! (`arcade`, `grounded`, `floaty`); lines without a prefix belong to the
//! `grounded` slot. Blank lines and lines starting with `#` are skipped.
//! Values are numbers, read by the caller.

use vstd::prelude::*;
use vstd::utf8::encode_utf8;
use crate::udmf::{copy_range, find_byte, lower, lower_copy, trim_text, utrim};
use crate::wad::bytes_eq;

verus! {

/// A preset slot.
#[derive(Debug, Clone, Copy, PartialEq, Eq, Structural)]
pub enum ErgoPresetSlot {
    Arcade,
    Grounded,
    Floaty,
}

/// "arcade"
pub const ARCADE_ID: [u8; 6] = [97, 114, 99, 97, 100, 101];

/// "grounded"
pub const GROUNDED_ID: [u8; 8] = [103, 114, 111, 117, 110, 100, 101, 100];

/// "floaty"
pub const FLOATY_ID: [u8; 6] = [102, 108, 111, 97, 116, 121];

/// The bytes of a slot's identifier.
pub open spec fn slot_id_bytes(slot: ErgoPresetSlot) -> Seq<u8> {
    match slot {
        ErgoPresetSlot::Arcade => ARCADE_ID@,
        ErgoPresetSlot::Grounded => GROUNDED_ID@,
        ErgoPresetSlot::Floaty => FLOATY_ID@,
    }
}

/// The slot whose identifier is `s`.
pub open spec fn slot_named(s: Seq<u8>) -> Option<ErgoPresetSlot> {
    if s == ARCADE_ID@ {
        Some(ErgoPresetSlot::Arcade)
    } else if s == GROUNDED_ID@ {
        Some(ErgoPresetSlot::Grounded)
    } else if s == FLOATY_ID@ {
        Some(ErgoPresetSlot::Floaty)
    } else {
        None
    }
}

fn slot_id_array(slot: ErgoPresetSlot) -> (r: Vec<u8>)
    ensures
        r@ == slot_id_bytes(slot),
{
    let mut out: Vec<u8> = Vec::new();
    match slot {
        ErgoPresetSlot::Arcade => out.extend_from_slice(ARCADE_ID.as_slice()),
        ErgoPresetSlot::Grounded => out.extend_from_slice(GROUNDED_ID.as_slice()),
        ErgoPresetSlot::Floaty => out.extend_from_slice(FLOATY_ID.as_slice()),
    }
    out
}

impl ErgoPresetSlot {
    /// The slot's identifier, as used in the preset file.
    pub fn id(self) -> (r: &'static str)
        ensures
            encode_utf8(r@) == slot_id_bytes(self),
    {
        proof {
            reveal_strlit("arcade");
            reveal_strlit("grounded");
            reveal_strlit("floaty");
            vstd::utf8::is_ascii_chars_encode_utf8("arcade"@);
            vstd::utf8::is_ascii_chars_encode_utf8("grounded"@);
            vstd::utf8::is_ascii_chars_encode_utf8("floaty"@);
        }
        match self {
            ErgoPresetSlot::Arcade => {
                assert(encode_utf8("arcade"@) =~= ARCADE_ID@);
                "arcade"
            },
            ErgoPresetSlot::Grounded => {
                assert(encode_utf8("grounded"@) =~= GROUNDED_ID@);
                "grounded"
            },
            ErgoPresetSlot::Floaty => {
                assert(encode_utf8("floaty"@) =~= FLOATY_ID@);
                "floaty"
            },
        }
    }

    /// The slot's name for people.
    pub fn label(self) -> (r: &'static str)
        ensures
            r@ == match self {
                ErgoPresetSlot::Arcade => "Arcade"@,
                ErgoPresetSlot::Grounded => "Grounded"@,
                ErgoPresetSlot::Floaty => "Floaty"@,
            },
    {
        match self {
            ErgoPresetSlot::Arcade => "Arcade",
            ErgoPresetSlot::Grounded => "Grounded",
            ErgoPresetSlot::Floaty => "Floaty",
        }
    }

    /// The slot that `id` names, trimmed and without regard to ASCII case.
    pub fn from_id(id: &str) -> (r: Option<Self>)
        ensures
            r == slot_named(lower(utrim(encode_utf8(id@)))),
    {
        let t = trim_text(id.as_bytes());
        let l = lower_copy(t.as_slice());
        if bytes_eq(l.as_slice(), ARCADE_ID.as_slice()) {
            Some(ErgoPresetSlot::Arcade)
        } else if bytes_eq(l.as_slice(), GROUNDED_ID.as_slice()) {
            Some(ErgoPresetSlot::Grounded)
        } else if bytes_eq(l.as_slice(), FLOATY_ID.as_slice()) {
            Some(ErgoPresetSlot::Floaty)
        } else {
            None
        }
    }
}

/// How a slot is spelled in the preset file.
pub open spec fn slot_text(slot: ErgoPresetSlot) -> Seq<char> {
    match slot {
        ErgoPresetSlot::Arcade => "arcade"@,
        ErgoPresetSlot::Grounded => "grounded"@,
        ErgoPresetSlot::Floaty => "floaty"@,
    }
}

/// Slots and their spellings match one to one: a slot's identifier is its
/// spelling, that spelling names the slot, and a text names a slot only when
/// it is that slot's spelling.
pub proof fn lemma_slots_spelled(slot: ErgoPresetSlot, s: Seq<u8>)
    ensures
        slot_id_bytes(slot) == encode_utf8(slot_text(slot)),
        slot_named(encode_utf8(slot_text(slot))) == Some(slot),
        slot_named(s) == Some(slot) ==> s == encode_utf8(slot_text(slot)),
{
    reveal_strlit("arcade");
    reveal_strlit("grounded");
    reveal_strlit("floaty");
    vstd::utf8::is_ascii_chars_encode_utf8(slot_text(slot));
    assert(encode_utf8(slot_text(slot)) =~= slot_id_bytes(slot));
}

/// A slot's identifier names that slot again.
pub proof fn lemma_slot_id_roundtrip(slot: ErgoPresetSlot)
    ensures
        slot_named(lower(utrim(slot_id_bytes(slot)))) == Some(slot),
{
    let b = slot_id_bytes(slot);
    assert(crate::udmf::skip_uws(b, 0) == 0);
    assert(crate::udmf::back_uws(b, 0, b.len()) == b.len());
    assert(utrim(b) =~= b);
    assert(lower(b) =~= b);
}

// ---------------------------------------------------------------------------
// Preset lines
// ---------------------------------------------------------------------------

/// A tuning value, set from the panel or a preset.
#[derive(Debug, Clone, Copy, PartialEq, Eq, Structural)]
pub enum ErgoSetting {
    MoveSpeed,
    JumpVelocity,
    Gravity,
    PlaneLimit,
    CameraSensitivityX,
    CameraSensitivityY,
    CameraPitchLimit,
    WingFlapDuration,
    WingFlapAngle,
    WalkCycleRate,
    WalkCycleSwing,
    WalkCycleLift,
}

/// "move_speed"
pub const KEY_MOVE_SPEED: [u8; 10] = [109, 111, 118, 101, 95, 115, 112, 101, 101, 100];

/// "jump_velocity"
pub const KEY_JUMP_VELOCITY: [u8; 13] = [106, 117, 109, 112, 95, 118, 101, 108, 111, 99, 105, 116, 121];

/// "gravity"
pub const KEY_GRAVITY: [u8; 7] = [103, 114, 97, 118, 105, 116, 121];

/// "plane_limit"
pub const KEY_PLANE_LIMIT: [u8; 11] = [112, 108, 97, 110, 101, 95, 108, 105, 109, 105, 116];

/// "camera_sensitivity_x"
pub const KEY_CAMERA_SENSITIVITY_X: [u8; 20] = [99, 97, 109, 101, 114, 97, 95, 115, 101, 110, 115, 105, 116, 105, 118, 105, 116, 121, 95, 120];

/// "camera_sensitivity_y"
pub const KEY_CAMERA_SENSITIVITY_Y: [u8; 20] = [99, 97, 109, 101, 114, 97, 95, 115, 101, 110, 115, 105, 116, 105, 118, 105, 116, 121, 95, 121];

/// "camera_pitch_limit"
pub const KEY_CAMERA_PITCH_LIMIT: [u8; 18] = [99, 97, 109, 101, 114, 97, 95, 112, 105, 116, 99, 104, 95, 108, 105, 109, 105, 116];

/// "wing_flap_duration"
pub const KEY_WING_FLAP_DURATION: [u8; 18] = [119, 105, 110, 103, 95, 102, 108, 97, 112, 95, 100, 117, 114, 97, 116, 105, 111, 110];

/// "wing_flap_angle"
pub const KEY_WING_FLAP_ANGLE: [u8; 15] = [119, 105, 110, 103, 95, 102, 108, 97, 112, 95, 97, 110, 103, 108, 101];

/// "walk_cycle_rate"
pub const KEY_WALK_CYCLE_RATE: [u8; 15] = [119, 97, 108, 107, 95, 99, 121, 99, 108, 101, 95, 114, 97, 116, 101];

/// "walk_cycle_swing"
pub const KEY_WALK_CYCLE_SWING: [u8; 16] = [119, 97, 108, 107, 95, 99, 121, 99, 108, 101, 95, 115, 119, 105, 110, 103];

/// "walk_cycle_lift"
pub const KEY_WALK_CYCLE_LIFT: [u8; 15] = [119, 97, 108, 107, 95, 99, 121, 99, 108, 101, 95, 108, 105, 102, 116];

impl ErgoSetting {
    /// The setting's name for people.
    pub fn label(self) -> (r: &'static str)
        ensures
            r@ == match self {
            ErgoSetting::MoveSpeed => "Move speed"@,
            ErgoSetting::JumpVelocity => "Jump velocity"@,
            ErgoSetting::Gravity => "Gravity"@,
            ErgoSetting::PlaneLimit => "Plane limit"@,
            ErgoSetting::CameraSensitivityX => "Sensitivity X"@,
            ErgoSetting::CameraSensitivityY => "Sensitivity Y"@,
            ErgoSetting::CameraPitchLimit => "Pitch limit"@,
            ErgoSetting::WingFlapDuration => "Flap duration"@,
            ErgoSetting::WingFlapAngle => "Flap angle"@,
            ErgoSetting::WalkCycleRate => "Cycle rate"@,
            ErgoSetting::WalkCycleSwing => "Max swing"@,
            ErgoSetting::WalkCycleLift => "Lift amount"@,
            },
    {
        match self {
            ErgoSetting::MoveSpeed => "Move speed",
            ErgoSetting::JumpVelocity => "Jump velocity",
            ErgoSetting::Gravity => "Gravity",
            ErgoSetting::PlaneLimit => "Plane limit",
            ErgoSetting::CameraSensitivityX => "Sensitivity X",
            ErgoSetting::CameraSensitivityY => "Sensitivity Y",
            ErgoSetting::CameraPitchLimit => "Pitch limit",
            ErgoSetting::WingFlapDuration => "Flap duration",
            ErgoSetting::WingFlapAngle => "Flap angle",
            ErgoSetting::WalkCycleRate => "Cycle rate",
            ErgoSetting::WalkCycleSwing => "Max swing",
            ErgoSetting::WalkCycleLift => "Lift amount",
        }
    }
}

/// The field that key `k` names.
pub open spec fn field_named(k: Seq<u8>) -> Option<ErgoSetting> {
    if k == KEY_MOVE_SPEED@ {
        Some(ErgoSetting::MoveSpeed)
    } else if k == KEY_JUMP_VELOCITY@ {
        Some(ErgoSetting::JumpVelocity)
    } else if k == KEY_GRAVITY@ {
        Some(ErgoSetting::Gravity)
    } else if k == KEY_PLANE_LIMIT@ {
        Some(ErgoSetting::PlaneLimit)
    } else if k == KEY_CAMERA_SENSITIVITY_X@ {
        Some(ErgoSetting::CameraSensitivityX)
    } else if k == KEY_CAMERA_SENSITIVITY_Y@ {
        Some(ErgoSetting::CameraSensitivityY)
    } else if k == KEY_CAMERA_PITCH_LIMIT@ {
        Some(ErgoSetting::CameraPitchLimit)
    } else if k == KEY_WING_FLAP_DURATION@ {
        Some(ErgoSetting::WingFlapDuration)
    } else if k == KEY_WING_FLAP_ANGLE@ {
        Some(ErgoSetting::WingFlapAngle)
    } else if k == KEY_WALK_CYCLE_RATE@ {
        Some(ErgoSetting::WalkCycleRate)
    } else if k == KEY_WALK_CYCLE_SWING@ {
        Some(ErgoSetting::WalkCycleSwing)
    } else if k == KEY_WALK_CYCLE_LIFT@ {
        Some(ErgoSetting::WalkCycleLift)
    } else {
        None
    }
}

/// The key a setting is saved under in the preset file, as it is spelled
/// there: the setting's name in lower case with underscores.
pub open spec fn setting_key(s: ErgoSetting) -> Seq<char> {
    match s {
        ErgoSetting::MoveSpeed => "move_speed"@,
        ErgoSetting::JumpVelocity => "jump_velocity"@,
        ErgoSetting::Gravity => "gravity"@,
        ErgoSetting::PlaneLimit => "plane_limit"@,
        ErgoSetting::CameraSensitivityX => "camera_sensitivity_x"@,
        ErgoSetting::CameraSensitivityY => "camera_sensitivity_y"@,
        ErgoSetting::CameraPitchLimit => "camera_pitch_limit"@,
        ErgoSetting::WingFlapDuration => "wing_flap_duration"@,
        ErgoSetting::WingFlapAngle => "wing_flap_angle"@,
        ErgoSetting::WalkCycleRate => "walk_cycle_rate"@,
        ErgoSetting::WalkCycleSwing => "walk_cycle_swing"@,
        ErgoSetting::WalkCycleLift => "walk_cycle_lift"@,
    }
}

/// Keys and settings match one to one: the key a setting is saved under
/// names that setting when read back, and a key names a setting only when it
/// is that setting's key (so, for instance, the horizontal sensitivity key
/// never sets the vertical sensitivity).
pub proof fn lemma_keys_name_their_settings(s: ErgoSetting, k: Seq<u8>)
    ensures
        field_named(encode_utf8(setting_key(s))) == Some(s),
        field_named(k) == Some(s) ==> k == encode_utf8(setting_key(s)),
{
    reveal_strlit("move_speed");
    reveal_strlit("jump_velocity");
    reveal_strlit("gravity");
    reveal_strlit("plane_limit");
    reveal_strlit("camera_sensitivity_x");
    reveal_strlit("camera_sensitivity_y");
    reveal_strlit("camera_pitch_limit");
    reveal_strlit("wing_flap_duration");
    reveal_strlit("wing_flap_angle");
    reveal_strlit("walk_cycle_rate");
    reveal_strlit("walk_cycle_swing");
    reveal_strlit("walk_cycle_lift");
    vstd::utf8::is_ascii_chars_encode_utf8(setting_key(s));
    assert(encode_utf8(setting_key(s)) =~= match s {
        ErgoSetting::MoveSpeed => KEY_MOVE_SPEED@,
        ErgoSetting::JumpVelocity => KEY_JUMP_VELOCITY@,
        ErgoSetting::Gravity => KEY_GRAVITY@,
        ErgoSetting::PlaneLimit => KEY_PLANE_LIMIT@,
        ErgoSetting::CameraSensitivityX => KEY_CAMERA_SENSITIVITY_X@,
        ErgoSetting::CameraSensitivityY => KEY_CAMERA_SENSITIVITY_Y@,
        ErgoSetting::CameraPitchLimit => KEY_CAMERA_PITCH_LIMIT@,
        ErgoSetting::WingFlapDuration => KEY_WING_FLAP_DURATION@,
        ErgoSetting::WingFlapAngle => KEY_WING_FLAP_ANGLE@,
        ErgoSetting::WalkCycleRate => KEY_WALK_CYCLE_RATE@,
        ErgoSetting::WalkCycleSwing => KEY_WALK_CYCLE_SWING@,
        ErgoSetting::WalkCycleLift => KEY_WALK_CYCLE_LIFT@,
    });
}

/// The field that key `k` names; see `field_named`.
pub fn ergo_setting_of(k: &[u8]) -> (r: Option<ErgoSetting>)
    ensures
        r == field_named(k@),
{
    if bytes_eq(k, KEY_MOVE_SPEED.as_slice()) {
        Some(ErgoSetting::MoveSpeed)
    } else if bytes_eq(k, KEY_JUMP_VELOCITY.as_slice()) {
        Some(ErgoSetting::JumpVelocity)
    } else if bytes_eq(k, KEY_GRAVITY.as_slice()) {
        Some(ErgoSetting::Gravity)
    } else if bytes_eq(k, KEY_PLANE_LIMIT.as_slice()) {
        Some(ErgoSetting::PlaneLimit)
    } else if bytes_eq(k, KEY_CAMERA_SENSITIVITY_X.as_slice()) {
        Some(ErgoSetting::CameraSensitivityX)
    } else if bytes_eq(k, KEY_CAMERA_SENSITIVITY_Y.as_slice()) {
        Some(ErgoSetting::CameraSensitivityY)
    } else if bytes_eq(k, KEY_CAMERA_PITCH_LIMIT.as_slice()) {
        Some(ErgoSetting::CameraPitchLimit)
    } else if bytes_eq(k, KEY_WING_FLAP_DURATION.as_slice()) {
        Some(ErgoSetting::WingFlapDuration)
    } else if bytes_eq(k, KEY_WING_FLAP_ANGLE.as_slice()) {
        Some(ErgoSetting::WingFlapAngle)
    } else if bytes_eq(k, KEY_WALK_CYCLE_RATE.as_slice()) {
        Some(ErgoSetting::WalkCycleRate)
    } else if bytes_eq(k, KEY_WALK_CYCLE_SWING.as_slice()) {
        Some(ErgoSetting::WalkCycleSwing)
    } else if bytes_eq(k, KEY_WALK_CYCLE_LIFT.as_slice()) {
        Some(ErgoSetting::WalkCycleLift)
    } else {
        None
    }
}

/// The lines of `s` from `i` on, as `str::lines` gives them: split at line
/// feeds, a carriage return before a line feed dropped, no line after a
/// final line feed.
pub open spec fn text_lines(s: Seq<u8>, i: nat) -> Seq<Seq<u8>>
    decreases s.len() - i,
{
    if i >= s.len() {
        Seq::empty()
    } else {
        let e = crate::udmf::line_end(s, i);
        proof {
            crate::udmf::lemma_line_end_bounds(s, i);
        }
        if e < s.len() {
            let l = s.subrange(i as int, e as int);
            let l2 = if l.len() > 0 && l.last() == 13 {
                l.drop_last()
            } else {
                l
            };
            seq![l2] + text_lines(s, e + 1)
        } else {
            seq![s.subrange(i as int, s.len() as int)]
        }
    }
}

/// The lines of `s`; see `text_lines`.
pub fn split_lines(s: &[u8]) -> (r: Vec<Vec<u8>>)
    ensures
        r@.map_values(|l: Vec<u8>| l@) == text_lines(s@, 0),
{
    let n = s.len();
    let mut out: Vec<Vec<u8>> = Vec::new();
    let mut i: usize = 0;
    proof {
        assert(out@.map_values(|l: Vec<u8>| l@) + text_lines(s@, 0) =~= text_lines(s@, 0));
    }
    while i < n
        invariant
            i <= n,
            n == s@.len(),
            out@.map_values(|l: Vec<u8>| l@) + text_lines(s@, i as nat) == text_lines(s@, 0),
        decreases n - i,
    {
        let mut e: usize = i;
        while e < n && s[e] != 10
            invariant
                i <= e <= n,
                n == s@.len(),
                crate::udmf::line_end(s@, e as nat) == crate::udmf::line_end(s@, i as nat),
            decreases n - e,
        {
            e = e + 1;
        }
        let ghost before = out@.map_values(|l: Vec<u8>| l@);
        if e < n {
            let hi = if e > i && s[e - 1] == 13 {
                e - 1
            } else {
                e
            };
            let line = copy_range(s, i, hi);
            proof {
                let l = s@.subrange(i as int, e as int);
                if l.len() > 0 && l.last() == 13 {
                    assert(line@ =~= l.drop_last());
                } else {
                    assert(line@ =~= l);
                }
            }
            out.push(line);
            proof {
                assert(out@.map_values(|l: Vec<u8>| l@) =~= before.push(line@));
                assert(before.push(line@) + text_lines(s@, (e + 1) as nat) =~= before + text_lines(s@, i as nat));
            }
            i = e + 1;
        } else {
            let line = copy_range(s, i, n);
            out.push(line);
            proof {
                assert(out@.map_values(|l: Vec<u8>| l@) =~= before.push(line@));
                assert(text_lines(s@, n as nat) =~= Seq::<Seq<u8>>::empty());
                assert(before.push(line@) + text_lines(s@, n as nat) =~= before + text_lines(s@, i as nat));
            }
            i = n;
        }
    }
    proof {
        assert(out@.map_values(|l: Vec<u8>| l@) + text_lines(s@, n as nat) =~= out@.map_values(|l: Vec<u8>| l@));
    }
    out
}

/// What one preset line gives for `slot`: the field its key names (if
/// any) and the text after its `=`. Blank and `#` lines, lines without
/// `=`, lines of other slots, and unprefixed lines for a slot other than
/// `grounded` give nothing.
pub open spec fn line_assignment(line: Seq<u8>, slot: ErgoPresetSlot) -> Option<(Option<ErgoSetting>, Seq<u8>)> {
    let t = utrim(line);
    if t.len() == 0 || t[0] == 35 {
        None
    } else {
        match find_byte(t, 61, 0) {
            None => None,
            Some(q) => {
                let key = utrim(t.subrange(0, q as int));
                let value = t.subrange(q + 1int, t.len() as int);
                match find_byte(key, 46, 0) {
                    Some(d) => if key.subrange(0, d as int) != slot_id_bytes(slot) {
                        None
                    } else {
                        Some((field_named(key.subrange(d + 1int, key.len() as int)), value))
                    },
                    None => if slot != ErgoPresetSlot::Grounded {
                        None
                    } else {
                        Some((field_named(key), value))
                    },
                }
            },
        }
    }
}

/// The assignments that `lines` give for `slot`, in order.
pub open spec fn assignments(lines: Seq<Seq<u8>>, slot: ErgoPresetSlot) -> Seq<(Option<ErgoSetting>, Seq<u8>)>
    decreases lines.len(),
{
    if lines.len() == 0 {
        Seq::empty()
    } else {
        let rest = assignments(lines.drop_last(), slot);
        match line_assignment(lines.last(), slot) {
            Some(a) => rest.push(a),
            None => rest,
        }
    }
}

/// An assignment of a preset line: the field (none for an unknown key) and
/// the value's text.
#[derive(Debug, Clone)]
pub struct PresetAssignment {
    pub field: Option<ErgoSetting>,
    pub value: Vec<u8>,
}

impl View for PresetAssignment {
    type V = (Option<ErgoSetting>, Seq<u8>);

    open spec fn view(&self) -> (Option<ErgoSetting>, Seq<u8>) {
        (self.field, self.value@)
    }
}

fn first_index_of(s: &[u8], b: u8) -> (r: Option<usize>)
    ensures
        match find_byte(s@, b, 0) {
            None => r is None,
            Some(q) => r == Some(q as usize),
        },
{
    let mut i: usize = 0;
    while i < s.len()
        invariant
            i <= s@.len(),
            find_byte(s@, b, i as nat) == find_byte(s@, b, 0),
        decreases s@.len() - i,
    {
        if s[i] == b {
            return Some(i);
        }
        i = i + 1;
    }
    None
}

/// What one preset line gives for `slot`; see `line_assignment`.
pub fn preset_line_assignment(line: &[u8], slot: ErgoPresetSlot) -> (r: Option<PresetAssignment>)
    ensures
        match line_assignment(line@, slot) {
            None => r is None,
            Some(a) => r matches Some(v) && v@ == a,
        },
{
    let t = trim_text(line);
    if t.len() == 0 || t[0] == 35 {
        return None;
    }
    let q = match first_index_of(t.as_slice(), 61) {
        None => {
            return None;
        },
        Some(q) => q,
    };
    proof {
        crate::udmf::lemma_find_byte_bounds(t@, 61, 0);
    }
    let key_raw = copy_range(t.as_slice(), 0, q);
    let key = trim_text(key_raw.as_slice());
    let value = copy_range(t.as_slice(), q + 1, t.len());
    match first_index_of(key.as_slice(), 46) {
        Some(d) => {
            proof {
                crate::udmf::lemma_find_byte_bounds(key@, 46, 0);
                assert(d < key@.len());
            }
            let prefix = copy_range(key.as_slice(), 0, d);
            let id = slot_id_array(slot);
            if !bytes_eq(prefix.as_slice(), id.as_slice()) {
                return None;
            }
            let scoped = copy_range(key.as_slice(), d + 1, key.len());
            Some(PresetAssignment { field: ergo_setting_of(scoped.as_slice()), value })
        },
        None => {
            if slot != ErgoPresetSlot::Grounded {
                return None;
            }
            Some(PresetAssignment { field: ergo_setting_of(key.as_slice()), value })
        },
    }
}

/// The assignments that the preset text `raw` gives for `slot`, in order;
/// see `assignments`.
pub fn preset_assignments(raw: &[u8], slot: ErgoPresetSlot) -> (r: Vec<PresetAssignment>)
    ensures
        r@.map_values(|a: PresetAssignment| a@) == assignments(text_lines(raw@, 0), slot),
{
    let lines = split_lines(raw);
    let ghost ls = lines@.map_values(|l: Vec<u8>| l@);
    let mut out: Vec<PresetAssignment> = Vec::new();
    let mut i: usize = 0;
    proof {
        assert(ls.take(0) =~= Seq::<Seq<u8>>::empty());
        assert(out@.map_values(|a: PresetAssignment| a@) =~= Seq::<(Option<ErgoSetting>, Seq<u8>)>::empty());
    }
    while i < lines.len()
        invariant
            i <= lines@.len(),
            ls == lines@.map_values(|l: Vec<u8>| l@),
            out@.map_values(|a: PresetAssignment| a@) == assignments(ls.take(i as int), slot),
        decreases lines@.len() - i,
    {
        proof {
            assert(ls.take(i + 1).drop_last() =~= ls.take(i as int));
            assert(ls.take(i + 1).last() == lines@[i as int]@);
        }
        let ghost before = out@.map_values(|a: PresetAssignment| a@);
        match preset_line_assignment(lines[i].as_slice(), slot) {
            Some(a) => {
                let ghost av = a@;
                out.push(a);
                proof {
                    assert(out@.map_values(|a: PresetAssignment| a@) =~= before.push(av));
                }
            },
            None => {},
        }
        i = i + 1;
    }
    proof {
        assert(ls.take(lines@.len() as int) =~= ls);
    }
    out
}

/// Whether `line`, trimmed, starts with `slot`'s identifier and a dot.
pub open spec fn line_of_slot(line: Seq<u8>, slot: ErgoPresetSlot) -> bool {
    let t = utrim(line);
    let p = slot_id_bytes(slot).push(46u8);
    t.len() >= p.len() && t.subrange(0, p.len() as int) == p
}

/// The lines of `lines` that do not belong to `slot`, in order.
pub open spec fn lines_kept(lines: Seq<Seq<u8>>, slot: ErgoPresetSlot) -> Seq<Seq<u8>>
    decreases lines.len(),
{
    if lines.len() == 0 {
        Seq::empty()
    } else {
        let rest = lines_kept(lines.drop_last(), slot);
        if line_of_slot(lines.last(), slot) {
            rest
        } else {
            rest.push(lines.last())
        }
    }
}

/// The lines of the preset text `existing` that saving `slot` keeps: all
/// lines but those of `slot`, unchanged and in order.
pub fn retained_preset_lines(existing: &[u8], slot: ErgoPresetSlot) -> (r: Vec<Vec<u8>>)
    ensures
        r@.map_values(|l: Vec<u8>| l@) == lines_kept(text_lines(existing@, 0), slot),
{
    let lines = split_lines(existing);
    let ghost ls = lines@.map_values(|l: Vec<u8>| l@);
    let mut prefix = slot_id_array(slot);
    prefix.push(46);
    let mut out: Vec<Vec<u8>> = Vec::new();
    let mut i: usize = 0;
    proof {
        assert(out@.map_values(|l: Vec<u8>| l@) =~= lines_kept(ls.take(0), slot));
    }
    while i < lines.len()
        invariant
            i <= lines@.len(),
            ls == lines@.map_values(|l: Vec<u8>| l@),
            prefix@ == slot_id_bytes(slot).push(46u8),
            out@.map_values(|l: Vec<u8>| l@) == lines_kept(ls.take(i as int), slot),
        decreases lines@.len() - i,
    {
        proof {
            assert(ls.take(i + 1).drop_last() =~= ls.take(i as int));
            assert(ls.take(i + 1).last() == lines@[i as int]@);
        }
        let t = trim_text(lines[i].as_slice());
        let mut starts = t.len() >= prefix.len();
        if starts {
            let head = copy_range(t.as_slice(), 0, prefix.len());
            starts = bytes_eq(head.as_slice(), prefix.as_slice());
        }
        if !starts {
            let ghost before = out@.map_values(|l: Vec<u8>| l@);
            out.push(lines[i].clone());
            proof {
                assert(out@.map_values(|l: Vec<u8>| l@) =~= before.push(lines@[i as int]@));
            }
        }
        i = i + 1;
    }
    proof {
        assert(ls.take(lines@.len() as int) =~= ls);
    }
    out
}

/// A written preset line reads back: the line `slot.key=value` gives, for
/// `slot`, the field that `key` names and the text `value`.
#[verifier::spinoff_prover]
#[verifier::rlimit(40)]
pub proof fn lemma_slot_line_assigns(slot: ErgoPresetSlot, key: Seq<u8>, value: Seq<u8>)
    requires
        key.len() > 0,
        forall|i: int| 0 <= i < key.len() ==> 97 <= #[trigger] key[i] <= 122 || key[i] == 95,
        forall|i: int| 0 <= i < value.len() ==> 48 <= #[trigger] value[i] <= 57,
    ensures
        line_assignment(slot_id_bytes(slot).push(46u8) + key + seq![61u8] + value, slot)
            == Some((field_named(key), value)),
{
    let id = slot_id_bytes(slot);
    let kpart = id.push(46u8) + key;
    let line = kpart + seq![61u8] + value;
    assert(forall|k: int| 0 <= k < id.len() ==> 97 <= #[trigger] id[k] <= 122);
    assert forall|k: int| 0 <= k < kpart.len() implies 46 <= #[trigger] kpart[k] <= 122 && kpart[k] != 61 by {
        if k < id.len() {
            assert(kpart[k] == id[k]);
        } else if k > id.len() {
            assert(kpart[k] == key[k - id.len() - 1]);
        }
    }
    assert forall|k: int| 0 <= k < line.len() implies 46 <= #[trigger] line[k] <= 122 || (48 <= line[k] <= 61) by {
        if k < kpart.len() {
            assert(line[k] == kpart[k]);
        } else if k > kpart.len() {
            assert(line[k] == value[k - kpart.len() - 1]);
        }
    }
    lemma_utrim_plain(line);
    lemma_utrim_plain(kpart);
    let q = kpart.len();
    assert(line[q as int] == 61);
    assert forall|k: int| 0 <= k < q implies line[k] != 61 by {
        assert(line[k] == kpart[k]);
    }
    lemma_find_first(line, 61, q);
    assert(line.subrange(0, q as int) =~= kpart);
    assert(line.subrange(q + 1int, line.len() as int) =~= value);
    assert forall|k: int| 0 <= k < id.len() implies kpart[k] != 46 by {
        assert(kpart[k] == id[k]);
    }
    lemma_find_first(kpart, 46, id.len());
    assert(kpart.subrange(0, id.len() as int) =~= id);
    assert(kpart.subrange(id.len() + 1int, kpart.len() as int) =~= key);
}

/// A line of another slot sets nothing when a slot is loaded: with keys and
/// values as in `lemma_slot_line_assigns`, `other.key=value` is no
/// assignment for `slot`.
pub proof fn lemma_other_slot_line_ignored(slot: ErgoPresetSlot, other: ErgoPresetSlot, key: Seq<u8>, value: Seq<u8>)
    requires
        other != slot,
        key.len() > 0,
        forall|i: int| 0 <= i < key.len() ==> 97 <= #[trigger] key[i] <= 122 || key[i] == 95,
        forall|i: int| 0 <= i < value.len() ==> 48 <= #[trigger] value[i] <= 57,
    ensures
        line_assignment(slot_id_bytes(other).push(46u8) + key + seq![61u8] + value, slot) is None,
{
    let id = slot_id_bytes(other);
    let kpart = id.push(46u8) + key;
    let line = kpart + seq![61u8] + value;
    assert(forall|k: int| 0 <= k < id.len() ==> 97 <= #[trigger] id[k] <= 122);
    assert forall|k: int| 0 <= k < kpart.len() implies 46 <= #[trigger] kpart[k] <= 122 && kpart[k] != 61 by {
        if k < id.len() {
            assert(kpart[k] == id[k]);
        } else if k > id.len() {
            assert(kpart[k] == key[k - id.len() - 1]);
        }
    }
    assert forall|k: int| 0 <= k < line.len() implies 46 <= #[trigger] line[k] <= 122 || (48 <= line[k] <= 61) by {
        if k < kpart.len() {
            assert(line[k] == kpart[k]);
        } else if k > kpart.len() {
            assert(line[k] == value[k - kpart.len() - 1]);
        }
    }
    lemma_utrim_plain(line);
    lemma_utrim_plain(kpart);
    let q = kpart.len();
    assert(line[q as int] == 61);
    assert forall|k: int| 0 <= k < q implies line[k] != 61 by {
        assert(line[k] == kpart[k]);
    }
    lemma_find_first(line, 61, q);
    assert(line.subrange(0, q as int) =~= kpart);
    assert(line.subrange(q + 1int, line.len() as int) =~= value);
    assert forall|k: int| 0 <= k < id.len() implies kpart[k] != 46 by {
        assert(kpart[k] == id[k]);
    }
    lemma_find_first(kpart, 46, id.len());
    assert(kpart.subrange(0, id.len() as int) =~= id);
    assert(kpart.subrange(id.len() + 1int, kpart.len() as int) =~= key);
    assert(ARCADE_ID@[0] != GROUNDED_ID@[0] && ARCADE_ID@[0] != FLOATY_ID@[0] && GROUNDED_ID@[0] != FLOATY_ID@[0]);
    assert(slot_id_bytes(other)[0] != slot_id_bytes(slot)[0]);
}

/// Text of printable ASCII without spaces is its own trim.
proof fn lemma_utrim_plain(s: Seq<u8>)
    requires
        s.len() > 0,
        forall|k: int| 0 <= k < s.len() ==> 33 <= #[trigger] s[k] <= 126,
    ensures
        utrim(s) == s,
{
    assert(crate::udmf::ws_len_at(s, 0) == 0);
    assert(crate::udmf::skip_uws(s, 0) == 0);
    let n = s.len() as int;
    assert(33 <= s[n - 1] <= 126);
    if n >= 2 {
        assert(33 <= s[n - 2] <= 126);
    }
    if n >= 3 {
        assert(33 <= s[n - 3] <= 126);
    }
    assert(crate::udmf::ws_len_before(s, n) == 0);
    assert(crate::udmf::back_uws(s, 0, s.len()) == s.len());
    assert(utrim(s) =~= s);
}

/// `find_byte` finds the first position holding `b`.
proof fn lemma_find_first(s: Seq<u8>, b: u8, q: nat)
    requires
        q < s.len(),
        s[q as int] == b,
        forall|k: int| 0 <= k < q ==> s[k] != b,
    ensures
        find_byte(s, b, 0) == Some(q),
{
    lemma_find_from(s, b, 0, q);
}

proof fn lemma_find_from(s: Seq<u8>, b: u8, i: nat, q: nat)
    requires
        i <= q < s.len(),
        s[q as int] == b,
        forall|k: int| i <= k < q ==> s[k] != b,
    ensures
        find_byte(s, b, i) == Some(q),
    decreases q - i,
{
    if i < q {
        lemma_find_from(s, b, i + 1, q);
    }
}

} // verus!

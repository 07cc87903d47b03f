use learning::ergo_preset::{
    ergo_setting_of, preset_assignments, preset_line_assignment, retained_preset_lines, split_lines,
    ErgoSetting, ErgoPresetSlot,
};

#[test]
fn preset_slot_ids_and_labels() {
    assert_eq!(ErgoPresetSlot::Arcade.id(), "arcade");
    assert_eq!(ErgoPresetSlot::Grounded.id(), "grounded");
    assert_eq!(ErgoPresetSlot::Floaty.label(), "Floaty");
    assert_eq!(ErgoPresetSlot::from_id("  Floaty\n"), Some(ErgoPresetSlot::Floaty));
    assert_eq!(ErgoPresetSlot::from_id("GROUNDED"), Some(ErgoPresetSlot::Grounded));
    assert_eq!(ErgoPresetSlot::from_id("arcades"), None);
    for slot in [ErgoPresetSlot::Arcade, ErgoPresetSlot::Grounded, ErgoPresetSlot::Floaty] {
        assert_eq!(ErgoPresetSlot::from_id(slot.id()), Some(slot));
    }
}

#[test]
fn preset_lines_split_like_str_lines() {
    let text = "a\r\nb\n\nc\r";
    let got: Vec<Vec<u8>> = split_lines(text.as_bytes());
    let want: Vec<Vec<u8>> = text.lines().map(|l| l.as_bytes().to_vec()).collect();
    assert_eq!(got, want);
    assert!(split_lines(b"").is_empty());
    assert_eq!(split_lines(b"x\n"), vec![b"x".to_vec()]);
}

#[test]
fn preset_lines_assign_fields_of_the_slot() {
    let raw = b"# tuning\n\
arcade.move_speed=6.5\n\
grounded.gravity = 9.0\n\
  arcade.jump_velocity =7\r\n\
floaty.gravity=2\n\
plane_limit=12\n\
arcade.unknown=1\n\
arcade.walk_cycle_lift\n";
    let arcade = preset_assignments(raw, ErgoPresetSlot::Arcade);
    let got: Vec<(Option<ErgoSetting>, Vec<u8>)> = arcade.into_iter().map(|a| (a.field, a.value)).collect();
    assert_eq!(
        got,
        vec![
            (Some(ErgoSetting::MoveSpeed), b"6.5".to_vec()),
            (Some(ErgoSetting::JumpVelocity), b"7".to_vec()),
            (None, b"1".to_vec()),
        ]
    );
    // Unprefixed lines belong to the grounded slot.
    let grounded = preset_assignments(raw, ErgoPresetSlot::Grounded);
    let got: Vec<(Option<ErgoSetting>, Vec<u8>)> = grounded.into_iter().map(|a| (a.field, a.value)).collect();
    assert_eq!(
        got,
        vec![(Some(ErgoSetting::Gravity), b" 9.0".to_vec()), (Some(ErgoSetting::PlaneLimit), b"12".to_vec())]
    );
    assert!(preset_line_assignment(b"   ", ErgoPresetSlot::Floaty).is_none());
    assert!(preset_line_assignment(b"#floaty.gravity=1", ErgoPresetSlot::Floaty).is_none());
    assert_eq!(ergo_setting_of(b"camera_pitch_limit"), Some(ErgoSetting::CameraPitchLimit));
    assert_eq!(ergo_setting_of(b"Camera_pitch_limit"), None);
}

#[test]
fn preset_save_keeps_other_slots() {
    let existing = b"arcade.move_speed=1\n  floaty.gravity=2\r\nfloaty_x=3\nmove_speed=4";
    let kept = retained_preset_lines(existing, ErgoPresetSlot::Floaty);
    assert_eq!(kept, vec![b"arcade.move_speed=1".to_vec(), b"floaty_x=3".to_vec(), b"move_speed=4".to_vec()]);
    let kept = retained_preset_lines(existing, ErgoPresetSlot::Arcade);
    assert_eq!(kept.len(), 3);
    assert_eq!(kept[0], b"  floaty.gravity=2".to_vec());
}

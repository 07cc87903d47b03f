use learning::settings::{parse_hex_rgb, ControlAction, ControlBindings, MaterialProperty};

fn bindings() -> ControlBindings<char> {
    ControlBindings {
        toggle_pause: 'f',
        toggle_mach_menu: '8',
        reset_vertical: 'x',
        reset_speed: 'r',
        jump: ' ',
        move_forward: 'w',
        move_backward: 's',
        move_left: 'a',
        move_right: 'd',
        turn_right: '>',
        turn_left: '<',
        pitch_up: '^',
        pitch_down: 'v',
    }
}

#[test]
fn control_actions_are_listed_and_labelled() {
    let all = ControlAction::all();
    assert_eq!(all.len(), 13);
    assert_eq!(all[0], ControlAction::TogglePause);
    assert_eq!(all[12], ControlAction::PitchDown);
    assert_eq!(ControlAction::ResetSpeed.label(), "Reset horizontal speed");
    assert_eq!(ControlAction::ToggleMachMenu.label(), "Toggle Mach menu");
    assert_eq!(MaterialProperty::Roughness.label(), "Roughness");
}

#[test]
fn rebinding_changes_one_action() {
    let mut b = bindings();
    assert_eq!(b.key_for(ControlAction::Jump), ' ');
    b.set_key(ControlAction::Jump, 'j');
    assert_eq!(b.key_for(ControlAction::Jump), 'j');
    for action in ControlAction::all() {
        if action != ControlAction::Jump {
            assert_eq!(b.key_for(action), bindings().key_for(action));
        }
    }
}

#[test]
fn hex_codes_give_color_bytes() {
    assert_eq!(parse_hex_rgb("CC4D4D"), Some([0xCC, 0x4D, 0x4D]));
    assert_eq!(parse_hex_rgb("00ff7f"), Some([0, 255, 127]));
    assert_eq!(parse_hex_rgb("+f+0+a"), Some([15, 0, 10]));
    assert_eq!(parse_hex_rgb("-f0000"), None);
    assert_eq!(parse_hex_rgb("CC4D4"), None);
    assert_eq!(parse_hex_rgb("GG0000"), None);
}

#[test]
fn hex_pairs_match_from_str_radix() {
    let chars = "0123456789abcdefABCDEFgG+- z";
    for a in chars.chars() {
        for b in chars.chars() {
            let code = format!("{a}{b}0000");
            let ours = parse_hex_rgb(&code).map(|c| c[0]);
            let std = u8::from_str_radix(&code[0..2], 16).ok();
            assert_eq!(ours, std, "pair {:?}", &code[0..2]);
        }
    }
}

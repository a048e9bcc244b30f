use rsbasic::keys::{caps_bindings, inkey_step, map_key, InputEvent, KeyCode, KeyKind};

#[test]
fn editing_and_cursor_keys_send_their_codes() {
    assert_eq!(map_key(KeyCode::Backspace, false), "\x08");
    assert_eq!(map_key(KeyCode::Enter, false), "\x0D");
    assert_eq!(map_key(KeyCode::Esc, false), "\x1B");
    assert_eq!(map_key(KeyCode::Tab, false), "\x09");
    assert_eq!(map_key(KeyCode::Up, false), "\x00H");
    assert_eq!(map_key(KeyCode::Down, true), "\x00P");
    assert_eq!(map_key(KeyCode::Left, false), "\x00K");
    assert_eq!(map_key(KeyCode::Right, false), "\x00M");
    assert_eq!(map_key(KeyCode::Delete, false), "\x00S");
    assert_eq!(map_key(KeyCode::Insert, false), "\x00R");
    assert_eq!(map_key(KeyCode::Home, false), "\x00G");
    assert_eq!(map_key(KeyCode::End, false), "\x00O");
    assert_eq!(map_key(KeyCode::PageUp, false), "\x00I");
    assert_eq!(map_key(KeyCode::PageDown, false), "\x00Q");
    assert_eq!(map_key(KeyCode::Other, false), "");
}

#[test]
fn character_keys_send_the_character() {
    assert_eq!(map_key(KeyCode::Char('a'), false), "a");
    assert_eq!(map_key(KeyCode::Char('é'), false), "é");
}

#[test]
fn control_shifts_the_character_down_by_sixty() {
    assert_eq!(map_key(KeyCode::Char('a'), true), "%");
    assert_eq!(map_key(KeyCode::Char('<'), true), "\0");
    assert_eq!(map_key(KeyCode::Char('\u{e000}'), true), "");
    assert_eq!(map_key(KeyCode::Char('\u{e03c}'), true), "\u{e000}");
}

#[test]
fn control_below_the_shift_sends_nothing() {
    assert_eq!(map_key(KeyCode::Char(';'), true), "");
    assert_eq!(map_key(KeyCode::Char('1'), true), "");
    assert_eq!(map_key(KeyCode::Char('\0'), true), "");
    let press = InputEvent::Key { code: KeyCode::Char(' '), ctrl: true, kind: KeyKind::Press };
    assert_eq!(inkey_step(Some(press)), Some(String::new()));
}

#[test]
fn inkey_waits_for_a_press() {
    assert_eq!(inkey_step(None), Some(String::new()));
    let press = InputEvent::Key { code: KeyCode::Char('q'), ctrl: false, kind: KeyKind::Press };
    assert_eq!(inkey_step(Some(press)), Some("q".to_string()));
    let repeat = InputEvent::Key { code: KeyCode::Enter, ctrl: false, kind: KeyKind::Repeat };
    assert_eq!(inkey_step(Some(repeat)), Some("\r".to_string()));
    let release = InputEvent::Key { code: KeyCode::Char('q'), ctrl: false, kind: KeyKind::Release };
    assert_eq!(inkey_step(Some(release)), None);
    assert_eq!(inkey_step(Some(InputEvent::Other)), None);
}

#[test]
fn caps_editor_binds_each_letter_to_its_capital() {
    let v = caps_bindings();
    assert_eq!(v.len(), 26);
    assert_eq!(v[0], ('a', "A".to_string()));
    assert_eq!(v[25], ('z', "Z".to_string()));
    for (c, s) in v {
        assert_eq!(s, c.to_ascii_uppercase().to_string());
    }
}

use myaku::input::{
    map_key, to_awase_key, to_awase_modifiers, Action, HotkeyKey, HotkeyModifiers, KeyCode, KeyEvent,
    Mode, Modifiers,
};

fn key(code: KeyCode) -> KeyEvent {
    KeyEvent { key: code, pressed: true, modifiers: Modifiers::default(), text: None }
}

fn key_shift(code: KeyCode) -> KeyEvent {
    KeyEvent {
        key: code,
        pressed: true,
        modifiers: Modifiers { shift: true, ..Default::default() },
        text: None,
    }
}

#[test]
fn dashboard_quit() {
    assert_eq!(map_key(&key(KeyCode::Char('q')), Mode::Dashboard), Action::Quit);
}

#[test]
fn dashboard_switch_process() {
    assert_eq!(map_key(&key(KeyCode::Char('p')), Mode::Dashboard), Action::SwitchProcess);
}

#[test]
fn dashboard_vim_navigation() {
    assert_eq!(map_key(&key(KeyCode::Char('j')), Mode::Dashboard), Action::Down);
    assert_eq!(map_key(&key(KeyCode::Char('k')), Mode::Dashboard), Action::Up);
    assert_eq!(map_key(&key(KeyCode::Char('h')), Mode::Dashboard), Action::FocusPrev);
    assert_eq!(map_key(&key(KeyCode::Char('l')), Mode::Dashboard), Action::FocusNext);
}

#[test]
fn process_sort_cycle() {
    assert_eq!(map_key(&key(KeyCode::Char('s')), Mode::Process), Action::CycleSort);
}

#[test]
fn process_filter_entry() {
    assert_eq!(map_key(&key(KeyCode::Char('/')), Mode::Process), Action::EnterFilter);
}

#[test]
fn process_escape_back() {
    assert_eq!(map_key(&key(KeyCode::Escape), Mode::Process), Action::Back);
}

#[test]
fn filter_char_input() {
    assert_eq!(map_key(&key(KeyCode::Char('a')), Mode::Filter), Action::Char('a'));
}

#[test]
fn filter_backspace() {
    assert_eq!(map_key(&key(KeyCode::Backspace), Mode::Filter), Action::Backspace);
}

#[test]
fn filter_escape_exits() {
    assert_eq!(map_key(&key(KeyCode::Escape), Mode::Filter), Action::Back);
}

#[test]
fn released_keys_ignored() {
    let mut k = key(KeyCode::Char('q'));
    k.pressed = false;
    assert_eq!(map_key(&k, Mode::Dashboard), Action::NoAction);
}

#[test]
fn awase_key_conversion() {
    assert_eq!(to_awase_key(&KeyCode::Char('a')), Some(HotkeyKey::A));
    assert_eq!(to_awase_key(&KeyCode::Escape), Some(HotkeyKey::Escape));
    assert_eq!(to_awase_key(&KeyCode::Enter), Some(HotkeyKey::Return));
}

#[test]
fn awase_modifier_conversion() {
    let mods = Modifiers { ctrl: true, shift: true, ..Default::default() };
    let awase_mods = to_awase_modifiers(&mods);
    assert!(awase_mods.contains(HotkeyModifiers::ctrl()));
    assert!(awase_mods.contains(HotkeyModifiers::shift()));
    assert!(!awase_mods.contains(HotkeyModifiers::cmd()));
}

#[test]
fn modifier_bits_match_hotkey_vocabulary() {
    let all = Modifiers { ctrl: true, alt: true, shift: true, meta: true };
    assert_eq!(to_awase_modifiers(&all).bits, 0b1111);
    assert!(to_awase_modifiers(&Modifiers::default()).is_empty());
    assert_eq!(to_awase_modifiers(&Modifiers { alt: true, ..Default::default() }).bits, 4);
    assert_eq!(to_awase_key(&KeyCode::Char('+')), Some(HotkeyKey::Equal));
    assert_eq!(to_awase_key(&KeyCode::Char('Z')), Some(HotkeyKey::Z));
    assert_eq!(to_awase_key(&KeyCode::Char('1')), None);
    assert_eq!(to_awase_key(&KeyCode::Other), None);
}

#[test]
fn modified_hotkeys_fall_through() {
    let ctrl_q = KeyEvent {
        key: KeyCode::Char('q'),
        pressed: true,
        modifiers: Modifiers { ctrl: true, ..Default::default() },
        text: None,
    };
    assert_eq!(map_key(&ctrl_q, Mode::Dashboard), Action::NoAction);
    assert_eq!(map_key(&key(KeyCode::Char('Q')), Mode::Dashboard), Action::Quit);
    assert_eq!(map_key(&key(KeyCode::Escape), Mode::Dashboard), Action::Quit);
    assert_eq!(map_key(&key(KeyCode::Tab), Mode::Dashboard), Action::FocusNext);
    assert_eq!(map_key(&key_shift(KeyCode::Tab), Mode::Dashboard), Action::FocusPrev);
}

#[test]
fn process_view_bindings() {
    assert_eq!(map_key(&key(KeyCode::Char('g')), Mode::Process), Action::First);
    assert_eq!(map_key(&key_shift(KeyCode::Char('G')), Mode::Process), Action::Last);
    assert_eq!(map_key(&key(KeyCode::Char('G')), Mode::Process), Action::NoAction);
    assert_eq!(map_key(&key_shift(KeyCode::Char('s')), Mode::Process), Action::ToggleSortDirection);
    assert_eq!(map_key(&key(KeyCode::Char('r')), Mode::Process), Action::ForceRefresh);
    assert_eq!(map_key(&key_shift(KeyCode::Char('r')), Mode::Process), Action::NoAction);
    assert_eq!(map_key(&key(KeyCode::Char('d')), Mode::Process), Action::SwitchDashboard);
    assert_eq!(map_key(&key(KeyCode::PageDown), Mode::Process), Action::PageDown);
    assert_eq!(map_key(&key(KeyCode::Tab), Mode::Process), Action::FocusNext);
    assert_eq!(map_key(&key(KeyCode::Char('q')), Mode::Process), Action::Quit);
    assert_eq!(map_key(&key(KeyCode::Enter), Mode::Filter), Action::Confirm);
    assert_eq!(map_key(&key(KeyCode::Char('q')), Mode::Filter), Action::Char('q'));
}

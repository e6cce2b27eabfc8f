use chip_8::ui::menu::{is_rom_extension, Menu, MenuKey};
use chip_8::ui::{is_too_small, State};

fn menu() -> Menu {
    Menu::new(
        vec!["games".to_string(), "tests".to_string()],
        vec![
            vec!["roms/games/pong.ch8".to_string(), "roms/games/tetris.ch8".to_string()],
            vec!["roms/tests/ibm.ch8".to_string()],
        ],
    )
}

#[test]
fn escape_quits_menu_and_leaves_emulation() {
    assert!(State::default() == State::Menu);
    assert!(State::Menu.on_escape().is_none());
    assert!(State::Emulation.on_escape() == Some(State::Menu));
}

#[test]
fn chosen_rom_starts_emulation() {
    assert!(State::Menu.after_menu_key(true) == State::Emulation);
    assert!(State::Menu.after_menu_key(false) == State::Menu);
    assert!(State::Emulation.after_menu_key(true) == State::Emulation);
}

#[test]
fn terminal_size_limits() {
    assert!(!is_too_small(130, 36));
    assert!(is_too_small(129, 36));
    assert!(is_too_small(130, 35));
}

#[test]
fn menu_navigation_and_choice() {
    let mut m = menu();
    assert_eq!(m.category(), 0);
    assert!(m.selected_rom().is_none());
    assert_eq!(m.update(MenuKey::Up), None);
    assert_eq!(m.category(), 0);
    assert_eq!(m.update(MenuKey::Down), None);
    assert_eq!(m.category(), 1);
    assert_eq!(m.update(MenuKey::Down), None);
    assert_eq!(m.category(), 1);
    m.update(MenuKey::Up);
    assert_eq!(m.category(), 0);
    m.update(MenuKey::Right);
    assert_eq!(m.selected_rom(), Some(0));
    m.update(MenuKey::Down);
    assert_eq!(m.selected_rom(), Some(1));
    m.update(MenuKey::Down);
    assert_eq!(m.selected_rom(), Some(1));
    assert_eq!(m.update(MenuKey::Enter), Some("roms/games/tetris.ch8".to_string()));
    m.update(MenuKey::Up);
    assert_eq!(m.selected_rom(), Some(0));
    m.update(MenuKey::Up);
    assert_eq!(m.selected_rom(), Some(0));
    m.update(MenuKey::Left);
    assert!(m.selected_rom().is_none());
    m.update(MenuKey::Down);
    m.update(MenuKey::Enter);
    assert_eq!(m.update(MenuKey::Enter), Some("roms/tests/ibm.ch8".to_string()));
    m.update(MenuKey::Backspace);
    assert!(m.selected_rom().is_none());
    assert_eq!(m.rom_categories().len(), 2);
    assert_eq!(m.roms()[1].len(), 1);
}

#[test]
fn menu_refuses_what_would_fail() {
    let mut empty = Menu::new(vec![], vec![]);
    assert!(!empty.can_update(MenuKey::Down));
    assert!(empty.can_update(MenuKey::Up));
    empty.update(MenuKey::Enter);
    assert!(!empty.can_update(MenuKey::Enter));
    assert!(!empty.can_update(MenuKey::Down));
    let mut m = Menu::new(vec!["none".to_string()], vec![vec![]]);
    m.update(MenuKey::Enter);
    assert!(!m.can_update(MenuKey::Enter));
    assert!(!m.can_update(MenuKey::Down));
    assert!(m.can_update(MenuKey::Up));
}

#[test]
fn rom_extension() {
    assert!(is_rom_extension("ch8"));
    assert!(!is_rom_extension("CH8"));
    assert!(!is_rom_extension("ch"));
    assert!(!is_rom_extension("ch88"));
    assert!(!is_rom_extension(""));
    assert!(!is_rom_extension("txt"));
}

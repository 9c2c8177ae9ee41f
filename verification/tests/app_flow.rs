use ascii_vault::events::{handle_input, Action, Event, Key, KeyCode};
use ascii_vault::model::{App, AsciiItem, Config, Mode};

fn item(name: &str, content: &str) -> AsciiItem {
    AsciiItem { name: name.to_string(), content: content.to_string() }
}

fn config() -> Config {
    Config {
        db_file: "/home/u/.config/ascii-vault/library.json".to_string(),
        logo_file: "/home/u/.config/ascii-vault/logo.txt".to_string(),
    }
}

fn press(app: &mut App, code: KeyCode) -> Action {
    handle_input(app, Event::Key(Key { code, shift: false, control: false }))
}

fn press_shift(app: &mut App, code: KeyCode) -> Action {
    handle_input(app, Event::Key(Key { code, shift: true, control: false }))
}

fn press_ctrl(app: &mut App, c: char) -> Action {
    handle_input(app, Event::Key(Key { code: KeyCode::Char(c), shift: false, control: true }))
}

fn three() -> App {
    App::new(config(), vec![item("a", "AAA"), item("b", "BBB"), item("c", "CCC")])
}

#[test]
fn new_app_highlights_first_item() {
    let app = three();
    assert_eq!(app.selection, Some(0));
    assert_eq!(app.selected(), 0);
    assert_eq!(app.mode, Mode::Browse);
    assert_eq!(app.edit_cursor, 0);
    assert_eq!(app.status, "");
    let empty = App::new(config(), vec![]);
    assert_eq!(empty.selection, None);
    assert_eq!(empty.selected(), 0);
}

#[test]
fn default_config_lives_in_home() {
    let c = Config::for_home("/home/u");
    assert_eq!(c.db_file, "/home/u/.config/ascii-vault/library.json");
    assert_eq!(c.logo_file, "/home/u/.config/ascii-vault/logo.txt");
    assert_eq!(Config::settings_path("."), "./.config/ascii-vault/config.json");
}

#[test]
fn quit_key_quits() {
    let mut app = three();
    assert_eq!(press(&mut app, KeyCode::Char('q')), Action::Quit);
    assert_eq!(app.items.len(), 3);
}

#[test]
fn navigation_moves_highlight_within_bounds() {
    let mut app = three();
    assert_eq!(press(&mut app, KeyCode::Up), Action::Nothing);
    assert_eq!(app.selection, Some(0));
    press(&mut app, KeyCode::Down);
    press(&mut app, KeyCode::Down);
    assert_eq!(app.selection, Some(2));
    press(&mut app, KeyCode::Down);
    assert_eq!(app.selection, Some(2));
    press(&mut app, KeyCode::Up);
    assert_eq!(app.selection, Some(1));
}

#[test]
fn shift_arrows_reorder_items() {
    let mut app = three();
    press(&mut app, KeyCode::Down);
    assert_eq!(press_shift(&mut app, KeyCode::Up), Action::SaveItems);
    assert_eq!(app.items[0].name, "b");
    assert_eq!(app.items[1].name, "a");
    assert_eq!(app.selection, Some(0));
    assert_eq!(press_shift(&mut app, KeyCode::Up), Action::Nothing);
    assert_eq!(press_shift(&mut app, KeyCode::Down), Action::SaveItems);
    assert_eq!(app.items[0].name, "a");
    assert_eq!(app.items[1].name, "b");
    assert_eq!(app.selection, Some(1));
}

#[test]
fn move_item_methods_report_changes() {
    let mut app = three();
    assert!(!app.move_item_up());
    assert!(app.move_item_down());
    assert_eq!(app.selection, Some(1));
    assert!(app.move_item_down());
    assert!(!app.move_item_down());
    assert_eq!(app.items[2].name, "a");
    assert!(app.move_item_up());
    assert!(app.move_item_up());
    assert_eq!(app.items[0].name, "a");
    assert_eq!(app.items[1].name, "b");
    assert_eq!(app.items[2].name, "c");
}

#[test]
fn new_entry_then_type_and_save() {
    let mut app = three();
    assert_eq!(press(&mut app, KeyCode::Char('n')), Action::Nothing);
    assert_eq!(app.mode, Mode::Edit);
    assert_eq!(app.items.len(), 4);
    assert_eq!(app.selection, Some(3));
    assert_eq!(app.items[3].name, "New");
    press(&mut app, KeyCode::Char('h'));
    press(&mut app, KeyCode::Char('é'));
    press(&mut app, KeyCode::Enter);
    press(&mut app, KeyCode::Char('x'));
    assert_eq!(app.edit_buffer, "hé\nx");
    assert_eq!(app.edit_cursor, 5);
    press(&mut app, KeyCode::Up);
    assert_eq!(app.edit_cursor, 1);
    press(&mut app, KeyCode::Delete);
    assert_eq!(app.edit_buffer, "h\nx");
    press(&mut app, KeyCode::End);
    assert_eq!(app.edit_cursor, 1);
    press(&mut app, KeyCode::Backspace);
    assert_eq!(app.edit_buffer, "\nx");
    assert_eq!(app.edit_cursor, 0);
    assert_eq!(press_ctrl(&mut app, 's'), Action::SaveItems);
    assert_eq!(app.mode, Mode::Browse);
    assert_eq!(app.status, " Saved ");
    assert_eq!(app.items[3].content, "\nx");
}

#[test]
fn edit_keys_move_the_cursor() {
    let mut app = three();
    press(&mut app, KeyCode::Char('e'));
    assert_eq!(app.edit_buffer, "AAA");
    assert_eq!(app.edit_cursor, 3);
    press(&mut app, KeyCode::Left);
    assert_eq!(app.edit_cursor, 2);
    press(&mut app, KeyCode::Home);
    assert_eq!(app.edit_cursor, 0);
    press(&mut app, KeyCode::Right);
    assert_eq!(app.edit_cursor, 1);
    press_ctrl(&mut app, 'e');
    assert_eq!(app.edit_cursor, 3);
    press_ctrl(&mut app, 'a');
    assert_eq!(app.edit_cursor, 0);
    press(&mut app, KeyCode::Down);
    assert_eq!(app.edit_cursor, 3);
    assert_eq!(press_ctrl(&mut app, 'z'), Action::Nothing);
    assert_eq!(press(&mut app, KeyCode::Esc), Action::Nothing);
    assert_eq!(app.mode, Mode::Browse);
    assert_eq!(app.items[0].content, "AAA");
}

#[test]
fn edit_then_save_unchanged_keeps_items() {
    let mut app = three();
    press(&mut app, KeyCode::Down);
    press(&mut app, KeyCode::Char('e'));
    assert_eq!(press_ctrl(&mut app, 's'), Action::SaveItems);
    assert_eq!(app.items, vec![item("a", "AAA"), item("b", "BBB"), item("c", "CCC")]);
    press(&mut app, KeyCode::Char('r'));
    assert_eq!(press(&mut app, KeyCode::Enter), Action::SaveItems);
    assert_eq!(app.items, vec![item("a", "AAA"), item("b", "BBB"), item("c", "CCC")]);
}

#[test]
fn paste_adds_highlighted_item() {
    let mut app = three();
    assert_eq!(press(&mut app, KeyCode::Char('v')), Action::ReadClipboard);
    assert_eq!(app.items.len(), 3);
    let a = handle_input(&mut app, Event::Pasted("(o_o)".to_string()));
    assert_eq!(a, Action::SaveItems);
    assert_eq!(app.items.len(), 4);
    assert_eq!(app.items[3], item("Pasted", "(o_o)"));
    assert_eq!(app.selection, Some(3));
    assert_eq!(app.status, " Pasted from clipboard ");
}

#[test]
fn copy_and_logo_use_highlighted_item() {
    let mut app = three();
    press(&mut app, KeyCode::Down);
    assert_eq!(press(&mut app, KeyCode::Char('c')), Action::CopyToClipboard("BBB".to_string()));
    assert_eq!(app.status, " Copied to clipboard! ");
    assert_eq!(
        press(&mut app, KeyCode::Char('i')),
        Action::WriteLogo {
            path: "/home/u/.config/ascii-vault/logo.txt".to_string(),
            content: "BBB".to_string(),
        }
    );
    handle_input(&mut app, Event::LogoWritten(Ok(())));
    assert_eq!(app.status, " ✓ Logo set! ");
    handle_input(&mut app, Event::LogoWritten(Err("denied".to_string())));
    assert_eq!(app.status, " ✗ Error: denied ");
}

#[test]
fn item_keys_do_nothing_on_empty_list() {
    let mut app = App::new(config(), vec![]);
    for c in ['c', 'e', 'r', 'i', 'd'] {
        assert_eq!(press(&mut app, KeyCode::Char(c)), Action::Nothing);
        assert_eq!(app.mode, Mode::Browse);
    }
    assert_eq!(press(&mut app, KeyCode::Down), Action::Nothing);
    assert_eq!(press_shift(&mut app, KeyCode::Up), Action::Nothing);
    assert_eq!(app.selection, None);
}

#[test]
fn delete_confirmed_selects_previous() {
    let mut app = three();
    press(&mut app, KeyCode::Down);
    press(&mut app, KeyCode::Down);
    press(&mut app, KeyCode::Char('d'));
    assert_eq!(app.mode, Mode::ConfirmDelete);
    assert_eq!(press(&mut app, KeyCode::Char('y')), Action::SaveItems);
    assert_eq!(app.items.len(), 2);
    assert_eq!(app.selection, Some(1));
    assert_eq!(app.status, " Deleted ");
    assert_eq!(app.mode, Mode::Browse);
    press(&mut app, KeyCode::Up);
    press(&mut app, KeyCode::Char('d'));
    assert_eq!(press(&mut app, KeyCode::Enter), Action::SaveItems);
    assert_eq!(app.items, vec![item("b", "BBB")]);
    assert_eq!(app.selection, Some(0));
    press(&mut app, KeyCode::Char('d'));
    press(&mut app, KeyCode::Char('y'));
    assert!(app.items.is_empty());
    assert_eq!(app.selection, None);
}

#[test]
fn delete_cancelled_keeps_items() {
    let mut app = three();
    press(&mut app, KeyCode::Char('d'));
    assert_eq!(press(&mut app, KeyCode::Char('x')), Action::Nothing);
    assert_eq!(app.mode, Mode::ConfirmDelete);
    assert_eq!(press(&mut app, KeyCode::Esc), Action::Nothing);
    assert_eq!(app.status, " Canceled ");
    assert_eq!(app.mode, Mode::Browse);
    assert_eq!(app.items.len(), 3);
    press(&mut app, KeyCode::Char('d'));
    press(&mut app, KeyCode::Char('n'));
    assert_eq!(app.items.len(), 3);
}

#[test]
fn rename_types_and_confirms() {
    let mut app = three();
    press(&mut app, KeyCode::Char('r'));
    assert_eq!(app.mode, Mode::Rename);
    assert_eq!(app.rename_buffer, "a");
    press(&mut app, KeyCode::Backspace);
    press(&mut app, KeyCode::Backspace);
    assert_eq!(app.rename_buffer, "");
    press(&mut app, KeyCode::Char('c'));
    press(&mut app, KeyCode::Char('a'));
    press(&mut app, KeyCode::Char('t'));
    assert_eq!(press(&mut app, KeyCode::Enter), Action::SaveItems);
    assert_eq!(app.items[0], item("cat", "AAA"));
    assert_eq!(app.mode, Mode::Browse);
    press(&mut app, KeyCode::Char('r'));
    press(&mut app, KeyCode::Char('z'));
    assert_eq!(press(&mut app, KeyCode::Esc), Action::Nothing);
    assert_eq!(app.items[0].name, "cat");
}

#[test]
fn unsafe_path_is_refused() {
    let mut app = three();
    press(&mut app, KeyCode::Char('p'));
    assert_eq!(app.mode, Mode::SetDbPath);
    assert_eq!(app.path_buffer, "/home/u/.config/ascii-vault/library.json");
    for _ in 0..app.path_buffer.len() {
        press(&mut app, KeyCode::Backspace);
    }
    for c in "/etc/x".chars() {
        press(&mut app, KeyCode::Char(c));
    }
    assert_eq!(press(&mut app, KeyCode::Enter), Action::Nothing);
    assert_eq!(app.status, " ✗ ERRORE: Percorso non sicuro o fuori da /home/ ");
    assert_eq!(app.config.db_file, "/home/u/.config/ascii-vault/library.json");
    assert_eq!(app.mode, Mode::Browse);
}

#[test]
fn safe_db_path_reloads_items() {
    let mut app = three();
    press(&mut app, KeyCode::Char('p'));
    press(&mut app, KeyCode::Char('2'));
    assert_eq!(press(&mut app, KeyCode::Enter), Action::SaveConfigAndReload);
    assert_eq!(app.config.db_file, "/home/u/.config/ascii-vault/library.json2");
    assert_eq!(app.status, " ✓ DB → /home/u/.config/ascii-vault/library.json2 ");
    handle_input(&mut app, Event::ItemsLoaded(vec![item("z", "ZZZ")]));
    assert_eq!(app.items, vec![item("z", "ZZZ")]);
    assert_eq!(app.selection, Some(0));
    handle_input(&mut app, Event::ItemsLoaded(vec![]));
    assert_eq!(app.selection, None);
    assert_eq!(app.mode, Mode::Browse);
}

#[test]
fn safe_logo_path_saves_config() {
    let mut app = three();
    press(&mut app, KeyCode::Char('l'));
    assert_eq!(app.mode, Mode::SetLogoPath);
    assert_eq!(app.path_buffer, "/home/u/.config/ascii-vault/logo.txt");
    press(&mut app, KeyCode::Char('s'));
    assert_eq!(press(&mut app, KeyCode::Enter), Action::SaveConfig);
    assert_eq!(app.config.logo_file, "/home/u/.config/ascii-vault/logo.txts");
    assert_eq!(app.status, " ✓ Logo path → /home/u/.config/ascii-vault/logo.txts ");
    press(&mut app, KeyCode::Char('l'));
    assert_eq!(press(&mut app, KeyCode::Esc), Action::Nothing);
    assert_eq!(app.mode, Mode::Browse);
}

#[test]
fn cursor_and_highlight_stay_valid() {
    let mut app = App::new(config(), vec![item("ü", "日本\n語x")]);
    press(&mut app, KeyCode::Char('e'));
    let keys = [
        KeyCode::Left,
        KeyCode::Up,
        KeyCode::Char('é'),
        KeyCode::Right,
        KeyCode::Down,
        KeyCode::Backspace,
        KeyCode::Home,
        KeyCode::Delete,
        KeyCode::End,
        KeyCode::Char('😀'),
        KeyCode::Up,
        KeyCode::Left,
        KeyCode::Enter,
    ];
    for k in keys {
        press(&mut app, k);
        assert!(app.edit_cursor <= app.edit_buffer.len());
        assert!(app.edit_buffer.is_char_boundary(app.edit_cursor));
        assert!(app.selected() < app.items.len());
    }
    press_ctrl(&mut app, 's');
    press(&mut app, KeyCode::Char('d'));
    press(&mut app, KeyCode::Char('y'));
    assert_eq!(app.selection, None);
    assert!(app.items.is_empty());
}

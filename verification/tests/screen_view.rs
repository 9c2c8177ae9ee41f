use ascii_vault::events::{handle_input, Event, Key, KeyCode};
use ascii_vault::model::{App, AsciiItem, Config, Mode};
use ascii_vault::screen::{
    command_help, cursor_spot, follow_cursor, list_marker, panel_accent, panel_body, panel_title,
    Accent, CursorSpot, PanelBody,
};

fn app_with(items: Vec<(&str, &str)>) -> App {
    let items = items
        .into_iter()
        .map(|(n, c)| AsciiItem { name: n.to_string(), content: c.to_string() })
        .collect();
    App::new(
        Config { db_file: "/home/u/db.json".to_string(), logo_file: "/home/u/logo.txt".to_string() },
        items,
    )
}

fn key(app: &mut App, code: KeyCode) {
    handle_input(app, Event::Key(Key { code, shift: false, control: false }));
}

#[test]
fn titles_follow_the_mode() {
    let mut app = app_with(vec![("cat", "=^.^=")]);
    assert_eq!(panel_title(&app), " PREVIEW ");
    key(&mut app, KeyCode::Char('c'));
    assert_eq!(panel_title(&app), " Copied to clipboard! ");
    key(&mut app, KeyCode::Char('d'));
    assert_eq!(panel_title(&app), " DELETE CONFIRMATION ");
    key(&mut app, KeyCode::Esc);
    key(&mut app, KeyCode::Char('e'));
    assert_eq!(panel_title(&app), " EDIT  ·  Ctrl+S: save  ·  Esc: cancel ");
    key(&mut app, KeyCode::Esc);
    key(&mut app, KeyCode::Char('r'));
    assert_eq!(panel_title(&app), " RENAME  ·  Enter: confirm  ·  Esc: cancel ");
    key(&mut app, KeyCode::Esc);
    key(&mut app, KeyCode::Char('p'));
    assert_eq!(panel_title(&app), " SET DATABASE PATH  ·  Enter: confirm  ·  Esc: cancel ");
    key(&mut app, KeyCode::Esc);
    key(&mut app, KeyCode::Char('l'));
    assert_eq!(panel_title(&app), " SET LOGO PATH  ·  Enter: confirm  ·  Esc: cancel ");
}

#[test]
fn accents_follow_the_mode() {
    assert_eq!(panel_accent(Mode::Browse), Accent::Cyan);
    assert_eq!(panel_accent(Mode::ConfirmDelete), Accent::Red);
    assert_eq!(panel_accent(Mode::Edit), Accent::Yellow);
    assert_eq!(panel_accent(Mode::Rename), Accent::Yellow);
    assert_eq!(panel_accent(Mode::SetDbPath), Accent::Green);
    assert_eq!(panel_accent(Mode::SetLogoPath), Accent::Green);
}

#[test]
fn help_texts_follow_the_mode() {
    assert!(command_help(Mode::Browse).starts_with(" [N] New  [V] Paste"));
    assert!(command_help(Mode::Browse).ends_with("[Q] Quit"));
    assert!(command_help(Mode::Edit).starts_with(" [Ctrl+S] Save  [Esc] Cancel\n"));
    assert_eq!(command_help(Mode::Rename), " [Enter] Confirm  [Esc] Cancel  [Backspace] Delete\n\n");
    assert_eq!(command_help(Mode::SetDbPath), command_help(Mode::SetLogoPath));
    assert_eq!(
        command_help(Mode::ConfirmDelete),
        " [Y / Enter] Confirm Delete  [N / Esc] Cancel\n\n"
    );
}

#[test]
fn bodies_follow_the_mode() {
    let empty = app_with(vec![]);
    assert_eq!(
        panel_body(&empty),
        PanelBody::Text {
            text: "Press [N] to create a new entry, or [V] to paste from clipboard.".to_string(),
            scroll: 0,
        }
    );
    let mut app = app_with(vec![("cat", "=^.^="), ("dog", "U・ᴥ・U")]);
    key(&mut app, KeyCode::Down);
    assert_eq!(panel_body(&app), PanelBody::Text { text: "U・ᴥ・U".to_string(), scroll: 0 });
    key(&mut app, KeyCode::Char('d'));
    assert_eq!(
        panel_body(&app),
        PanelBody::Centered(
            "\n\nAre you sure you want to delete 'dog'?\n\n[Y / Enter] Yes    [N / Esc] No"
                .to_string()
        )
    );
    key(&mut app, KeyCode::Esc);
    key(&mut app, KeyCode::Char('r'));
    assert_eq!(
        panel_body(&app),
        PanelBody::Prompt { label: "Name: ".to_string(), value: "dog".to_string() }
    );
    key(&mut app, KeyCode::Esc);
    key(&mut app, KeyCode::Char('p'));
    assert_eq!(
        panel_body(&app),
        PanelBody::Prompt { label: "Path: ".to_string(), value: "/home/u/db.json".to_string() }
    );
}

#[test]
fn markers_point_at_the_highlight() {
    let mut app = app_with(vec![("a", ""), ("b", "")]);
    assert_eq!(list_marker(&app, 0), "➜ ");
    assert_eq!(list_marker(&app, 1), "  ");
    key(&mut app, KeyCode::Down);
    assert_eq!(list_marker(&app, 0), "  ");
    assert_eq!(list_marker(&app, 1), "➜ ");
    assert_eq!(list_marker(&app_with(vec![]), 0), "  ");
}

#[test]
fn cursor_spot_in_editor_and_prompts() {
    let mut app = app_with(vec![("näme", "ab\nçd")]);
    assert_eq!(cursor_spot(&app), None);
    key(&mut app, KeyCode::Char('e'));
    assert_eq!(cursor_spot(&app), Some(CursorSpot { indent: 0, col: 2, row: 1 }));
    app.edit_scroll = 1;
    assert_eq!(cursor_spot(&app), Some(CursorSpot { indent: 0, col: 2, row: 0 }));
    app.edit_scroll = 5;
    assert_eq!(cursor_spot(&app), Some(CursorSpot { indent: 0, col: 2, row: 0 }));
    key(&mut app, KeyCode::Esc);
    key(&mut app, KeyCode::Char('r'));
    assert_eq!(cursor_spot(&app), Some(CursorSpot { indent: 6, col: 4, row: 0 }));
    key(&mut app, KeyCode::Esc);
    key(&mut app, KeyCode::Char('l'));
    assert_eq!(cursor_spot(&app), Some(CursorSpot { indent: 6, col: 16, row: 0 }));
}

#[test]
fn editor_scrolls_to_show_cursor() {
    let text = "0\n1\n2\n3\n4\n5\n6\n7\n8\n9";
    let mut app = app_with(vec![("n", text)]);
    key(&mut app, KeyCode::Char('e'));
    assert_eq!(app.edit_cursor, text.len());
    follow_cursor(&mut app, 7);
    assert_eq!(app.edit_scroll, 5);
    follow_cursor(&mut app, 7);
    assert_eq!(app.edit_scroll, 5);
    app.edit_cursor = 4; // line 2
    follow_cursor(&mut app, 7);
    assert_eq!(app.edit_scroll, 2);
    follow_cursor(&mut app, 2);
    assert_eq!(app.edit_scroll, 2);
    app.edit_cursor = 0;
    follow_cursor(&mut app, 0);
    assert_eq!(app.edit_scroll, 2);
    key(&mut app, KeyCode::Esc);
    follow_cursor(&mut app, 7);
    assert_eq!(app.edit_scroll, 2);
}

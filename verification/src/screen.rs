//! What the screen shows for a state: the texts, the accent colour, where the
//! cursor blinks, and how far the editor scrolls.
use vstd::prelude::*;
use vstd::math::min;
use crate::buffer::{column, newlines_before, pos_to_line_col};
use crate::text::char_index_at;
use crate::model::{App, AppState, Mode};

verus! {

/// The colour of the right-hand panel's border.
#[derive(Clone, Copy, PartialEq, Eq, Structural, Debug)]
pub enum Accent {
    Cyan,
    Red,
    Yellow,
    Green,
}

/// The content of the right-hand panel.
#[derive(Clone, Debug, PartialEq, Eq)]
pub enum PanelBody {
    /// Text, scrolled down by `scroll` lines.
    Text { text: String, scroll: u16 },
    /// Text centred on each line.
    Centered(String),
    /// A one-line prompt: a label, then the text being typed.
    Prompt { label: String, value: String },
}

/// Where the cursor blinks inside the right-hand panel: `indent + col`
/// columns right of its inner edge, `row` rows below its inner top.
#[derive(Clone, Copy, PartialEq, Eq, Structural, Debug)]
pub struct CursorSpot {
    pub indent: u16,
    pub col: u16,
    pub row: u16,
}

/// Line of the edit cursor, as the 16-bit row number the screen uses.
pub open spec fn cursor_row(s: AppState) -> u16 {
    newlines_before(s.edit_buffer, char_index_at(s.edit_buffer, s.edit_cursor)) as u16
}

/// Rows of text that fit in a panel of the given height (its border takes
/// two).
pub open spec fn visible_rows(panel_height: u16) -> int {
    if panel_height >= 2 {
        panel_height - 2
    } else {
        0
    }
}

/// Adding the visible rows to the scroll offset is needed (and must fit in
/// 16 bits) when the cursor's row is not above the first shown row.
pub open spec fn scroll_fits(s: AppState, panel_height: u16) -> bool {
    s.mode == Mode::Edit && visible_rows(panel_height) > 0 && cursor_row(s) >= s.edit_scroll
        ==> s.edit_scroll + visible_rows(panel_height) <= u16::MAX
}

/// The editor's scroll offset after it follows the cursor: unchanged outside
/// the editor or when nothing fits; the cursor's row when that is above the
/// shown rows; when it is below them, the offset that shows it on the last
/// row.
pub open spec fn scroll_to_show(s: AppState, panel_height: u16) -> int {
    let h = visible_rows(panel_height);
    let row = cursor_row(s) as int;
    if s.mode != Mode::Edit || h == 0 {
        s.edit_scroll
    } else if row < s.edit_scroll {
        row
    } else if row >= s.edit_scroll + h {
        min((if row >= h { row - h } else { 0 }) + 1, u16::MAX as int)
    } else {
        s.edit_scroll
    }
}

/// Scrolls the editor so that the cursor's line is shown in a panel of the
/// given height.
pub fn follow_cursor(app: &mut App, panel_height: u16)
    requires
        scroll_fits(old(app)@, panel_height),
    ensures
        final(app)@ == (AppState { edit_scroll: scroll_to_show(old(app)@, panel_height), ..old(app)@ }),
        old(app)@.mode == Mode::Edit && visible_rows(panel_height) > 0 ==> final(app)@.edit_scroll
            <= cursor_row(old(app)@) < final(app)@.edit_scroll + visible_rows(panel_height),
{
    let ghost pre = app@;
    if app.mode == Mode::Edit {
        let visible_h = panel_height.saturating_sub(2);
        if visible_h > 0 {
            let (cur_line, _) = pos_to_line_col(app.edit_buffer.as_str(), app.edit_cursor);
            let cur_line = cur_line as u16;
            if cur_line < app.edit_scroll {
                app.edit_scroll = cur_line;
            } else if cur_line >= app.edit_scroll + visible_h {
                app.edit_scroll = cur_line.saturating_sub(visible_h).saturating_add(1);
            }
        }
    }
    proof {
        assert(app@ =~= (AppState { edit_scroll: scroll_to_show(pre, panel_height), ..pre }));
    }
}

/// Following the cursor shows its line with the least scrolling: in the
/// editor, when rows are visible, the cursor's row ends up among the shown
/// rows; the offset does not move when it already was; a row above the shown
/// ones becomes the first shown row, a row below them the last one.  Outside
/// the editor, or with no visible row, the offset does not move.
pub proof fn lemma_follow_cursor_shows_line(s: AppState, panel_height: u16)
    requires
        scroll_fits(s, panel_height),
        0 <= s.edit_scroll <= u16::MAX,
    ensures
        ({
            let h = visible_rows(panel_height);
            let r = cursor_row(s) as int;
            let t = scroll_to_show(s, panel_height);
            &&& s.mode == Mode::Edit && h > 0 ==> t <= r < t + h
            &&& s.mode == Mode::Edit && h > 0 && s.edit_scroll <= r < s.edit_scroll + h ==> t
                == s.edit_scroll
            &&& s.mode == Mode::Edit && h > 0 && r < s.edit_scroll ==> t == r
            &&& s.mode == Mode::Edit && h > 0 && r >= s.edit_scroll + h ==> t + h - 1 == r
            &&& (s.mode != Mode::Edit || h == 0) ==> t == s.edit_scroll
        }),
{
}

/// The title of the right-hand panel.
pub open spec fn title_of(s: AppState) -> Seq<char> {
    match s.mode {
        Mode::Browse => if s.status.len() == 0 {
            " PREVIEW "@
        } else {
            s.status
        },
        Mode::ConfirmDelete => " DELETE CONFIRMATION "@,
        Mode::Edit => " EDIT  ·  Ctrl+S: save  ·  Esc: cancel "@,
        Mode::Rename => " RENAME  ·  Enter: confirm  ·  Esc: cancel "@,
        Mode::SetDbPath => " SET DATABASE PATH  ·  Enter: confirm  ·  Esc: cancel "@,
        Mode::SetLogoPath => " SET LOGO PATH  ·  Enter: confirm  ·  Esc: cancel "@,
    }
}

/// The title of the right-hand panel: the status line while browsing (or
/// ` PREVIEW ` when it is empty), otherwise what the keys do.
pub fn panel_title(app: &App) -> (r: String)
    ensures
        r@ == title_of(app@),
{
    match app.mode {
        Mode::Browse => {
            if app.status.as_str().as_bytes().len() == 0 {
                String::from_str(" PREVIEW ")
            } else {
                app.status.clone()
            }
        },
        Mode::ConfirmDelete => String::from_str(" DELETE CONFIRMATION "),
        Mode::Edit => String::from_str(" EDIT  ·  Ctrl+S: save  ·  Esc: cancel "),
        Mode::Rename => String::from_str(" RENAME  ·  Enter: confirm  ·  Esc: cancel "),
        Mode::SetDbPath => String::from_str(" SET DATABASE PATH  ·  Enter: confirm  ·  Esc: cancel "),
        Mode::SetLogoPath => String::from_str(" SET LOGO PATH  ·  Enter: confirm  ·  Esc: cancel "),
    }
}

/// The border colour of the right-hand panel: cyan while browsing, red when
/// confirming a deletion, yellow while editing or renaming, green while
/// typing a path.
pub fn panel_accent(mode: Mode) -> (r: Accent)
    ensures
        r == match mode {
            Mode::Browse => Accent::Cyan,
            Mode::ConfirmDelete => Accent::Red,
            Mode::Edit | Mode::Rename => Accent::Yellow,
            Mode::SetDbPath | Mode::SetLogoPath => Accent::Green,
        },
{
    match mode {
        Mode::Browse => Accent::Cyan,
        Mode::ConfirmDelete => Accent::Red,
        Mode::Edit | Mode::Rename => Accent::Yellow,
        Mode::SetDbPath | Mode::SetLogoPath => Accent::Green,
    }
}

/// The hint shown while the list is empty.
pub open spec fn empty_hint() -> Seq<char> {
    "Press [N] to create a new entry, or [V] to paste from clipboard."@
}

/// The question asked before deleting the item named `name`.
pub open spec fn delete_question(name: Seq<char>) -> Seq<char> {
    "\n\nAre you sure you want to delete '"@ + name + "'?\n\n[Y / Enter] Yes    [N / Esc] No"@
}

/// The content of the right-hand panel: the highlighted item's art (or a
/// hint) while browsing, the deletion question, the text being edited
/// (scrolled), or the name or path being typed.
pub fn panel_body(app: &App) -> (r: PanelBody)
    requires
        app@.mode == Mode::ConfirmDelete ==> app@.selection_ok(),
    ensures
        ({
            let s = app@;
            match s.mode {
                Mode::Browse => if s.items.len() == 0 {
                    r matches PanelBody::Text { text, scroll } && text@ == empty_hint() && scroll
                        == 0
                } else {
                    r matches PanelBody::Text { text, scroll } && text@ == s.items[min(
                        s.selected(),
                        s.items.len() - 1,
                    )].content && scroll == 0
                },
                Mode::ConfirmDelete => r matches PanelBody::Centered(text) && text@
                    == delete_question(
                    if s.items.len() == 0 {
                        "Unknown"@
                    } else {
                        s.items[s.selected()].name
                    },
                ),
                Mode::Edit => r matches PanelBody::Text { text, scroll } && text@ == s.edit_buffer
                    && scroll == s.edit_scroll,
                Mode::Rename => r matches PanelBody::Prompt { label, value } && label@ == "Name: "@
                    && value@ == s.rename_buffer,
                Mode::SetDbPath | Mode::SetLogoPath => r matches PanelBody::Prompt { label, value }
                    && label@ == "Path: "@ && value@ == s.path_buffer,
            }
        }),
{
    match app.mode {
        Mode::Browse => {
            let n = app.items.len();
            if n == 0 {
                PanelBody::Text {
                    text: String::from_str(
                        "Press [N] to create a new entry, or [V] to paste from clipboard.",
                    ),
                    scroll: 0,
                }
            } else {
                let sel = app.selected();
                let idx = if sel < n - 1 {
                    sel
                } else {
                    n - 1
                };
                PanelBody::Text { text: app.items[idx].content.clone(), scroll: 0 }
            }
        },
        Mode::ConfirmDelete => {
            let name = if app.items.len() == 0 {
                "Unknown"
            } else {
                app.items[app.selected()].name.as_str()
            };
            let mut text = String::from_str("\n\nAre you sure you want to delete '");
            text.append(name);
            text.append("'?\n\n[Y / Enter] Yes    [N / Esc] No");
            PanelBody::Centered(text)
        },
        Mode::Edit => PanelBody::Text { text: app.edit_buffer.clone(), scroll: app.edit_scroll },
        Mode::Rename => PanelBody::Prompt {
            label: String::from_str("Name: "),
            value: app.rename_buffer.clone(),
        },
        Mode::SetDbPath | Mode::SetLogoPath => PanelBody::Prompt {
            label: String::from_str("Path: "),
            value: app.path_buffer.clone(),
        },
    }
}

/// The help text of the command panel for a mode.
pub open spec fn help_of(mode: Mode) -> Seq<char> {
    match mode {
        Mode::Browse => " [N] New  [V] Paste  [C] Copy  [E] Edit  [R] Rename  [D] Delete  [I] Set Logo\n [P] Set DB Path  [L] Set Logo Path\n [↑/↓] Navigate  [Shift+↑ / Shift+↓] Move item Up/Down  [Q] Quit"@,
        Mode::Edit => " [Ctrl+S] Save  [Esc] Cancel\n [←/→] Char  [↑/↓] Line  [Home/End] Line start/end  [Ctrl+A] Start  [Ctrl+E] End\n [Backspace] Delete back  [Delete] Delete forward"@,
        Mode::Rename | Mode::SetDbPath | Mode::SetLogoPath => " [Enter] Confirm  [Esc] Cancel  [Backspace] Delete\n\n"@,
        Mode::ConfirmDelete => " [Y / Enter] Confirm Delete  [N / Esc] Cancel\n\n"@,
    }
}

/// The help text of the command panel: the keys of the mode.
pub fn command_help(mode: Mode) -> (r: &'static str)
    ensures
        r@ == help_of(mode),
{
    match mode {
        Mode::Browse => " [N] New  [V] Paste  [C] Copy  [E] Edit  [R] Rename  [D] Delete  [I] Set Logo\n [P] Set DB Path  [L] Set Logo Path\n [↑/↓] Navigate  [Shift+↑ / Shift+↓] Move item Up/Down  [Q] Quit",
        Mode::Edit => " [Ctrl+S] Save  [Esc] Cancel\n [←/→] Char  [↑/↓] Line  [Home/End] Line start/end  [Ctrl+A] Start  [Ctrl+E] End\n [Backspace] Delete back  [Delete] Delete forward",
        Mode::Rename | Mode::SetDbPath | Mode::SetLogoPath => " [Enter] Confirm  [Esc] Cancel  [Backspace] Delete\n\n",
        Mode::ConfirmDelete => " [Y / Enter] Confirm Delete  [N / Esc] Cancel\n\n",
    }
}

/// The mark in front of item `i` of the list: an arrow for the highlighted
/// item, blanks otherwise.
pub fn list_marker(app: &App, i: usize) -> (r: &'static str)
    ensures
        r@ == if app@.selection == Some(i as int) {
            "➜ "@
        } else {
            "  "@
        },
{
    match app.selection {
        Some(j) => if j == i {
            "➜ "
        } else {
            "  "
        },
        None => "  ",
    }
}

/// Where the cursor blinks, if anywhere: in the editor at the cursor's
/// column and row (counted from the first shown row); in a prompt after the
/// six-column label and the text typed so far.
pub open spec fn spot_of(s: AppState) -> Option<CursorSpot> {
    match s.mode {
        Mode::Edit => {
            let k = char_index_at(s.edit_buffer, s.edit_cursor);
            let row = cursor_row(s) as int;
            Some(
                CursorSpot {
                    indent: 0,
                    col: column(s.edit_buffer, k) as u16,
                    row: if row >= s.edit_scroll {
                        (row - s.edit_scroll) as u16
                    } else {
                        0
                    },
                },
            )
        },
        Mode::Rename => Some(CursorSpot { indent: 6, col: s.rename_buffer.len() as u16, row: 0 }),
        Mode::SetDbPath | Mode::SetLogoPath => Some(
            CursorSpot { indent: 6, col: s.path_buffer.len() as u16, row: 0 },
        ),
        _ => None,
    }
}

/// Where the cursor blinks in the right-hand panel, if anywhere.
pub fn cursor_spot(app: &App) -> (r: Option<CursorSpot>)
    ensures
        r == spot_of(app@),
{
    match app.mode {
        Mode::Edit => {
            let (line, col) = pos_to_line_col(app.edit_buffer.as_str(), app.edit_cursor);
            let row = (line as u16).saturating_sub(app.edit_scroll);
            Some(CursorSpot { indent: 0, col: col as u16, row })
        },
        Mode::Rename => {
            let n = app.rename_buffer.as_str().unicode_len();
            Some(CursorSpot { indent: 6, col: n as u16, row: 0 })
        },
        Mode::SetDbPath | Mode::SetLogoPath => {
            let n = app.path_buffer.as_str().unicode_len();
            Some(CursorSpot { indent: 6, col: n as u16, row: 0 })
        },
        _ => None,
    }
}

} // verus!

//! How the vault answers keys and the outcomes of its file and clipboard
//! work.
//!
//! `handle_input` takes the state and one event and gives the next state and
//! the one piece of outside work to do: save the items, write the logo file,
//! read or fill the clipboard, save the settings, or quit.  Outside work that
//! produces a value (the clipboard's text, the outcome of writing the logo,
//! the items loaded from a new database) comes back as an event of its own.
use vstd::prelude::*;
use vstd::math::min;
use vstd::utf8::encode_utf8;
use crate::text::{byte_len, byte_offset, char_width, is_boundary, lemma_offset_ends};
use crate::buffer::{
    backspace, cursor_down, cursor_left, cursor_right, cursor_up, delete_char, down_of, end_of,
    home_of, insert_char, left_of, line_end, line_start, right_of, text_after_backspace,
    text_after_delete, text_after_insert, up_of, lemma_edits_keep_boundary,
    lemma_moves_land_on_boundaries,
};
use crate::path::{is_safe_path, safe_path};
use crate::model::{
    App, AppState, AsciiItem, ItemView, Mode, items_view, lemma_items_push, lemma_items_remove,
    lemma_items_update,
};

verus! {

/// The key that was pressed.
#[derive(Clone, Copy, PartialEq, Eq, Structural, Debug)]
pub enum KeyCode {
    Char(char),
    Enter,
    Esc,
    Backspace,
    Delete,
    Left,
    Right,
    Up,
    Down,
    Home,
    End,
    Other,
}

/// A key press with the modifiers that the vault reads.
#[derive(Clone, Copy, PartialEq, Eq, Structural, Debug)]
pub struct Key {
    pub code: KeyCode,
    pub shift: bool,
    pub control: bool,
}

/// What happened.
#[derive(Debug, PartialEq, Eq)]
pub enum Event {
    /// A key was pressed.
    Key(Key),
    /// The clipboard was read, after `Action::ReadClipboard`.
    Pasted(String),
    /// The logo file was written, or writing it failed with the given
    /// message, after `Action::WriteLogo`.
    LogoWritten(Result<(), String>),
    /// The items of the new database were loaded, after
    /// `Action::SaveConfigAndReload`.
    ItemsLoaded(Vec<AsciiItem>),
}

/// An event as values.
#[verifier::ext_equal]
pub enum EventView {
    Key(Key),
    Pasted(Seq<char>),
    LogoWritten(Result<(), Seq<char>>),
    ItemsLoaded(Seq<ItemView>),
}

impl View for Event {
    type V = EventView;

    open spec fn view(&self) -> EventView {
        match self {
            Event::Key(k) => EventView::Key(*k),
            Event::Pasted(t) => EventView::Pasted(t@),
            Event::LogoWritten(r) => EventView::LogoWritten(
                match r {
                    Ok(()) => Ok(()),
                    Err(m) => Err(m@),
                },
            ),
            Event::ItemsLoaded(v) => EventView::ItemsLoaded(items_view(v@)),
        }
    }
}

/// The outside work that an event calls for.
#[derive(Clone, Debug, PartialEq, Eq)]
pub enum Action {
    Nothing,
    /// Leave the program.
    Quit,
    /// Read the clipboard and hand its text back as `Event::Pasted`.
    ReadClipboard,
    /// Save the items to the database file.
    SaveItems,
    /// Put this text on the clipboard.
    CopyToClipboard(String),
    /// Write `content` to the file `path` and hand the outcome back as
    /// `Event::LogoWritten`.
    WriteLogo { path: String, content: String },
    /// Save the settings.
    SaveConfig,
    /// Save the settings, load the items of the database file and hand them
    /// back as `Event::ItemsLoaded`.
    SaveConfigAndReload,
}

/// An action as values.
#[verifier::ext_equal]
pub enum ActionView {
    Nothing,
    Quit,
    ReadClipboard,
    SaveItems,
    CopyToClipboard(Seq<char>),
    WriteLogo { path: Seq<char>, content: Seq<char> },
    SaveConfig,
    SaveConfigAndReload,
}

impl View for Action {
    type V = ActionView;

    open spec fn view(&self) -> ActionView {
        match self {
            Action::Nothing => ActionView::Nothing,
            Action::Quit => ActionView::Quit,
            Action::ReadClipboard => ActionView::ReadClipboard,
            Action::SaveItems => ActionView::SaveItems,
            Action::CopyToClipboard(t) => ActionView::CopyToClipboard(t@),
            Action::WriteLogo { path, content } => ActionView::WriteLogo {
                path: path@,
                content: content@,
            },
            Action::SaveConfig => ActionView::SaveConfig,
            Action::SaveConfigAndReload => ActionView::SaveConfigAndReload,
        }
    }
}

/// The status line shown when a path is refused.
pub open spec fn unsafe_path_message() -> Seq<char> {
    " ✗ ERRORE: Percorso non sicuro o fuori da /home/ "@
}

/// A key while browsing the list.
pub open spec fn browse_step(s: AppState, k: Key) -> (AppState, ActionView) {
    let n = s.items.len();
    let i = s.selected();
    let has = n > 0;
    if k.code == KeyCode::Char('q') {
        (s, ActionView::Quit)
    } else if k.code == KeyCode::Char('n') {
        (
            AppState {
                items: s.items.push(ItemView { name: "New"@, content: Seq::empty() }),
                selection: Some(n as int),
                edit_buffer: Seq::empty(),
                edit_cursor: 0,
                edit_scroll: 0,
                status: Seq::empty(),
                mode: Mode::Edit,
                ..s
            },
            ActionView::Nothing,
        )
    } else if k.code == KeyCode::Char('v') {
        (s, ActionView::ReadClipboard)
    } else if k.code == KeyCode::Char('c') && has {
        (
            AppState { status: " Copied to clipboard! "@, ..s },
            ActionView::CopyToClipboard(s.items[i].content),
        )
    } else if k.code == KeyCode::Char('e') && has {
        (
            AppState {
                edit_buffer: s.items[i].content,
                edit_cursor: byte_len(s.items[i].content) as int,
                edit_scroll: 0,
                status: Seq::empty(),
                mode: Mode::Edit,
                ..s
            },
            ActionView::Nothing,
        )
    } else if k.code == KeyCode::Char('r') && has {
        (
            AppState {
                rename_buffer: s.items[i].name,
                status: Seq::empty(),
                mode: Mode::Rename,
                ..s
            },
            ActionView::Nothing,
        )
    } else if k.code == KeyCode::Char('i') && has {
        (s, ActionView::WriteLogo { path: s.logo_file, content: s.items[i].content })
    } else if k.code == KeyCode::Char('d') && has {
        (AppState { mode: Mode::ConfirmDelete, ..s }, ActionView::Nothing)
    } else if k.code == KeyCode::Char('p') {
        (
            AppState {
                path_buffer: s.db_file,
                status: Seq::empty(),
                mode: Mode::SetDbPath,
                ..s
            },
            ActionView::Nothing,
        )
    } else if k.code == KeyCode::Char('l') {
        (
            AppState {
                path_buffer: s.logo_file,
                status: Seq::empty(),
                mode: Mode::SetLogoPath,
                ..s
            },
            ActionView::Nothing,
        )
    } else if k.code == KeyCode::Up && k.shift {
        if s.can_move_up() {
            (s.moved_up(), ActionView::SaveItems)
        } else {
            (s, ActionView::Nothing)
        }
    } else if k.code == KeyCode::Down && k.shift {
        if s.can_move_down() {
            (s.moved_down(), ActionView::SaveItems)
        } else {
            (s, ActionView::Nothing)
        }
    } else if k.code == KeyCode::Down && has {
        if i + 1 < n {
            (AppState { selection: Some(i + 1), status: Seq::empty(), ..s }, ActionView::Nothing)
        } else {
            (s, ActionView::Nothing)
        }
    } else if k.code == KeyCode::Up && has {
        if i > 0 {
            (AppState { selection: Some(i - 1), status: Seq::empty(), ..s }, ActionView::Nothing)
        } else {
            (s, ActionView::Nothing)
        }
    } else {
        (s, ActionView::Nothing)
    }
}

/// The highlight after the item at `idx` was deleted from a list that now
/// holds `m` items: the item before it, or the first one.
pub open spec fn selection_after_delete(idx: int, m: int) -> Option<int> {
    if m == 0 {
        None
    } else {
        Some(min(if idx > 0 { idx - 1 } else { 0 }, m - 1))
    }
}

/// A key while asking whether to delete the highlighted item.
pub open spec fn confirm_step(s: AppState, k: Key) -> (AppState, ActionView) {
    if k.code == KeyCode::Char('y') || k.code == KeyCode::Enter {
        let idx = s.selected();
        let items = s.items.remove(idx);
        (
            AppState {
                items,
                selection: selection_after_delete(idx, items.len() as int),
                status: " Deleted "@,
                mode: Mode::Browse,
                ..s
            },
            ActionView::SaveItems,
        )
    } else if k.code == KeyCode::Char('n') || k.code == KeyCode::Esc {
        (AppState { status: " Canceled "@, mode: Mode::Browse, ..s }, ActionView::Nothing)
    } else {
        (s, ActionView::Nothing)
    }
}

/// A line of text after Backspace.
pub open spec fn line_after_backspace(t: Seq<char>) -> Seq<char> {
    if t.len() > 0 {
        t.drop_last()
    } else {
        t
    }
}

/// A key while renaming the highlighted item.
pub open spec fn rename_step(s: AppState, k: Key) -> (AppState, ActionView) {
    if k.code == KeyCode::Enter {
        let idx = s.selected();
        (
            AppState {
                items: s.items.update(
                    idx,
                    ItemView { name: s.rename_buffer, content: s.items[idx].content },
                ),
                mode: Mode::Browse,
                ..s
            },
            ActionView::SaveItems,
        )
    } else if k.code == KeyCode::Esc {
        (AppState { mode: Mode::Browse, ..s }, ActionView::Nothing)
    } else if k.code == KeyCode::Backspace {
        (AppState { rename_buffer: line_after_backspace(s.rename_buffer), ..s }, ActionView::Nothing)
    } else if let KeyCode::Char(c) = k.code {
        (AppState { rename_buffer: s.rename_buffer.push(c), ..s }, ActionView::Nothing)
    } else {
        (s, ActionView::Nothing)
    }
}

/// A key while typing a new path for the database (`for_db`) or the logo
/// file.
pub open spec fn path_step(s: AppState, k: Key, for_db: bool) -> (AppState, ActionView) {
    if k.code == KeyCode::Enter {
        let path = s.path_buffer;
        if !safe_path(encode_utf8(path)) {
            (AppState { status: unsafe_path_message(), mode: Mode::Browse, ..s }, ActionView::Nothing)
        } else if for_db {
            (
                AppState {
                    db_file: path,
                    status: " ✓ DB → "@ + path + " "@,
                    mode: Mode::Browse,
                    ..s
                },
                ActionView::SaveConfigAndReload,
            )
        } else {
            (
                AppState {
                    logo_file: path,
                    status: " ✓ Logo path → "@ + path + " "@,
                    mode: Mode::Browse,
                    ..s
                },
                ActionView::SaveConfig,
            )
        }
    } else if k.code == KeyCode::Esc {
        (AppState { mode: Mode::Browse, ..s }, ActionView::Nothing)
    } else if k.code == KeyCode::Backspace {
        (AppState { path_buffer: line_after_backspace(s.path_buffer), ..s }, ActionView::Nothing)
    } else if let KeyCode::Char(c) = k.code {
        (AppState { path_buffer: s.path_buffer.push(c), ..s }, ActionView::Nothing)
    } else {
        (s, ActionView::Nothing)
    }
}

/// The state with the edit cursor moved to `p`.
pub open spec fn with_cursor(s: AppState, p: int) -> AppState {
    AppState { edit_cursor: p, ..s }
}

/// A key while editing the highlighted item.
pub open spec fn edit_step(s: AppState, k: Key) -> (AppState, ActionView) {
    let b = s.edit_buffer;
    let p = s.edit_cursor;
    if k.control {
        if k.code == KeyCode::Char('s') {
            let idx = s.selected();
            (
                AppState {
                    items: s.items.update(idx, ItemView { name: s.items[idx].name, content: b }),
                    status: " Saved "@,
                    mode: Mode::Browse,
                    ..s
                },
                ActionView::SaveItems,
            )
        } else if k.code == KeyCode::Char('a') {
            (with_cursor(s, home_of(b, p)), ActionView::Nothing)
        } else if k.code == KeyCode::Char('e') {
            (with_cursor(s, end_of(b, p)), ActionView::Nothing)
        } else {
            (s, ActionView::Nothing)
        }
    } else if k.code == KeyCode::Esc {
        (AppState { mode: Mode::Browse, ..s }, ActionView::Nothing)
    } else if k.code == KeyCode::Enter {
        (
            AppState {
                edit_buffer: text_after_insert(b, p, '\n'),
                edit_cursor: p + char_width('\n'),
                ..s
            },
            ActionView::Nothing,
        )
    } else if k.code == KeyCode::Backspace {
        (
            AppState { edit_buffer: text_after_backspace(b, p), edit_cursor: left_of(b, p), ..s },
            ActionView::Nothing,
        )
    } else if k.code == KeyCode::Delete {
        (AppState { edit_buffer: text_after_delete(b, p), ..s }, ActionView::Nothing)
    } else if k.code == KeyCode::Left {
        (with_cursor(s, left_of(b, p)), ActionView::Nothing)
    } else if k.code == KeyCode::Right {
        (with_cursor(s, right_of(b, p)), ActionView::Nothing)
    } else if k.code == KeyCode::Up {
        (with_cursor(s, up_of(b, p)), ActionView::Nothing)
    } else if k.code == KeyCode::Down {
        (with_cursor(s, down_of(b, p)), ActionView::Nothing)
    } else if k.code == KeyCode::Home {
        (with_cursor(s, home_of(b, p)), ActionView::Nothing)
    } else if k.code == KeyCode::End {
        (with_cursor(s, end_of(b, p)), ActionView::Nothing)
    } else if let KeyCode::Char(c) = k.code {
        (
            AppState {
                edit_buffer: text_after_insert(b, p, c),
                edit_cursor: p + char_width(c),
                ..s
            },
            ActionView::Nothing,
        )
    } else {
        (s, ActionView::Nothing)
    }
}

/// A key, read according to the mode.
pub open spec fn key_step(s: AppState, k: Key) -> (AppState, ActionView) {
    match s.mode {
        Mode::Browse => browse_step(s, k),
        Mode::ConfirmDelete => confirm_step(s, k),
        Mode::Rename => rename_step(s, k),
        Mode::SetDbPath => path_step(s, k, true),
        Mode::SetLogoPath => path_step(s, k, false),
        Mode::Edit => edit_step(s, k),
    }
}

/// The clipboard's text arrived: it becomes a new item named `Pasted`, which
/// is highlighted and saved.
pub open spec fn paste_step(s: AppState, text: Seq<char>) -> (AppState, ActionView) {
    (
        AppState {
            items: s.items.push(ItemView { name: "Pasted"@, content: text }),
            selection: Some(s.items.len() as int),
            status: " Pasted from clipboard "@,
            ..s
        },
        ActionView::SaveItems,
    )
}

/// The outcome of writing the logo file is shown in the status line.
pub open spec fn logo_step(s: AppState, res: Result<(), Seq<char>>) -> (AppState, ActionView) {
    match res {
        Ok(()) => (AppState { status: " ✓ Logo set! "@, ..s }, ActionView::Nothing),
        Err(m) => (AppState { status: " ✗ Error: "@ + m + " "@, ..s }, ActionView::Nothing),
    }
}

/// The items of a new database replace the list; the first one is
/// highlighted, and the vault browses.
pub open spec fn load_step(s: AppState, items: Seq<ItemView>) -> (AppState, ActionView) {
    (
        AppState {
            items,
            selection: if items.len() > 0 {
                Some(0)
            } else {
                None
            },
            mode: Mode::Browse,
            ..s
        },
        ActionView::Nothing,
    )
}

/// The next state and the outside work for an event.
pub open spec fn step(s: AppState, e: EventView) -> (AppState, ActionView) {
    match e {
        EventView::Key(k) => key_step(s, k),
        EventView::Pasted(text) => paste_step(s, text),
        EventView::LogoWritten(res) => logo_step(s, res),
        EventView::ItemsLoaded(items) => load_step(s, items),
    }
}

/// Every event keeps the state consistent: the highlight stays on an
/// existing item exactly when there is one, editing, renaming and deleting
/// happen only while there is an item, and the edit cursor stays on a
/// character boundary of the edit buffer.
pub proof fn lemma_step_keeps_wf(s: AppState, e: EventView)
    requires
        s.wf(),
    ensures
        step(s, e).0.wf(),
{
    let b = s.edit_buffer;
    let p = s.edit_cursor;
    let empty = Seq::<char>::empty();
    lemma_offset_ends(empty);
    assert(is_boundary(empty, byte_offset(empty, 0) as int));
    lemma_edits_keep_boundary(b, p, '\n');
    if let EventView::Key(k) = e {
        if let KeyCode::Char(c) = k.code {
            lemma_edits_keep_boundary(b, p, c);
        }
        if s.items.len() > 0 {
            let i = s.selected();
            let t = s.items[i].content;
            lemma_offset_ends(t);
            assert(is_boundary(t, byte_offset(t, t.len() as int) as int));
        }
    }
    lemma_moves_land_on_boundaries(b, p);
}

/// Opening the highlighted item for editing and saving it at once, or
/// opening it for renaming and confirming at once, leaves the items as they
/// were (and asks to save them).
pub proof fn lemma_open_and_save_keeps_items(s: AppState)
    requires
        s.wf(),
        s.mode == Mode::Browse,
        s.items.len() > 0,
    ensures
        ({
            let open_edit = Key { code: KeyCode::Char('e'), shift: false, control: false };
            let save = Key { code: KeyCode::Char('s'), shift: false, control: true };
            let (s1, _) = step(s, EventView::Key(open_edit));
            let (s2, a2) = step(s1, EventView::Key(save));
            &&& s2.items == s.items
            &&& s2.mode == Mode::Browse
            &&& a2 == ActionView::SaveItems
        }),
        ({
            let open_rename = Key { code: KeyCode::Char('r'), shift: false, control: false };
            let enter = Key { code: KeyCode::Enter, shift: false, control: false };
            let (s1, _) = step(s, EventView::Key(open_rename));
            let (s2, a2) = step(s1, EventView::Key(enter));
            &&& s2.items == s.items
            &&& s2.mode == Mode::Browse
            &&& a2 == ActionView::SaveItems
        }),
{
    let i = s.selected();
    let open_edit = Key { code: KeyCode::Char('e'), shift: false, control: false };
    let save = Key { code: KeyCode::Char('s'), shift: false, control: true };
    let s1 = step(s, EventView::Key(open_edit)).0;
    assert(s1.selected() == i);
    assert(step(s1, EventView::Key(save)).0.items =~= s.items);
    let open_rename = Key { code: KeyCode::Char('r'), shift: false, control: false };
    let enter = Key { code: KeyCode::Enter, shift: false, control: false };
    let r1 = step(s, EventView::Key(open_rename)).0;
    assert(step(r1, EventView::Key(enter)).0.items =~= s.items);
}

/// In the editor only Ctrl+S touches the items, and no key but Ctrl+S asks
/// for outside work; Esc (without Control) leaves the editor, every other
/// key stays in it.  So leaving with Esc discards the edit.
pub proof fn lemma_edit_keys_keep_items(s: AppState, k: Key)
    requires
        s.mode == Mode::Edit,
        !(k.control && k.code == KeyCode::Char('s')),
    ensures
        step(s, EventView::Key(k)).0.items == s.items,
        step(s, EventView::Key(k)).0.selection == s.selection,
        step(s, EventView::Key(k)).1 == ActionView::Nothing,
        step(s, EventView::Key(k)).0.mode == if !k.control && k.code == KeyCode::Esc {
            Mode::Browse
        } else {
            Mode::Edit
        },
        !k.control && k.code == KeyCode::Esc ==> step(s, EventView::Key(k)).0.edit_buffer
            == s.edit_buffer,
{
}

/// Ctrl+S in the editor stores the edited text into the highlighted item
/// (its name kept, the other items untouched), leaves the editor and asks to
/// save.
pub proof fn lemma_edit_save_stores_buffer(s: AppState, k: Key)
    requires
        s.wf(),
        s.mode == Mode::Edit,
        k.control,
        k.code == KeyCode::Char('s'),
    ensures
        ({
            let (t, a) = step(s, EventView::Key(k));
            let i = s.selected();
            &&& t.items.len() == s.items.len()
            &&& t.items[i].content == s.edit_buffer
            &&& t.items[i].name == s.items[i].name
            &&& forall|j: int| 0 <= j < s.items.len() && j != i ==> t.items[j] == s.items[j]
            &&& t.mode == Mode::Browse
            &&& a == ActionView::SaveItems
        }),
{
}

/// Opening the editor (`e` on an item, or `n` for a new one) shows the
/// highlighted item's own text with the cursor at its end, whatever the
/// editor held before; `n` first adds an empty item named `New` at the end
/// and highlights it, so it opens on an empty text with the cursor at 0.
pub proof fn lemma_editor_opens_on_item(s: AppState, k: Key)
    requires
        s.wf(),
        s.mode == Mode::Browse,
        k.code == KeyCode::Char('n') || (k.code == KeyCode::Char('e') && s.items.len() > 0),
    ensures
        ({
            let (t, a) = step(s, EventView::Key(k));
            &&& t.mode == Mode::Edit
            &&& t.wf()
            &&& t.edit_buffer == t.items[t.selected()].content
            &&& t.edit_cursor == byte_len(t.edit_buffer)
            &&& t.edit_scroll == 0
            &&& a == ActionView::Nothing
            &&& k.code == KeyCode::Char('n') ==> {
                &&& t.items == s.items.push(ItemView { name: "New"@, content: Seq::empty() })
                &&& t.selected() == s.items.len()
                &&& t.edit_buffer == Seq::<char>::empty()
                &&& t.edit_cursor == 0
            }
            &&& k.code == KeyCode::Char('e') ==> t.items == s.items && t.selection
                == s.selection
        }),
{
    lemma_step_keeps_wf(s, EventView::Key(k));
    let t = step(s, EventView::Key(k)).0;
    if k.code == KeyCode::Char('n') {
        lemma_offset_ends(Seq::<char>::empty());
        assert(t.items[t.selected()].content == Seq::<char>::empty());
        assert(encode_utf8(Seq::<char>::empty()) =~= Seq::<u8>::empty());
    }
}

/// Only browsing quits: no event quits in any other mode, and the results of
/// outside work never quit.
pub proof fn lemma_only_browse_quits(s: AppState, e: EventView)
    ensures
        step(s, e).1 == ActionView::Quit ==> s.mode == Mode::Browse && e == EventView::Key(
            Key { code: KeyCode::Char('q'), shift: e->Key_0.shift, control: e->Key_0.control },
        ),
{
}

/// While typing a name or a path, every character key is typed: it is
/// appended to the text being typed, with no other change and no outside
/// work.
pub proof fn lemma_typing_appends(s: AppState, k: Key, c: char)
    requires
        s.mode == Mode::Rename || s.mode == Mode::SetDbPath || s.mode == Mode::SetLogoPath,
        k.code == KeyCode::Char(c),
    ensures
        ({
            let (t, a) = step(s, EventView::Key(k));
            &&& a == ActionView::Nothing
            &&& t.mode == s.mode
            &&& t.items == s.items
            &&& s.mode == Mode::Rename ==> t == (AppState { rename_buffer: s.rename_buffer.push(c), ..s })
            &&& s.mode != Mode::Rename ==> t == (AppState { path_buffer: s.path_buffer.push(c), ..s })
        }),
{
}

/// While browsing, the items change only by `n` (one item added at the end)
/// or by Shift with an arrow (two neighbours exchanged); Up and Down without
/// Shift move the highlight by one place within the list and nothing else.
pub proof fn lemma_browse_keys(s: AppState, k: Key)
    requires
        s.wf(),
        s.mode == Mode::Browse,
    ensures
        ({
            let (t, a) = step(s, EventView::Key(k));
            let n = s.items.len();
            let i = s.selected();
            &&& k.code != KeyCode::Char('n') && !(k.shift && (k.code == KeyCode::Up || k.code
                == KeyCode::Down)) ==> t.items == s.items
            &&& !k.shift && k.code == KeyCode::Down && n > 0 ==> t.selected() == if i + 1 < n {
                i + 1
            } else {
                i
            } && a == ActionView::Nothing && t.mode == Mode::Browse
            &&& !k.shift && k.code == KeyCode::Up && n > 0 ==> t.selected() == if i > 0 {
                i - 1
            } else {
                i
            } && a == ActionView::Nothing && t.mode == Mode::Browse
            &&& k.shift && k.code == KeyCode::Up && i > 0 && n > 0 ==> t.items[i - 1] == s.items[i]
                && t.items[i] == s.items[i - 1] && t.selected() == i - 1 && a
                == ActionView::SaveItems
            &&& k.shift && k.code == KeyCode::Down && i + 1 < n ==> t.items[i + 1] == s.items[i]
                && t.items[i] == s.items[i + 1] && t.selected() == i + 1 && a
                == ActionView::SaveItems
            &&& k.code == KeyCode::Char('c') && n > 0 ==> a == ActionView::CopyToClipboard(
                s.items[i].content,
            )
            &&& k.code == KeyCode::Char('i') && n > 0 ==> a == ActionView::WriteLogo {
                path: s.logo_file,
                content: s.items[i].content,
            } && t == s
            &&& k.code == KeyCode::Char('v') ==> a == ActionView::ReadClipboard && t == s
        }),
{
}

/// Pasted text becomes a new last item named `Pasted`, which is
/// highlighted and saved; the other items stay.
pub proof fn lemma_paste_appends(s: AppState, text: Seq<char>)
    ensures
        ({
            let (t, a) = step(s, EventView::Pasted(text));
            &&& t.items.len() == s.items.len() + 1
            &&& t.items.take(s.items.len() as int) == s.items
            &&& t.items.last() == ItemView { name: "Pasted"@, content: text }
            &&& t.selected() == s.items.len()
            &&& t.mode == s.mode
            &&& a == ActionView::SaveItems
        }),
{
    let t = step(s, EventView::Pasted(text)).0;
    assert(t.items.take(s.items.len() as int) =~= s.items);
}

/// Enter on a typed path takes it only when it is safe: the database path
/// then changes and the items are reloaded from it, the logo path changes
/// and the settings are saved; an unsafe path changes no setting and asks
/// for no work.  Either way the vault browses again with its items as they
/// were.
pub proof fn lemma_path_enter(s: AppState, k: Key)
    requires
        s.mode == Mode::SetDbPath || s.mode == Mode::SetLogoPath,
        k.code == KeyCode::Enter,
    ensures
        ({
            let (t, a) = step(s, EventView::Key(k));
            let ok = safe_path(encode_utf8(s.path_buffer));
            &&& t.mode == Mode::Browse
            &&& t.items == s.items
            &&& !ok ==> t.db_file == s.db_file && t.logo_file == s.logo_file && a
                == ActionView::Nothing
            &&& ok && s.mode == Mode::SetDbPath ==> t.db_file == s.path_buffer && t.logo_file
                == s.logo_file && a == ActionView::SaveConfigAndReload
            &&& ok && s.mode == Mode::SetLogoPath ==> t.logo_file == s.path_buffer && t.db_file
                == s.db_file && a == ActionView::SaveConfig
        }),
{
}

/// Enter while renaming gives the highlighted item the typed name, keeps its
/// art and the other items, and asks to save; Esc keeps every name.
pub proof fn lemma_rename_confirm(s: AppState, k: Key)
    requires
        s.wf(),
        s.mode == Mode::Rename,
        k.code == KeyCode::Enter || k.code == KeyCode::Esc,
    ensures
        ({
            let (t, a) = step(s, EventView::Key(k));
            let i = s.selected();
            &&& t.mode == Mode::Browse
            &&& k.code == KeyCode::Esc ==> t.items == s.items && a == ActionView::Nothing
            &&& k.code == KeyCode::Enter ==> {
                &&& t.items.len() == s.items.len()
                &&& t.items[i] == ItemView { name: s.rename_buffer, content: s.items[i].content }
                &&& forall|j: int| 0 <= j < s.items.len() && j != i ==> t.items[j] == s.items[j]
                &&& a == ActionView::SaveItems
            }
        }),
{
}

/// An item is removed only after confirmation: `d` asks and changes no item;
/// `n` or Esc then leaves the items as they were; `y` or Enter removes
/// exactly the highlighted item and asks to save.
pub proof fn lemma_delete_needs_confirmation(s: AppState, answer: Key)
    requires
        s.wf(),
        s.mode == Mode::Browse,
        s.items.len() > 0,
    ensures
        ({
            let ask = Key { code: KeyCode::Char('d'), shift: false, control: false };
            let (s1, a1) = step(s, EventView::Key(ask));
            let (s2, a2) = step(s1, EventView::Key(answer));
            &&& s1.items == s.items
            &&& s1.mode == Mode::ConfirmDelete
            &&& a1 == ActionView::Nothing
            &&& (answer.code == KeyCode::Char('y') || answer.code == KeyCode::Enter) ==> s2.items
                == s.items.remove(s.selected()) && a2 == ActionView::SaveItems
            &&& !(answer.code == KeyCode::Char('y') || answer.code == KeyCode::Enter)
                ==> s2.items == s.items
        }),
{
}

/// `String::push`: std documents that it appends `ch` to the end of the
/// string.
#[verifier::external_body]
fn string_push(s: &mut String, ch: char)
    ensures
        final(s)@ == old(s)@.push(ch),
{
    s.push(ch)
}

/// `String::pop`: std documents that it removes the last character and
/// returns it, and returns `None` when the string is empty.
#[verifier::external_body]
fn string_pop(s: &mut String) -> (r: Option<char>)
    ensures
        old(s)@.len() == 0 ==> r == None::<char> && final(s)@ == old(s)@,
        old(s)@.len() > 0 ==> r == Some(old(s)@.last()) && final(s)@ == old(s)@.drop_last(),
{
    s.pop()
}

/// A string made of `a`, then `b`, then `c`.
fn concat3(a: &str, b: &str, c: &str) -> (r: String)
    ensures
        r@ == a@ + b@ + c@,
{
    let mut r = String::from_str(a);
    r.append(b);
    r.append(c);
    r
}

/// A key while browsing the list.
fn handle_browse(app: &mut App, key: Key) -> (r: Action)
    requires
        old(app)@.wf(),
    ensures
        final(app)@ == browse_step(old(app)@, key).0,
        r@ == browse_step(old(app)@, key).1,
{
    let ghost pre = app@;
    let n = app.items.len();
    let i = app.selected();
    let has = n > 0;
    if key.code == KeyCode::Char('q') {
        Action::Quit
    } else if key.code == KeyCode::Char('n') {
        let item = AsciiItem { name: String::from_str("New"), content: String::new() };
        proof {
            lemma_items_push(app.items@, item);
        }
        app.items.push(item);
        app.selection = Some(n);
        app.edit_buffer = String::new();
        app.edit_cursor = 0;
        app.edit_scroll = 0;
        app.status = String::new();
        app.mode = Mode::Edit;
        proof {
            assert(app@ =~= browse_step(pre, key).0);
        }
        Action::Nothing
    } else if key.code == KeyCode::Char('v') {
        Action::ReadClipboard
    } else if key.code == KeyCode::Char('c') && has {
        let text = app.items[i].content.clone();
        app.status = String::from_str(" Copied to clipboard! ");
        proof {
            assert(app@ =~= browse_step(pre, key).0);
        }
        Action::CopyToClipboard(text)
    } else if key.code == KeyCode::Char('e') && has {
        let content = app.items[i].content.clone();
        app.edit_cursor = content.as_str().as_bytes().len();
        app.edit_buffer = content;
        app.edit_scroll = 0;
        app.status = String::new();
        app.mode = Mode::Edit;
        proof {
            assert(app@ =~= browse_step(pre, key).0);
        }
        Action::Nothing
    } else if key.code == KeyCode::Char('r') && has {
        app.rename_buffer = app.items[i].name.clone();
        app.status = String::new();
        app.mode = Mode::Rename;
        proof {
            assert(app@ =~= browse_step(pre, key).0);
        }
        Action::Nothing
    } else if key.code == KeyCode::Char('i') && has {
        let content = app.items[i].content.clone();
        let path = app.config.logo_file.clone();
        Action::WriteLogo { path, content }
    } else if key.code == KeyCode::Char('d') && has {
        app.mode = Mode::ConfirmDelete;
        proof {
            assert(app@ =~= browse_step(pre, key).0);
        }
        Action::Nothing
    } else if key.code == KeyCode::Char('p') {
        app.path_buffer = app.config.db_file.clone();
        app.status = String::new();
        app.mode = Mode::SetDbPath;
        proof {
            assert(app@ =~= browse_step(pre, key).0);
        }
        Action::Nothing
    } else if key.code == KeyCode::Char('l') {
        app.path_buffer = app.config.logo_file.clone();
        app.status = String::new();
        app.mode = Mode::SetLogoPath;
        proof {
            assert(app@ =~= browse_step(pre, key).0);
        }
        Action::Nothing
    } else if key.code == KeyCode::Up && key.shift {
        if app.move_item_up() {
            Action::SaveItems
        } else {
            Action::Nothing
        }
    } else if key.code == KeyCode::Down && key.shift {
        if app.move_item_down() {
            Action::SaveItems
        } else {
            Action::Nothing
        }
    } else if key.code == KeyCode::Down && has {
        if i + 1 < n {
            app.selection = Some(i + 1);
            app.status = String::new();
            proof {
                assert(app@ =~= browse_step(pre, key).0);
            }
        }
        Action::Nothing
    } else if key.code == KeyCode::Up && has {
        if i > 0 {
            app.selection = Some(i - 1);
            app.status = String::new();
            proof {
                assert(app@ =~= browse_step(pre, key).0);
            }
        }
        Action::Nothing
    } else {
        Action::Nothing
    }
}

/// A key while asking whether to delete the highlighted item.
fn handle_confirm(app: &mut App, key: Key) -> (r: Action)
    requires
        old(app)@.wf(),
        old(app)@.mode == Mode::ConfirmDelete,
    ensures
        final(app)@ == confirm_step(old(app)@, key).0,
        r@ == confirm_step(old(app)@, key).1,
{
    let ghost pre = app@;
    if key.code == KeyCode::Char('y') || key.code == KeyCode::Enter {
        let idx = app.selected();
        proof {
            lemma_items_remove(app.items@, idx as int);
        }
        app.items.remove(idx);
        let m = app.items.len();
        app.selection = if m == 0 {
            None
        } else {
            let before = if idx > 0 {
                idx - 1
            } else {
                0
            };
            Some(if before < m - 1 {
                before
            } else {
                m - 1
            })
        };
        app.status = String::from_str(" Deleted ");
        app.mode = Mode::Browse;
        proof {
            assert(app@ =~= confirm_step(pre, key).0);
        }
        Action::SaveItems
    } else if key.code == KeyCode::Char('n') || key.code == KeyCode::Esc {
        app.status = String::from_str(" Canceled ");
        app.mode = Mode::Browse;
        proof {
            assert(app@ =~= confirm_step(pre, key).0);
        }
        Action::Nothing
    } else {
        Action::Nothing
    }
}

/// A key while renaming the highlighted item.
fn handle_rename(app: &mut App, key: Key) -> (r: Action)
    requires
        old(app)@.wf(),
        old(app)@.mode == Mode::Rename,
    ensures
        final(app)@ == rename_step(old(app)@, key).0,
        r@ == rename_step(old(app)@, key).1,
{
    let ghost pre = app@;
    match key.code {
        KeyCode::Enter => {
            let idx = app.selected();
            let item = AsciiItem {
                name: app.rename_buffer.clone(),
                content: app.items[idx].content.clone(),
            };
            proof {
                lemma_items_update(app.items@, idx as int, item);
            }
            app.items.set(idx, item);
            app.mode = Mode::Browse;
            proof {
                assert(app@ =~= rename_step(pre, key).0);
            }
            Action::SaveItems
        },
        KeyCode::Esc => {
            app.mode = Mode::Browse;
            proof {
                assert(app@ =~= rename_step(pre, key).0);
            }
            Action::Nothing
        },
        KeyCode::Backspace => {
            string_pop(&mut app.rename_buffer);
            proof {
                assert(app@ =~= rename_step(pre, key).0);
            }
            Action::Nothing
        },
        KeyCode::Char(c) => {
            string_push(&mut app.rename_buffer, c);
            proof {
                assert(app@ =~= rename_step(pre, key).0);
            }
            Action::Nothing
        },
        _ => Action::Nothing,
    }
}

/// A key while typing a new path for the database (`for_db`) or the logo
/// file.
fn handle_path(app: &mut App, key: Key, for_db: bool) -> (r: Action)
    requires
        old(app)@.wf(),
    ensures
        final(app)@ == path_step(old(app)@, key, for_db).0,
        r@ == path_step(old(app)@, key, for_db).1,
{
    let ghost pre = app@;
    match key.code {
        KeyCode::Enter => {
            if !is_safe_path(app.path_buffer.as_str()) {
                app.status = String::from_str(" ✗ ERRORE: Percorso non sicuro o fuori da /home/ ");
                app.mode = Mode::Browse;
                proof {
                    assert(app@ =~= path_step(pre, key, for_db).0);
                }
                Action::Nothing
            } else if for_db {
                app.config.db_file = app.path_buffer.clone();
                app.status = concat3(" ✓ DB → ", app.config.db_file.as_str(), " ");
                app.mode = Mode::Browse;
                proof {
                    assert(app@ =~= path_step(pre, key, for_db).0);
                }
                Action::SaveConfigAndReload
            } else {
                app.config.logo_file = app.path_buffer.clone();
                app.status = concat3(" ✓ Logo path → ", app.config.logo_file.as_str(), " ");
                app.mode = Mode::Browse;
                proof {
                    assert(app@ =~= path_step(pre, key, for_db).0);
                }
                Action::SaveConfig
            }
        },
        KeyCode::Esc => {
            app.mode = Mode::Browse;
            proof {
                assert(app@ =~= path_step(pre, key, for_db).0);
            }
            Action::Nothing
        },
        KeyCode::Backspace => {
            string_pop(&mut app.path_buffer);
            proof {
                assert(app@ =~= path_step(pre, key, for_db).0);
            }
            Action::Nothing
        },
        KeyCode::Char(c) => {
            string_push(&mut app.path_buffer, c);
            proof {
                assert(app@ =~= path_step(pre, key, for_db).0);
            }
            Action::Nothing
        },
        _ => Action::Nothing,
    }
}

/// Inserts `c` at the edit cursor.
fn edit_insert(app: &mut App, c: char)
    requires
        old(app)@.wf(),
    ensures
        final(app)@ == (AppState {
            edit_buffer: text_after_insert(old(app)@.edit_buffer, old(app)@.edit_cursor, c),
            edit_cursor: old(app)@.edit_cursor + char_width(c),
            ..old(app)@
        }),
{
    let ghost pre = app@;
    let mut cursor = app.edit_cursor;
    insert_char(&mut app.edit_buffer, &mut cursor, c);
    app.edit_cursor = cursor;
    proof {
        assert(app@ =~= (AppState {
            edit_buffer: text_after_insert(pre.edit_buffer, pre.edit_cursor, c),
            edit_cursor: pre.edit_cursor + char_width(c),
            ..pre
        }));
    }
}

/// A key while editing the highlighted item.
fn handle_edit(app: &mut App, key: Key) -> (r: Action)
    requires
        old(app)@.wf(),
        old(app)@.mode == Mode::Edit,
    ensures
        final(app)@ == edit_step(old(app)@, key).0,
        r@ == edit_step(old(app)@, key).1,
{
    let ghost pre = app@;
    proof {
        lemma_edits_keep_boundary(pre.edit_buffer, pre.edit_cursor, '\n');
    }
    if key.control {
        if key.code == KeyCode::Char('s') {
            let idx = app.selected();
            let item = AsciiItem {
                name: app.items[idx].name.clone(),
                content: app.edit_buffer.clone(),
            };
            proof {
                lemma_items_update(app.items@, idx as int, item);
            }
            app.items.set(idx, item);
            app.status = String::from_str(" Saved ");
            app.mode = Mode::Browse;
            proof {
                assert(app@ =~= edit_step(pre, key).0);
            }
            Action::SaveItems
        } else if key.code == KeyCode::Char('a') {
            app.edit_cursor = line_start(app.edit_buffer.as_str(), app.edit_cursor);
            proof {
                assert(app@ =~= edit_step(pre, key).0);
            }
            Action::Nothing
        } else if key.code == KeyCode::Char('e') {
            app.edit_cursor = line_end(app.edit_buffer.as_str(), app.edit_cursor);
            proof {
                assert(app@ =~= edit_step(pre, key).0);
            }
            Action::Nothing
        } else {
            Action::Nothing
        }
    } else {
        match key.code {
            KeyCode::Esc => {
                app.mode = Mode::Browse;
                proof {
                    assert(app@ =~= edit_step(pre, key).0);
                }
            },
            KeyCode::Enter => {
                edit_insert(app, '\n');
            },
            KeyCode::Backspace => {
                let mut cursor = app.edit_cursor;
                backspace(&mut app.edit_buffer, &mut cursor);
                app.edit_cursor = cursor;
                proof {
                    assert(app@ =~= edit_step(pre, key).0);
                }
            },
            KeyCode::Delete => {
                delete_char(&mut app.edit_buffer, app.edit_cursor);
                proof {
                    assert(app@ =~= edit_step(pre, key).0);
                }
            },
            KeyCode::Left => {
                app.edit_cursor = cursor_left(app.edit_buffer.as_str(), app.edit_cursor);
                proof {
                    assert(app@ =~= edit_step(pre, key).0);
                }
            },
            KeyCode::Right => {
                app.edit_cursor = cursor_right(app.edit_buffer.as_str(), app.edit_cursor);
                proof {
                    assert(app@ =~= edit_step(pre, key).0);
                }
            },
            KeyCode::Up => {
                app.edit_cursor = cursor_up(app.edit_buffer.as_str(), app.edit_cursor);
                proof {
                    assert(app@ =~= edit_step(pre, key).0);
                }
            },
            KeyCode::Down => {
                app.edit_cursor = cursor_down(app.edit_buffer.as_str(), app.edit_cursor);
                proof {
                    assert(app@ =~= edit_step(pre, key).0);
                }
            },
            KeyCode::Home => {
                app.edit_cursor = line_start(app.edit_buffer.as_str(), app.edit_cursor);
                proof {
                    assert(app@ =~= edit_step(pre, key).0);
                }
            },
            KeyCode::End => {
                app.edit_cursor = line_end(app.edit_buffer.as_str(), app.edit_cursor);
                proof {
                    assert(app@ =~= edit_step(pre, key).0);
                }
            },
            KeyCode::Char(c) => {
                edit_insert(app, c);
            },
            KeyCode::Other => {},
        }
        Action::Nothing
    }
}

/// Answers one event: updates the state and says which outside work to do.
/// The state must be consistent (`wf`), and it stays so.
pub fn handle_input(app: &mut App, event: Event) -> (r: Action)
    requires
        old(app)@.wf(),
    ensures
        final(app)@ == step(old(app)@, event@).0,
        r@ == step(old(app)@, event@).1,
        final(app)@.wf(),
{
    let ghost pre = app@;
    let ghost ev = event@;
    proof {
        lemma_step_keeps_wf(pre, ev);
    }
    match event {
        Event::Key(key) => match app.mode {
            Mode::Browse => handle_browse(app, key),
            Mode::ConfirmDelete => handle_confirm(app, key),
            Mode::Rename => handle_rename(app, key),
            Mode::SetDbPath => handle_path(app, key, true),
            Mode::SetLogoPath => handle_path(app, key, false),
            Mode::Edit => handle_edit(app, key),
        },
        Event::Pasted(text) => {
            let n = app.items.len();
            let item = AsciiItem { name: String::from_str("Pasted"), content: text };
            proof {
                lemma_items_push(app.items@, item);
            }
            app.items.push(item);
            app.selection = Some(n);
            app.status = String::from_str(" Pasted from clipboard ");
            proof {
                assert(app@ =~= step(pre, ev).0);
            }
            Action::SaveItems
        },
        Event::LogoWritten(res) => {
            match res {
                Ok(()) => {
                    app.status = String::from_str(" ✓ Logo set! ");
                },
                Err(m) => {
                    app.status = concat3(" ✗ Error: ", m.as_str(), " ");
                },
            }
            proof {
                assert(app@ =~= step(pre, ev).0);
            }
            Action::Nothing
        },
        Event::ItemsLoaded(items) => {
            let has = items.len() > 0;
            app.items = items;
            app.selection = if has {
                Some(0)
            } else {
                None
            };
            app.mode = Mode::Browse;
            proof {
                assert(app@ =~= step(pre, ev).0);
            }
            Action::Nothing
        },
    }
}

} // verus!

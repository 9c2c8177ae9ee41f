//! The vault's state: its items, its settings and the editor's state.
use vstd::prelude::*;
use crate::text::{is_boundary, lemma_offset_ends};

verus! {

/// One piece of ASCII art with its name.
#[derive(Clone, Debug, PartialEq, Eq)]
pub struct AsciiItem {
    pub name: String,
    pub content: String,
}

/// An item as text.
#[verifier::ext_equal]
pub struct ItemView {
    pub name: Seq<char>,
    pub content: Seq<char>,
}

impl View for AsciiItem {
    type V = ItemView;

    open spec fn view(&self) -> ItemView {
        ItemView { name: self.name@, content: self.content@ }
    }
}

/// The texts of a list of items.
pub open spec fn items_view(v: Seq<AsciiItem>) -> Seq<ItemView> {
    v.map_values(|it: AsciiItem| it@)
}

/// Where the vault keeps its files.
#[derive(Clone, Debug, PartialEq, Eq)]
pub struct Config {
    pub db_file: String,
    pub logo_file: String,
}

/// What the keys do at the moment.
#[derive(Clone, Copy, PartialEq, Eq, Structural, Debug)]
pub enum Mode {
    Browse,
    Edit,
    Rename,
    SetDbPath,
    SetLogoPath,
    ConfirmDelete,
}

/// The whole state of the vault.
pub struct App {
    pub items: Vec<AsciiItem>,
    /// The highlighted item of the list.
    pub selection: Option<usize>,
    pub mode: Mode,
    pub edit_buffer: String,
    /// Byte offset of the cursor in `edit_buffer`.
    pub edit_cursor: usize,
    /// First line of `edit_buffer` that the editor shows.
    pub edit_scroll: u16,
    pub rename_buffer: String,
    pub path_buffer: String,
    pub status: String,
    pub config: Config,
}

/// The state of the vault as values.
#[verifier::ext_equal]
pub struct AppState {
    pub items: Seq<ItemView>,
    pub selection: Option<int>,
    pub mode: Mode,
    pub edit_buffer: Seq<char>,
    pub edit_cursor: int,
    pub edit_scroll: int,
    pub rename_buffer: Seq<char>,
    pub path_buffer: Seq<char>,
    pub status: Seq<char>,
    pub db_file: Seq<char>,
    pub logo_file: Seq<char>,
}

impl View for App {
    type V = AppState;

    open spec fn view(&self) -> AppState {
        AppState {
            items: items_view(self.items@),
            selection: match self.selection {
                Some(i) => Some(i as int),
                None => None,
            },
            mode: self.mode,
            edit_buffer: self.edit_buffer@,
            edit_cursor: self.edit_cursor as int,
            edit_scroll: self.edit_scroll as int,
            rename_buffer: self.rename_buffer@,
            path_buffer: self.path_buffer@,
            status: self.status@,
            db_file: self.config.db_file@,
            logo_file: self.config.logo_file@,
        }
    }
}

impl AppState {
    /// The index of the highlighted item (zero when none is).
    pub open spec fn selected(self) -> int {
        match self.selection {
            Some(i) => i,
            None => 0,
        }
    }

    /// An item is highlighted exactly when there is one, and the highlighted
    /// one exists.
    pub open spec fn selection_ok(self) -> bool {
        match self.selection {
            Some(i) => 0 <= i < self.items.len(),
            None => self.items.len() == 0,
        }
    }

    /// The state is consistent: an item is highlighted exactly when there is
    /// one, and the highlighted one exists; editing, renaming and confirming a
    /// deletion happen only while there is an item; the edit cursor lies on a
    /// character boundary of the edit buffer.
    pub open spec fn wf(self) -> bool {
        &&& self.selection_ok()
        &&& (self.mode == Mode::Edit || self.mode == Mode::Rename || self.mode
            == Mode::ConfirmDelete) ==> self.items.len() > 0
        &&& is_boundary(self.edit_buffer, self.edit_cursor)
    }

    /// Moving the highlighted item up is possible.
    pub open spec fn can_move_up(self) -> bool {
        self.items.len() > 0 && self.selected() > 0
    }

    /// Moving the highlighted item down is possible.
    pub open spec fn can_move_down(self) -> bool {
        self.items.len() > 0 && self.selected() + 1 < self.items.len()
    }

    /// The state after the highlighted item moved up one place.
    pub open spec fn moved_up(self) -> AppState {
        let i = self.selected();
        AppState {
            items: swap_adjacent(self.items, i - 1),
            selection: Some(i - 1),
            ..self
        }
    }

    /// The state after the highlighted item moved down one place.
    pub open spec fn moved_down(self) -> AppState {
        let i = self.selected();
        AppState { items: swap_adjacent(self.items, i), selection: Some(i + 1), ..self }
    }
}

/// `v` with the elements at `i` and `i + 1` exchanged.
pub open spec fn swap_adjacent<T>(v: Seq<T>, i: int) -> Seq<T> {
    v.update(i, v[i + 1]).update(i + 1, v[i])
}

/// The starting state of the vault over the given settings and items: the
/// first item highlighted, browsing, empty buffers and status.
pub open spec fn initial_state(db_file: Seq<char>, logo_file: Seq<char>, items: Seq<ItemView>) -> AppState {
    AppState {
        items,
        selection: if items.len() > 0 {
            Some(0)
        } else {
            None
        },
        mode: Mode::Browse,
        edit_buffer: Seq::empty(),
        edit_cursor: 0,
        edit_scroll: 0,
        rename_buffer: Seq::empty(),
        path_buffer: Seq::empty(),
        status: Seq::empty(),
        db_file,
        logo_file,
    }
}

/// The vault's files under the home directory `home`.
pub open spec fn config_files(home: Seq<char>) -> (Seq<char>, Seq<char>) {
    (home + "/.config/ascii-vault/library.json"@, home + "/.config/ascii-vault/logo.txt"@)
}

impl Config {
    /// The default settings for the home directory `home`: the database and
    /// the logo file in `<home>/.config/ascii-vault`.
    pub fn for_home(home: &str) -> (c: Config)
        ensures
            (c.db_file@, c.logo_file@) == config_files(home@),
    {
        let mut db_file = String::from_str(home);
        db_file.append("/.config/ascii-vault/library.json");
        let mut logo_file = String::from_str(home);
        logo_file.append("/.config/ascii-vault/logo.txt");
        Config { db_file, logo_file }
    }

    /// Where the settings themselves are kept for the home directory `home`.
    pub fn settings_path(home: &str) -> (p: String)
        ensures
            p@ == home@ + "/.config/ascii-vault/config.json"@,
    {
        let mut p = String::from_str(home);
        p.append("/.config/ascii-vault/config.json");
        p
    }
}

/// The texts of a list grow by the text of a pushed item.
pub proof fn lemma_items_push(v: Seq<AsciiItem>, x: AsciiItem)
    ensures
        items_view(v.push(x)) == items_view(v).push(x@),
{
    assert(items_view(v.push(x)) =~= items_view(v).push(x@));
}

/// Replacing an item replaces its text.
pub proof fn lemma_items_update(v: Seq<AsciiItem>, i: int, x: AsciiItem)
    requires
        0 <= i < v.len(),
    ensures
        items_view(v.update(i, x)) == items_view(v).update(i, x@),
{
    assert(items_view(v.update(i, x)) =~= items_view(v).update(i, x@));
}

/// Removing an item removes its text.
pub proof fn lemma_items_remove(v: Seq<AsciiItem>, i: int)
    requires
        0 <= i < v.len(),
    ensures
        items_view(v.remove(i)) == items_view(v).remove(i),
{
    assert(items_view(v.remove(i)) =~= items_view(v).remove(i));
}

impl App {
    /// A vault over the given settings and items, in the starting state.
    pub fn new(config: Config, items: Vec<AsciiItem>) -> (app: App)
        ensures
            app@ == initial_state(config.db_file@, config.logo_file@, items_view(items@)),
            app@.wf(),
    {
        let selection = if items.len() > 0 {
            Some(0)
        } else {
            None
        };
        let app = App {
            items,
            selection,
            mode: Mode::Browse,
            edit_buffer: String::new(),
            edit_cursor: 0,
            edit_scroll: 0,
            rename_buffer: String::new(),
            path_buffer: String::new(),
            status: String::new(),
            config,
        };
        proof {
            lemma_offset_ends(app.edit_buffer@);
            assert(app@ =~= initial_state(
                app.config.db_file@,
                app.config.logo_file@,
                items_view(app.items@),
            ));
        }
        app
    }

    /// Index of the highlighted item (zero when none is).
    pub fn selected(&self) -> (r: usize)
        ensures
            r == self@.selected(),
    {
        match self.selection {
            Some(i) => i,
            None => 0,
        }
    }

    /// Moves the highlighted item up one place and keeps it highlighted;
    /// returns whether the list changed (and so must be saved).
    pub fn move_item_up(&mut self) -> (moved: bool)
        requires
            old(self)@.selection_ok(),
        ensures
            moved == old(self)@.can_move_up(),
            moved ==> final(self)@ == old(self)@.moved_up(),
            !moved ==> final(self)@ == old(self)@,
            final(self)@.selection_ok(),
    {
        let i = self.selected();
        if self.items.len() > 0 && i > 0 {
            let ghost pre = self@;
            let it = self.items.remove(i);
            self.items.insert(i - 1, it);
            self.selection = Some(i - 1);
            proof {
                assert(self@.items =~= pre.moved_up().items);
                assert(self@ =~= pre.moved_up());
            }
            true
        } else {
            false
        }
    }

    /// Moves the highlighted item down one place and keeps it highlighted;
    /// returns whether the list changed (and so must be saved).
    pub fn move_item_down(&mut self) -> (moved: bool)
        requires
            old(self)@.selection_ok(),
        ensures
            moved == old(self)@.can_move_down(),
            moved ==> final(self)@ == old(self)@.moved_down(),
            !moved ==> final(self)@ == old(self)@,
            final(self)@.selection_ok(),
    {
        let i = self.selected();
        if self.items.len() > 0 && i + 1 < self.items.len() {
            let ghost pre = self@;
            let it = self.items.remove(i);
            self.items.insert(i + 1, it);
            self.selection = Some(i + 1);
            proof {
                assert(self@.items =~= pre.moved_down().items);
                assert(self@ =~= pre.moved_down());
            }
            true
        } else {
            false
        }
    }
}

/// Moving the highlighted item up and then down again restores the list and
/// the highlight; so does moving it down and then up.
pub proof fn lemma_move_up_down_inverse(s: AppState)
    requires
        s.selection_ok(),
    ensures
        s.can_move_up() ==> s.moved_up().can_move_down() && s.moved_up().moved_down() == s,
        s.can_move_down() ==> s.moved_down().can_move_up() && s.moved_down().moved_up() == s,
{
    if s.can_move_up() {
        let t = s.moved_up();
        assert(t.moved_down().items =~= s.items);
        assert(t.moved_down() =~= s);
    }
    if s.can_move_down() {
        let t = s.moved_down();
        assert(t.moved_up().items =~= s.items);
        assert(t.moved_up() =~= s);
    }
}

} // verus!

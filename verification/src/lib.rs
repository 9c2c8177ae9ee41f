//! A vault of ASCII art: a list of named pieces, an editor for them, and the
//! rules by which keys change the vault.
//!
//! - `text`: byte positions in UTF-8 text and the characters they belong to;
//! - `buffer`: cursor motion and editing in a text buffer;
//! - `path`: which file paths the vault accepts;
//! - `model`: the vault's state and its consistency;
//! - `events`: how the vault answers keys and the results of outside work;
//! - `screen`: what the screen shows for a state.

pub mod text;
pub mod buffer;
pub mod path;
pub mod model;
pub mod events;
pub mod screen;

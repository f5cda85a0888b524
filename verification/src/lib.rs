//! Note-vault management: path and tag normalisation, markdown front matter,
//! a line editor with `ed`-like commands, and the pure parts of a terminal
//! note browser, each with a machine-checked contract.

pub mod text;
pub mod index;
pub mod frontmatter;
pub mod editor;
pub mod slug;
pub mod plugin;
pub mod config;
pub mod context;
pub mod storage;
pub mod tag_laws;
pub mod path_laws;
pub mod fuzzy;
pub mod tui;
pub mod vault;

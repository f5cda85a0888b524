//! The pure parts of the terminal note browser: character classes, cursor
//! motions and edits on the buffer, markdown tables and blocks, and the
//! names the browser shows for notes and directories.

pub mod chars;
pub mod motion;
pub mod lists;
pub mod edit;
pub mod tables;
pub mod names;
pub mod blocks;
pub mod fold;
pub mod visual;
pub mod tree;
pub mod paths;
pub mod links;
pub mod panes;
pub mod dirs;
pub mod commands;
pub mod keys;
pub mod search;
pub mod markdown;
pub mod files;
pub mod undo;
pub mod cache;
pub mod state;
pub mod find;
pub mod screen;
pub mod layout;
pub mod cut;
pub mod watch;
pub mod render;

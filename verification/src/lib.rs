//! The verified core of a two-pane terminal file manager.

pub mod ansi;
pub mod attempts;
pub mod commander;
pub mod connect;
pub mod copying;
pub mod draw;
pub mod entry;
pub mod fileops;
pub mod frame;
pub mod ftp;
pub mod help;
pub mod icons;
pub mod keys;
pub mod listing;
pub mod menu;
pub mod mount;
pub mod netrc;
pub mod num;
pub mod order;
pub mod pane;
pub mod path;
pub mod picker;
pub mod prompt;
pub mod scan;
pub mod search;
pub mod size;
pub mod sorting;
pub mod terminal;
pub mod text;

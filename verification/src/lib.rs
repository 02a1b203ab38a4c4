//! Terminal emulation core of the Nova terminal: the screen grid, the
//! escape-sequence executor, URL detection, selection handling, the paint of
//! displayed cells, kitty graphics framing, keyboard encoding, tabs, the command
//! palette, the settings file and configuration parsing.
use vstd::prelude::*;

pub mod ai;
pub mod bell;
pub mod cli;
pub mod color;
pub mod config;
pub mod csi;
pub mod ext;
pub mod grid;
pub mod interaction;
pub mod keys;
pub mod kitty;
pub mod osc;
pub mod palette;
pub mod parser;
pub mod pty;
pub mod render;
pub mod resize;
pub mod select;
pub mod session;
pub mod settings_file;
pub mod status;
pub mod tabs;
pub mod text;
pub mod url;
pub mod view;
pub mod window;

verus! {
}

//! A terminal emulator: the grid and its escape sequences, the state of tabs
//! and keyboard input, and what a frame shows.

pub mod agent;
pub mod atlas;
pub mod blocks;
pub mod cell;
pub mod config;
pub mod editing;
pub mod grid;
pub mod keys;
pub mod laws;
pub mod links;
pub mod lsof;
pub mod mouse;
pub mod osc;
pub mod paint;
pub mod parser;
pub mod paste;
pub mod reflow;
pub mod screen;
pub mod selection;
pub mod session;
pub mod sgr;
pub mod tabs;
pub mod text;
pub mod theme;
pub mod urls;
pub mod view;
pub mod vt;
pub mod width;

pub use cell::{Attrs, Cell, Color, Pen};
pub use grid::{Cursor, Grid, Size, DEFAULT_SCROLLBACK};
pub use parser::Terminal;
pub use theme::Theme;

//! The model behind a spreadsheet front-end whose sheets tile the plane
//! with squares, hexagons or triangles (selections also range over
//! Voronoi cells, named by their seed): cell addresses and
//! navigation, selections, the fill handle, formatting and its undo,
//! notes, widget cells, search, undo history, the clipboard, the keyboard
//! map, formula editing by pointing, and the calendar arithmetic of
//! date-formatted cells.

pub mod text;
pub mod keyed;
pub mod lattice;
pub mod grid;
pub mod fill;
pub mod calendar;
pub mod selection;
pub mod nav;
pub mod formula_mode;
pub mod format;
pub mod conditional;
pub mod note;
pub mod find;
pub mod history;
pub mod clipboard;
pub mod edits;
pub mod keymap;
pub mod ribbon;
pub mod widget;
pub mod state_io;
pub mod carbide;

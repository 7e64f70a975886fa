//! The workbook app built on the shared grid model: its keyboard map,
//! its ribbon and conditional-format helpers, and its column sort.

pub mod keymap;
pub mod ribbon;
pub mod conditional;
pub mod sort;

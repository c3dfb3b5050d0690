pub mod ansi;
pub mod chess;
pub mod contents;
pub mod render;
pub mod screen;
pub mod terminal_management;

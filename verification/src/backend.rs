//! What an output backend decides between the library and the terminal.

pub mod termion;

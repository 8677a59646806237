//! Reads the state of a Tetris board (the 10 x 20 field and the five
//! upcoming pieces) out of pixel data, and plans the key presses that move a
//! piece.

pub mod values;
pub mod checker;
pub mod image;
pub mod screen;
pub mod display;
pub mod key;

use vstd::prelude::*;

pub mod bag;
pub mod game;
pub mod input;
pub mod render;
pub mod board;
pub mod piece;

verus! {

/// Number of columns on the playfield.
pub const BOARD_WIDTH: u32 = 10;
/// Number of rows on the playfield, including the hidden spawn rows.
pub const BOARD_HEIGHT: u32 = 20;
/// Rows at the top of the playfield that are not drawn.
pub const HIDDEN_ROWS: u32 = 2;

/// A cell colour; opaque to the engine apart from equality.
#[derive(Clone, Copy, PartialEq, Eq, Structural, Debug)]
pub enum Color {
    Black,
    Red,
    Cyan,
    Orange,
    Blue,
    Purple,
    Green,
}

/// Direction of a quarter-turn rotation.
#[derive(Clone, Copy, PartialEq, Eq, Structural, Debug)]
pub enum Direction {
    Left,
    Right,
}

/// A logical key event delivered to the game.
#[derive(Clone, Copy, PartialEq, Eq, Structural, Debug)]
pub enum Key {
    Up,
    Down,
    Left,
    Right,
    Space,
    CtrlC,
    Char(char),
}

/// An integer coordinate pair, used both for board cells and piece origins.
#[derive(Clone, Copy, PartialEq, Eq, Structural, Debug)]
pub struct Point {
    pub x: i32,
    pub y: i32,
}

} // verus!

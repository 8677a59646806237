use vstd::prelude::*;

verus! {

/// Number of cells across the field.
pub const CELL_WIDTH: usize = 10;

/// Number of cells down the field.
pub const CELL_HEIGHT: usize = 20;

/// The seven tetrominoes, and a marker for a piece that could not be told.
#[derive(Debug, Clone, Copy, PartialEq, Eq, Structural)]
pub enum Mino {
    S,
    Z,
    L,
    J,
    I,
    O,
    T,
    UNKNOWN,
}

/// What a cell of the field holds.
#[derive(Debug, Clone, Copy, PartialEq, Eq, Structural)]
pub enum CellState {
    EXIST,
    NONE,
    UNKNOWN,
}

/// The reference colour of a tetromino, in HSV with the hue on a 0..360
/// scale.
#[derive(Debug, Clone, Copy, PartialEq, Eq, Structural)]
pub struct MinoHSV {
    pub kind: Mino,
    pub h: u16,
    pub s: u16,
    pub v: u16,
}

/// How far a colour's hue may lie from a reference hue.
pub const ALLOW_H_GAP: u16 = 10;

/// How far a colour's saturation may lie from a reference saturation.
pub const ALLOW_S_GAP: u16 = 50;

/// How far a colour's value may lie from a reference value.
pub const ALLOW_V_GAP: u16 = 50;

/// The reference colours, in the order in which they are tried.
pub open spec fn mino_hsv_list() -> Seq<MinoHSV> {
    seq![
        MinoHSV { kind: Mino::S, h: 100, s: 190, v: 180 },
        MinoHSV { kind: Mino::Z, h: 0, s: 220, v: 130 },
        MinoHSV { kind: Mino::L, h: 25, s: 250, v: 240 },
        MinoHSV { kind: Mino::J, h: 210, s: 250, v: 170 },
        MinoHSV { kind: Mino::I, h: 200, s: 240, v: 200 },
        MinoHSV { kind: Mino::T, h: 290, s: 175, v: 150 },
        MinoHSV { kind: Mino::O, h: 45, s: 215, v: 200 },
    ]
}

/// The table of reference colours.
pub fn mino_hsv_table() -> (table: [MinoHSV; 7])
    ensures
        table@ == mino_hsv_list(),
{
    let table = [
        MinoHSV { kind: Mino::S, h: 100, s: 190, v: 180 },
        MinoHSV { kind: Mino::Z, h: 0, s: 220, v: 130 },
        MinoHSV { kind: Mino::L, h: 25, s: 250, v: 240 },
        MinoHSV { kind: Mino::J, h: 210, s: 250, v: 170 },
        MinoHSV { kind: Mino::I, h: 200, s: 240, v: 200 },
        MinoHSV { kind: Mino::T, h: 290, s: 175, v: 150 },
        MinoHSV { kind: Mino::O, h: 45, s: 215, v: 200 },
    ];
    assert(table@ =~= mino_hsv_list());
    table
}

} // verus!

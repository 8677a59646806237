use vstd::prelude::*;
use crate::screen::BoardState;
use crate::values::{CellState, Mino, CELL_HEIGHT, CELL_WIDTH};

verus! {

/// The character that shows a cell: `o` for a block, `.` for an empty cell,
/// `?` for one that could not be read.
pub open spec fn cell_char(c: CellState) -> u8 {
    match c {
        CellState::EXIST => 111u8,
        CellState::NONE => 46u8,
        CellState::UNKNOWN => 63u8,
    }
}

/// One row of the field as text, ended by a newline.
pub open spec fn row_text(field: [[CellState; CELL_HEIGHT]; CELL_WIDTH], y: int) -> Seq<u8> {
    Seq::new(CELL_WIDTH as nat, |x: int| cell_char(field@[x]@[y])).push(10u8)
}

/// The first `n` rows of the field as text.
pub open spec fn rows_text(field: [[CellState; CELL_HEIGHT]; CELL_WIDTH], n: int) -> Seq<u8>
    decreases n,
{
    if n <= 0 {
        Seq::empty()
    } else {
        rows_text(field, n - 1) + row_text(field, n - 1)
    }
}

/// The name of a piece as `Debug` writes it.
pub open spec fn mino_name(m: Mino) -> Seq<u8> {
    match m {
        Mino::S => seq![83u8],
        Mino::Z => seq![90u8],
        Mino::L => seq![76u8],
        Mino::J => seq![74u8],
        Mino::I => seq![73u8],
        Mino::O => seq![79u8],
        Mino::T => seq![84u8],
        Mino::UNKNOWN => seq![85u8, 78u8, 75u8, 78u8, 79u8, 87u8, 78u8],
    }
}

/// The first `n` names of `nexts`, separated by `", "`.
pub open spec fn names_text(nexts: [Mino; 5], n: int) -> Seq<u8>
    decreases n,
{
    if n <= 0 {
        Seq::empty()
    } else if n == 1 {
        mino_name(nexts@[0])
    } else {
        names_text(nexts, n - 1) + seq![44u8, 32u8] + mino_name(nexts@[n - 1])
    }
}

/// The upcoming pieces as `Debug` writes the array, then a newline.
pub open spec fn nexts_text(nexts: [Mino; 5]) -> Seq<u8> {
    seq![91u8] + names_text(nexts, 5) + seq![93u8, 10u8]
}

/// The whole board as text: the field row by row, then the upcoming pieces.
pub open spec fn board_text(board: BoardState) -> Seq<u8> {
    rows_text(board.field, CELL_HEIGHT as int) + nexts_text(board.nexts)
}

fn push_mino_name(out: &mut Vec<u8>, m: Mino)
    ensures
        final(out)@ == old(out)@ + mino_name(m),
{
    match m {
        Mino::S => out.push(83u8),
        Mino::Z => out.push(90u8),
        Mino::L => out.push(76u8),
        Mino::J => out.push(74u8),
        Mino::I => out.push(73u8),
        Mino::O => out.push(79u8),
        Mino::T => out.push(84u8),
        Mino::UNKNOWN => {
            out.push(85u8);
            out.push(78u8);
            out.push(75u8);
            out.push(78u8);
            out.push(79u8);
            out.push(87u8);
            out.push(78u8);
        },
    }
    assert(final(out)@ =~= old(out)@ + mino_name(m));
}

/// The text that shows the field, one line per row (`o` a block, `.` an
/// empty cell, `?` an unread one), followed by the line that lists the
/// upcoming pieces.
pub fn print_field(board_state: &BoardState) -> (text: Vec<u8>)
    ensures
        text@ == board_text(*board_state),
{
    let mut out: Vec<u8> = Vec::new();
    let mut y: usize = 0;
    while y < CELL_HEIGHT
        invariant
            y <= CELL_HEIGHT,
            out@ == rows_text(board_state.field, y as int),
        decreases CELL_HEIGHT - y,
    {
        let ghost before = out@;
        let mut x: usize = 0;
        while x < CELL_WIDTH
            invariant
                y < CELL_HEIGHT,
                x <= CELL_WIDTH,
                out@ == before + Seq::new(x as nat, |k: int| cell_char(board_state.field@[k]@[y as int])),
            decreases CELL_WIDTH - x,
        {
            let c = match board_state.field[x][y] {
                CellState::EXIST => 111u8,
                CellState::NONE => 46u8,
                CellState::UNKNOWN => 63u8,
            };
            out.push(c);
            x = x + 1;
            assert(out@ =~= before + Seq::new(x as nat, |k: int| cell_char(board_state.field@[k]@[y as int])));
        }
        out.push(10u8);
        assert(out@ =~= rows_text(board_state.field, y + 1));
        y = y + 1;
    }
    out.push(91u8);
    let mut i: usize = 0;
    while i < 5
        invariant
            i <= 5,
            out@ == rows_text(board_state.field, CELL_HEIGHT as int) + seq![91u8] + names_text(
                board_state.nexts,
                i as int,
            ),
        decreases 5 - i,
    {
        if i > 0 {
            out.push(44u8);
            out.push(32u8);
        }
        push_mino_name(&mut out, board_state.nexts[i]);
        i = i + 1;
        assert(out@ =~= rows_text(board_state.field, CELL_HEIGHT as int) + seq![91u8] + names_text(
            board_state.nexts,
            i as int,
        ));
    }
    out.push(93u8);
    out.push(10u8);
    assert(out@ =~= board_text(*board_state));
    out
}


/// Each piece is written under its own variant name, as `Debug` writes it,
/// and no two pieces share a name.
pub proof fn law_mino_names_are_variant_names()
    ensures
        mino_name(Mino::S) == seq!['S' as u8],
        mino_name(Mino::Z) == seq!['Z' as u8],
        mino_name(Mino::L) == seq!['L' as u8],
        mino_name(Mino::J) == seq!['J' as u8],
        mino_name(Mino::I) == seq!['I' as u8],
        mino_name(Mino::O) == seq!['O' as u8],
        mino_name(Mino::T) == seq!['T' as u8],
        mino_name(Mino::UNKNOWN) == seq![
            'U' as u8,
            'N' as u8,
            'K' as u8,
            'N' as u8,
            'O' as u8,
            'W' as u8,
            'N' as u8,
        ],
        forall|a: Mino, b: Mino| a != b ==> mino_name(a) != mino_name(b),
{
    assert forall|a: Mino, b: Mino| a != b implies mino_name(a) != mino_name(b) by {
        if mino_name(a).len() == 1 && mino_name(b).len() == 1 {
            assert(mino_name(a)[0] != mino_name(b)[0]);
        }
    }
}

/// A cell is drawn as `o` when it holds a block, `.` when it is empty and
/// `?` when it is unread.
pub proof fn law_cell_chars()
    ensures
        cell_char(CellState::EXIST) == 'o' as u8,
        cell_char(CellState::NONE) == '.' as u8,
        cell_char(CellState::UNKNOWN) == '?' as u8,
{
}

/// The line of upcoming pieces is `[`, the five names in order separated by
/// `, `, then `]` and a newline.
pub proof fn law_nexts_line(nexts: [Mino; 5])
    ensures
        nexts_text(nexts) == seq!['[' as u8] + mino_name(nexts@[0]) + seq![',' as u8, ' ' as u8]
            + mino_name(nexts@[1]) + seq![',' as u8, ' ' as u8] + mino_name(nexts@[2]) + seq![
            ',' as u8,
            ' ' as u8,
        ] + mino_name(nexts@[3]) + seq![',' as u8, ' ' as u8] + mino_name(nexts@[4]) + seq![
            ']' as u8,
            '\n' as u8,
        ],
{
    reveal_with_fuel(names_text, 6);
    assert(nexts_text(nexts) =~= seq!['[' as u8] + mino_name(nexts@[0]) + seq![',' as u8, ' ' as u8]
        + mino_name(nexts@[1]) + seq![',' as u8, ' ' as u8] + mino_name(nexts@[2]) + seq![
        ',' as u8,
        ' ' as u8,
    ] + mino_name(nexts@[3]) + seq![',' as u8, ' ' as u8] + mino_name(nexts@[4]) + seq![
        ']' as u8,
        '\n' as u8,
    ]);
}

proof fn lemma_rows_text_layout(field: [[CellState; CELL_HEIGHT]; CELL_WIDTH], n: int)
    requires
        0 <= n,
    ensures
        rows_text(field, n).len() == 11 * n,
        forall|y: int, x: int|
            0 <= y < n && 0 <= x < CELL_WIDTH ==> #[trigger] rows_text(field, n)[11 * y + x]
                == cell_char(field@[x]@[y]),
        forall|y: int| 0 <= y < n ==> #[trigger] rows_text(field, n)[11 * y + 10] == 10u8,
    decreases n,
{
    if n > 0 {
        lemma_rows_text_layout(field, n - 1);
        let prev = rows_text(field, n - 1);
        let row = row_text(field, n - 1);
        assert(row.len() == 11);
        assert forall|y: int, x: int|
            0 <= y < n && 0 <= x < CELL_WIDTH implies #[trigger] rows_text(field, n)[11 * y + x]
                == cell_char(field@[x]@[y]) by {
            if y < n - 1 {
                assert(rows_text(field, n)[11 * y + x] == prev[11 * y + x]);
            } else {
                assert(rows_text(field, n)[11 * y + x] == row[x]);
            }
        }
        assert forall|y: int| 0 <= y < n implies #[trigger] rows_text(field, n)[11 * y + 10] == 10u8 by {
            if y < n - 1 {
                assert(rows_text(field, n)[11 * y + 10] == prev[11 * y + 10]);
            } else {
                assert(rows_text(field, n)[11 * y + 10] == row[10]);
            }
        }
    }
}

/// The board text starts with the field drawn row by row: character `x` of
/// line `y` shows cell `field[x][y]`, every line being ten characters and a
/// newline; the line of upcoming pieces follows the 20 rows.
pub proof fn law_board_text_layout(board: BoardState)
    ensures
        board_text(board).len() == 11 * CELL_HEIGHT + nexts_text(board.nexts).len(),
        forall|y: int, x: int|
            0 <= y < CELL_HEIGHT && 0 <= x < CELL_WIDTH ==> #[trigger] board_text(board)[11 * y + x]
                == cell_char(board.field@[x]@[y]),
        forall|y: int| 0 <= y < CELL_HEIGHT ==> #[trigger] board_text(board)[11 * y + 10] == '\n' as u8,
        board_text(board).subrange(11 * CELL_HEIGHT as int, board_text(board).len() as int)
            == nexts_text(board.nexts),
{
    lemma_rows_text_layout(board.field, CELL_HEIGHT as int);
    let r = rows_text(board.field, CELL_HEIGHT as int);
    assert forall|y: int, x: int|
        0 <= y < CELL_HEIGHT && 0 <= x < CELL_WIDTH implies #[trigger] board_text(board)[11 * y + x]
            == cell_char(board.field@[x]@[y]) by {
        assert(board_text(board)[11 * y + x] == r[11 * y + x]);
    }
    assert forall|y: int| 0 <= y < CELL_HEIGHT implies #[trigger] board_text(board)[11 * y + 10] == '\n' as u8 by {
        assert(board_text(board)[11 * y + 10] == r[11 * y + 10]);
    }
    assert(board_text(board).subrange(11 * CELL_HEIGHT as int, board_text(board).len() as int)
        =~= nexts_text(board.nexts));
}

} // verus!

use tetris_board::checker::{check_nexts_valid, is_in_game};
use tetris_board::display::print_field;
use tetris_board::image::{absdiff, cut_rect, filter_color, mean_vec, Image, Pixel, RectPosition};
use tetris_board::key::{input_key, key_test, move_drop, move_left, move_right, Key, KeyAction};
use tetris_board::screen::{estimate_block, get_board_state, get_field_state, BoardState};
use tetris_board::values::{mino_hsv_table, CellState, Mino, CELL_HEIGHT, CELL_WIDTH};

fn px(c0: u8, c1: u8, c2: u8) -> Pixel {
    Pixel { c0, c1, c2 }
}

/// A picture whose pixel (x, y) is (x, y, x + 10 * y).
fn numbered(width: usize, height: usize) -> Image {
    let mut pixels = Vec::new();
    for y in 0..height {
        for x in 0..width {
            pixels.push(px(x as u8, y as u8, (x + 10 * y) as u8));
        }
    }
    Image { width, height, pixels }
}

/// A picture whose value channel comes from `v(x, y)`.
fn value_picture(width: usize, height: usize, v: impl Fn(usize, usize) -> u8) -> Image {
    let mut pixels = Vec::new();
    for y in 0..height {
        for x in 0..width {
            pixels.push(px(7, 9, v(x, y)));
        }
    }
    Image { width, height, pixels }
}

fn empty_board() -> BoardState {
    BoardState { field: [[CellState::NONE; CELL_HEIGHT]; CELL_WIDTH], nexts: [Mino::S; 5] }
}

#[test]
fn nexts_all_recognised_is_valid() {
    assert!(check_nexts_valid([Mino::S, Mino::Z, Mino::L, Mino::J, Mino::I]));
    assert!(check_nexts_valid([Mino::O, Mino::T, Mino::O, Mino::T, Mino::O]));
}

#[test]
fn an_unknown_next_is_invalid() {
    assert!(!check_nexts_valid([Mino::S, Mino::Z, Mino::UNKNOWN, Mino::J, Mino::I]));
    assert!(!check_nexts_valid([Mino::UNKNOWN; 5]));
    assert!(!check_nexts_valid([Mino::S, Mino::S, Mino::S, Mino::S, Mino::UNKNOWN]));
}

#[test]
fn in_game_follows_the_nexts() {
    let mut board = empty_board();
    assert!(is_in_game(&board));
    board.nexts[4] = Mino::UNKNOWN;
    assert!(!is_in_game(&board));
}

#[test]
fn cut_rect_copies_the_rectangle() {
    let img = numbered(4, 3);
    let pos = RectPosition { lower_x: 1, upper_x: 3, lower_y: 1, upper_y: 3 };
    let out = cut_rect(&img, &pos);
    assert_eq!(out.width, 2);
    assert_eq!(out.height, 2);
    assert_eq!(out.pixels, vec![px(1, 1, 11), px(2, 1, 12), px(1, 2, 21), px(2, 2, 22)]);
}

#[test]
fn cut_rect_of_whole_and_empty_rectangles() {
    let img = numbered(3, 2);
    let whole = cut_rect(&img, &RectPosition { lower_x: 0, upper_x: 3, lower_y: 0, upper_y: 2 });
    assert_eq!(whole, img);
    let empty = cut_rect(&img, &RectPosition { lower_x: 2, upper_x: 2, lower_y: 0, upper_y: 2 });
    assert_eq!(empty.width, 0);
    assert_eq!(empty.height, 2);
    assert!(empty.pixels.is_empty());
}

#[test]
fn cut_of_cut_is_a_shifted_cut() {
    let img = numbered(6, 5);
    let outer = cut_rect(&img, &RectPosition { lower_x: 1, upper_x: 5, lower_y: 1, upper_y: 5 });
    let twice = cut_rect(&outer, &RectPosition { lower_x: 1, upper_x: 3, lower_y: 2, upper_y: 4 });
    let once = cut_rect(&img, &RectPosition { lower_x: 2, upper_x: 4, lower_y: 3, upper_y: 5 });
    assert_eq!(twice, once);
}

#[test]
fn mean_vec_takes_integer_means() {
    assert_eq!(mean_vec(&[px(10, 20, 30), px(20, 40, 61)]), (15, 30, 45));
    assert_eq!(mean_vec(&[px(255, 0, 1)]), (255, 0, 1));
    assert_eq!(mean_vec(&[px(1, 2, 3), px(2, 2, 3), px(2, 2, 4)]), (1, 2, 3));
}

#[test]
fn absdiff_is_per_channel() {
    let a = Image { width: 2, height: 1, pixels: vec![px(10, 200, 5), px(0, 255, 30)] };
    let b = Image { width: 2, height: 1, pixels: vec![px(20, 100, 5), px(255, 0, 29)] };
    let d = absdiff(&a, &b);
    assert_eq!(d.width, 2);
    assert_eq!(d.height, 1);
    assert_eq!(d.pixels, vec![px(10, 100, 0), px(255, 255, 1)]);
    assert_eq!(absdiff(&b, &a), d);
    let same = absdiff(&a, &a);
    assert_eq!(same.pixels, vec![px(0, 0, 0), px(0, 0, 0)]);
}

#[test]
fn filter_color_keeps_the_box() {
    let img = Image {
        width: 5,
        height: 1,
        pixels: vec![px(150, 50, 50), px(99, 0, 0), px(150, 101, 0), px(100, 100, 100), px(255, 0, 101)],
    };
    let out = filter_color(img.clone());
    assert_eq!(out.width, 5);
    assert_eq!(out.height, 1);
    assert_eq!(
        out.pixels,
        vec![px(150, 50, 50), px(0, 0, 0), px(0, 0, 0), px(100, 100, 100), px(0, 0, 0)]
    );
    assert_eq!(filter_color(out.clone()), out);
}

#[test]
fn field_of_one_pixel_cells() {
    let img = value_picture(10, 20, |x, y| if x == y { 100 } else if x + 1 == y { 99 } else { 0 });
    let field = get_field_state(&img, (1, 1));
    for x in 0..CELL_WIDTH {
        for y in 0..CELL_HEIGHT {
            let want = if x == y { CellState::EXIST } else { CellState::NONE };
            assert_eq!(field[x][y], want, "cell {} {}", x, y);
        }
    }
}

#[test]
fn field_uses_the_mean_value_of_a_cell() {
    // Cells of 2 x 2 pixels; picture of 21 x 41 pixels (the extra column and
    // row lie outside every cell).
    let img = value_picture(21, 41, |x, y| match (x / 2, y / 2) {
        (0, 0) => [100, 100, 99, 99][(x % 2) + 2 * (y % 2)],
        (1, 0) => [100, 100, 100, 99][(x % 2) + 2 * (y % 2)],
        (2, 0) => [101, 101, 99, 99][(x % 2) + 2 * (y % 2)],
        (9, 19) => 255,
        _ => if x == 20 || y == 40 { 255 } else { 3 },
    });
    let field = get_field_state(&img, (2, 2));
    assert_eq!(field[0][0], CellState::NONE);
    assert_eq!(field[1][0], CellState::NONE);
    assert_eq!(field[2][0], CellState::EXIST);
    assert_eq!(field[9][19], CellState::EXIST);
    assert_eq!(field[3][0], CellState::NONE);
    assert_eq!(field[0][19], CellState::NONE);
}

#[test]
fn dark_difference_gives_an_empty_field() {
    let img = value_picture(30, 40, |x, y| ((x * 7 + y * 3) % 100) as u8);
    let field = get_field_state(&img, (3, 2));
    assert_eq!(field, [[CellState::NONE; CELL_HEIGHT]; CELL_WIDTH]);
}

#[test]
fn reference_table_is_in_order() {
    let t = mino_hsv_table();
    let kinds: Vec<Mino> = t.iter().map(|m| m.kind).collect();
    assert_eq!(kinds, vec![Mino::S, Mino::Z, Mino::L, Mino::J, Mino::I, Mino::T, Mino::O]);
    assert_eq!((t[0].h, t[0].s, t[0].v), (100, 190, 180));
    assert_eq!((t[5].h, t[5].s, t[5].v), (290, 175, 150));
}

#[test]
fn estimate_block_finds_each_piece() {
    // Hue is given on the 0..180 scale and doubled.
    assert_eq!(estimate_block(&[50, 190, 180, 0, 0, 0, 0, 0, 0]), Mino::S);
    assert_eq!(estimate_block(&[0, 220, 130, 0, 0, 0, 0, 0, 0]), Mino::Z);
    assert_eq!(estimate_block(&[13, 250, 240, 0, 0, 0, 0, 0, 0]), Mino::L);
    assert_eq!(estimate_block(&[105, 250, 170, 0, 0, 0, 0, 0, 0]), Mino::J);
    assert_eq!(estimate_block(&[98, 240, 200, 0, 0, 0, 0, 0, 0]), Mino::I);
    assert_eq!(estimate_block(&[145, 175, 150, 0, 0, 0, 0, 0, 0]), Mino::T);
    assert_eq!(estimate_block(&[22, 215, 200, 0, 0, 0, 0, 0, 0]), Mino::O);
}

#[test]
fn estimate_block_edges_of_the_tolerance() {
    // S: hue 90..=110, saturation 140..=240, value 130..=230.
    assert_eq!(estimate_block(&[45, 140, 230, 0, 0, 0, 0, 0, 0]), Mino::S);
    assert_eq!(estimate_block(&[55, 240, 130, 0, 0, 0, 0, 0, 0]), Mino::S);
    assert_eq!(estimate_block(&[44, 190, 180, 0, 0, 0, 0, 0, 0]), Mino::UNKNOWN);
    assert_eq!(estimate_block(&[50, 139, 180, 0, 0, 0, 0, 0, 0]), Mino::UNKNOWN);
    assert_eq!(estimate_block(&[50, 190, 231, 0, 0, 0, 0, 0, 0]), Mino::UNKNOWN);
}

#[test]
fn estimate_block_skips_dark_centres() {
    // A dark centre (value 100) that would match Z is skipped; the next one
    // is the S.
    assert_eq!(estimate_block(&[0, 220, 100, 50, 190, 180, 0, 0, 0]), Mino::S);
    assert_eq!(estimate_block(&[0, 220, 100, 0, 0, 0, 0, 0, 0]), Mino::UNKNOWN);
    assert_eq!(estimate_block(&[0, 0, 0, 0, 0, 0, 145, 175, 150]), Mino::T);
}

#[test]
fn estimate_block_prefers_earlier_centres_and_table_order() {
    assert_eq!(estimate_block(&[145, 175, 150, 50, 190, 180, 0, 0, 0]), Mino::T);
    // Hue 206, saturation 240, value 190 lies within both J and I: J comes
    // first in the table.
    assert_eq!(estimate_block(&[103, 240, 190, 0, 0, 0, 0, 0, 0]), Mino::J);
    // Extra values after the three centres are not read.
    assert_eq!(estimate_block(&[0, 0, 0, 0, 0, 0, 0, 0, 0, 50, 190, 180]), Mino::UNKNOWN);
}

#[test]
fn board_state_is_put_together() {
    let pos = RectPosition { lower_x: 5, upper_x: 25, lower_y: 7, upper_y: 47 };
    let img = value_picture(20, 40, |x, y| if x / 2 == 4 && y / 2 == 7 { 200 } else { 0 });
    let centers = [
        vec![50, 190, 180, 0, 0, 0, 0, 0, 0],
        vec![0, 220, 130, 0, 0, 0, 0, 0, 0],
        vec![0, 0, 0, 0, 0, 0, 0, 0, 0],
        vec![145, 175, 150, 0, 0, 0, 0, 0, 0],
        vec![22, 215, 200, 0, 0, 0, 0, 0, 0],
    ];
    let board = get_board_state(&pos, &img, &centers);
    assert_eq!(board.nexts, [Mino::S, Mino::Z, Mino::UNKNOWN, Mino::T, Mino::O]);
    for x in 0..CELL_WIDTH {
        for y in 0..CELL_HEIGHT {
            let want = if x == 4 && y == 7 { CellState::EXIST } else { CellState::NONE };
            assert_eq!(board.field[x][y], want);
        }
    }
    assert!(!is_in_game(&board));
}

#[test]
fn print_field_draws_rows_then_nexts() {
    let mut board = empty_board();
    board.field[0][0] = CellState::EXIST;
    board.field[9][0] = CellState::UNKNOWN;
    board.field[3][19] = CellState::EXIST;
    board.nexts = [Mino::S, Mino::UNKNOWN, Mino::T, Mino::I, Mino::O];
    let text = String::from_utf8(print_field(&board)).unwrap();
    let lines: Vec<&str> = text.lines().collect();
    assert_eq!(lines.len(), 21);
    assert_eq!(lines[0], "o........?");
    assert_eq!(lines[1], "..........");
    assert_eq!(lines[19], "...o......");
    assert_eq!(lines[20], "[S, UNKNOWN, T, I, O]");
    assert_eq!(lines[20], format!("{:?}", board.nexts));
    assert!(text.ends_with("]\n"));
    assert_eq!(text.len(), 20 * 11 + lines[20].len() + 1);
}

#[test]
fn input_key_is_down_wait_up_wait() {
    assert_eq!(
        input_key(Key::Raw(7)),
        vec![
            KeyAction::Down(Key::Raw(7)),
            KeyAction::Wait(15),
            KeyAction::Up(Key::Raw(7)),
            KeyAction::Wait(15)
        ]
    );
}

fn pressed_keys(actions: &[KeyAction]) -> Vec<Key> {
    assert_eq!(actions.len() % 4, 0);
    actions
        .chunks(4)
        .map(|c| match c {
            [KeyAction::Down(a), KeyAction::Wait(15), KeyAction::Up(b), KeyAction::Wait(15)] if a == b => *a,
            _ => panic!("not a key press: {:?}", c),
        })
        .collect()
}

#[test]
fn key_plans_press_the_right_keys() {
    assert_eq!(pressed_keys(&move_drop()), vec![Key::Space]);
    assert_eq!(pressed_keys(&key_test()), vec![Key::LeftArrow, Key::Raw(0x5A), Key::Space]);
    let mut right = vec![Key::RightArrow; 5];
    right.push(Key::Space);
    assert_eq!(pressed_keys(&move_right()), right);
    let mut left = vec![Key::LeftArrow; 5];
    left.push(Key::Space);
    assert_eq!(pressed_keys(&move_left()), left);
    assert_eq!(move_right().len(), 24);
}

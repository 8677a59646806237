use vstd::prelude::*;
use crate::image::{
    channel, channel_mean, channel_sum, cut_rect, lemma_channel_sum_between, lemma_position_in_buffer,
    lemma_split_index, mean_vec, region, sums_fit_u32, Image, Pixel, RectPosition,
};
use crate::values::{
    mino_hsv_list, mino_hsv_table, CellState, Mino, MinoHSV, ALLOW_H_GAP, ALLOW_S_GAP, ALLOW_V_GAP,
    CELL_HEIGHT, CELL_WIDTH,
};

verus! {

/// `max(gap, center) - gap`: the lowest value within `gap` of `center`,
/// clamped at zero.
pub open spec fn gap_lower(center: u16, gap: u16) -> int {
    if gap >= center {
        0
    } else {
        center - gap
    }
}

/// The colour (`h`, `s`, `v`) lies within the allowed distance of the
/// reference colour `m` in every component.
pub open spec fn matches_reference(h: int, s: int, v: int, m: MinoHSV) -> bool {
    &&& gap_lower(m.h, ALLOW_H_GAP) <= h <= m.h + ALLOW_H_GAP
    &&& gap_lower(m.s, ALLOW_S_GAP) <= s <= m.s + ALLOW_S_GAP
    &&& gap_lower(m.v, ALLOW_V_GAP) <= v <= m.v + ALLOW_V_GAP
}

/// The kind of the first reference colour, from index `j` on, that the
/// colour matches.
pub open spec fn first_match(h: int, s: int, v: int, j: int) -> Option<Mino>
    decreases 7 - j,
{
    if j < 0 || j >= 7 {
        None
    } else if matches_reference(h, s, v, mino_hsv_list()[j]) {
        Some(mino_hsv_list()[j].kind)
    } else {
        first_match(h, s, v, j + 1)
    }
}

/// Hue of cluster centre `i`, scaled from OpenCV's 0..180 to 0..360.
pub open spec fn center_h(cands: Seq<u16>, i: int) -> int {
    cands[3 * i] * 2
}

/// Saturation of cluster centre `i`.
pub open spec fn center_s(cands: Seq<u16>, i: int) -> int {
    cands[3 * i + 1] as int
}

/// Value (brightness) of cluster centre `i`.
pub open spec fn center_v(cands: Seq<u16>, i: int) -> int {
    cands[3 * i + 2] as int
}

/// The cluster centre is bright enough to be a piece rather than background.
pub open spec fn is_bright(cands: Seq<u16>, i: int) -> bool {
    center_v(cands, i) > 100
}

/// What cluster centre `i` says: the matched piece if it is bright and
/// matches a reference colour, nothing otherwise.
pub open spec fn center_decision(cands: Seq<u16>, i: int) -> Option<Mino> {
    if is_bright(cands, i) {
        first_match(center_h(cands, i), center_s(cands, i), center_v(cands, i), 0)
    } else {
        None
    }
}

/// The piece named by the first cluster centre, from `i` on, that names one.
pub open spec fn classify_from(cands: Seq<u16>, i: int) -> Mino
    decreases 3 - i,
{
    if i < 0 || i >= 3 {
        Mino::UNKNOWN
    } else {
        match center_decision(cands, i) {
            Some(m) => m,
            None => classify_from(cands, i + 1),
        }
    }
}

/// The piece that the three cluster centres `cands` (h, s, v, h, s, v, ...)
/// show.
pub open spec fn classify_centers(cands: Seq<u16>) -> Mino {
    classify_from(cands, 0)
}

/// The scan reaches cluster centre `i`: no earlier centre decided.
pub open spec fn reaches_center(cands: Seq<u16>, i: int) -> bool {
    forall|k: int| 0 <= k < i ==> #[trigger] center_decision(cands, k) is None
}

/// `estimate_block` can read `cands` without running past its end and
/// without overflow in the hue scaling of any centre it reaches.
pub open spec fn centers_readable(cands: Seq<u16>) -> bool {
    &&& cands.len() >= 9
    &&& forall|i: int|
        0 <= i < 3 && #[trigger] reaches_center(cands, i) ==> cands[3 * i] * 2 <= u16::MAX
}

/// Some bright centre matches the reference colour of `m`.
pub open spec fn some_center_shows(cands: Seq<u16>, m: Mino) -> bool {
    exists|i: int, j: int|
        0 <= i < 3 && 0 <= j < 7 && is_bright(cands, i) && mino_hsv_list()[j].kind == m
            && #[trigger] matches_reference(
            center_h(cands, i),
            center_s(cands, i),
            center_v(cands, i),
            mino_hsv_list()[j],
        )
}

/// No bright centre matches any reference colour.
pub open spec fn no_center_matches(cands: Seq<u16>) -> bool {
    forall|i: int, j: int|
        0 <= i < 3 && 0 <= j < 7 && is_bright(cands, i) ==> !#[trigger] matches_reference(
            center_h(cands, i),
            center_s(cands, i),
            center_v(cands, i),
            mino_hsv_list()[j],
        )
}

proof fn lemma_first_match(h: int, s: int, v: int, j: int)
    requires
        0 <= j <= 7,
    ensures
        first_match(h, s, v, j) is None <==> forall|k: int|
            j <= k < 7 ==> !#[trigger] matches_reference(h, s, v, mino_hsv_list()[k]),
        first_match(h, s, v, j) matches Some(m) ==> exists|k: int|
            j <= k < 7 && mino_hsv_list()[k].kind == m && #[trigger] matches_reference(
                h,
                s,
                v,
                mino_hsv_list()[k],
            ),
        first_match(h, s, v, j) != Some(Mino::UNKNOWN),
    decreases 7 - j,
{
    if j < 7 {
        lemma_first_match(h, s, v, j + 1);
        if matches_reference(h, s, v, mino_hsv_list()[j]) {
            assert(mino_hsv_list()[j].kind != Mino::UNKNOWN);
        }
    }
}

proof fn lemma_classify_from(cands: Seq<u16>, i: int)
    requires
        0 <= i <= 3,
        cands.len() >= 9,
    ensures
        classify_from(cands, i) != Mino::UNKNOWN ==> exists|i2: int, j: int|
            i <= i2 < 3 && 0 <= j < 7 && is_bright(cands, i2) && mino_hsv_list()[j].kind
                == classify_from(cands, i) && #[trigger] matches_reference(
                center_h(cands, i2),
                center_s(cands, i2),
                center_v(cands, i2),
                mino_hsv_list()[j],
            ),
        classify_from(cands, i) == Mino::UNKNOWN <==> forall|i2: int, j: int|
            i <= i2 < 3 && 0 <= j < 7 && is_bright(cands, i2) ==> !#[trigger] matches_reference(
                center_h(cands, i2),
                center_s(cands, i2),
                center_v(cands, i2),
                mino_hsv_list()[j],
            ),
    decreases 3 - i,
{
    if i < 3 {
        lemma_classify_from(cands, i + 1);
        lemma_first_match(center_h(cands, i), center_s(cands, i), center_v(cands, i), 0);
    }
}

/// Tells which piece a small picture shows from the three centres of its
/// colour clusters, given as `(h, s, v)` triples laid end to end with the
/// hue on OpenCV's 0..180 scale: the first bright centre (value above 100)
/// that lies within the allowed distance of a reference colour names the
/// piece, the reference colours tried in table order; `UNKNOWN` when there
/// is none.
pub fn estimate_block(cands_serial: &[u16]) -> (kind: Mino)
    requires
        centers_readable(cands_serial@),
    ensures
        kind == classify_centers(cands_serial@),
        kind != Mino::UNKNOWN ==> some_center_shows(cands_serial@, kind),
        kind == Mino::UNKNOWN <==> no_center_matches(cands_serial@),
{
    proof {
        lemma_classify_from(cands_serial@, 0);
    }
    let table = mino_hsv_table();
    let mut i: usize = 0;
    while i < 3
        invariant
            i <= 3,
            centers_readable(cands_serial@),
            table@ == mino_hsv_list(),
            reaches_center(cands_serial@, i as int),
            classify_centers(cands_serial@) == classify_from(cands_serial@, i as int),
        decreases 3 - i,
    {
        let first = i * 3;
        assert(reaches_center(cands_serial@, i as int));
        let h: u16 = cands_serial[first] * 2;
        let s: u16 = cands_serial[first + 1];
        let v: u16 = cands_serial[first + 2];
        if v > 100 {
            let mut j: usize = 0;
            while j < 7
                invariant
                    i < 3,
                    first == 3 * i,
                    centers_readable(cands_serial@),
                    v > 100,
                    classify_centers(cands_serial@) == classify_from(cands_serial@, i as int),
                    j <= 7,
                    table@ == mino_hsv_list(),
                    h == center_h(cands_serial@, i as int),
                    s == center_s(cands_serial@, i as int),
                    v == center_v(cands_serial@, i as int),
                    first_match(h as int, s as int, v as int, 0) == first_match(
                        h as int,
                        s as int,
                        v as int,
                        j as int,
                    ),
                decreases 7 - j,
            {
                let m = table[j];
                let h_low = if ALLOW_H_GAP >= m.h {
                    0
                } else {
                    m.h - ALLOW_H_GAP
                };
                let s_low = if ALLOW_S_GAP >= m.s {
                    0
                } else {
                    m.s - ALLOW_S_GAP
                };
                let v_low = if ALLOW_V_GAP >= m.v {
                    0
                } else {
                    m.v - ALLOW_V_GAP
                };
                if h >= h_low && h <= m.h + ALLOW_H_GAP {
                    if s >= s_low && s <= m.s + ALLOW_S_GAP {
                        if v >= v_low && v <= m.v + ALLOW_V_GAP {
                            proof {
                                lemma_classify_from(cands_serial@, 0);
                            }
                            return m.kind;
                        }
                    }
                }
                j = j + 1;
            }
        }
        i = i + 1;
    }
    Mino::UNKNOWN
}


/// The board: the cells of the field, column by column (`field[x][y]`,
/// `y` counting down from the top), and the five upcoming pieces.
pub struct BoardState {
    pub field: [[CellState; CELL_HEIGHT]; CELL_WIDTH],
    pub nexts: [Mino; 5],
}

/// The pixels of cell (`x`, `y`) of a field cut into `cw` x `ch` cells.
pub open spec fn cell_pixels(img: Image, x: int, y: int, cw: int, ch: int) -> Seq<Pixel> {
    region(img, x * cw, y * ch, cw, ch)
}

/// A cell holds a block when the mean value (brightness) of its pixels in the
/// HSV difference picture is at least 100.
pub open spec fn cell_state(img: Image, x: int, y: int, cw: int, ch: int) -> CellState {
    if channel_mean(cell_pixels(img, x, y, cw, ch), 2) >= 100 {
        CellState::EXIST
    } else {
        CellState::NONE
    }
}

/// The 10 x 20 grid of `cw` x `ch` cells lies inside the picture, no cell is
/// empty, and the pixel count of a cell fits in a `u32`.
pub open spec fn field_geometry_ok(img: Image, cw: int, ch: int) -> bool {
    &&& img.wf()
    &&& 0 < cw
    &&& 0 < ch
    &&& cw * CELL_WIDTH <= img.width
    &&& ch * CELL_HEIGHT <= img.height
    &&& cw * ch <= u32::MAX
}

/// The channel sums of every cell fit in a `u32`.
pub open spec fn cells_fit(img: Image, cw: int, ch: int) -> bool {
    forall|x: int, y: int|
        0 <= x < CELL_WIDTH && 0 <= y < CELL_HEIGHT ==> sums_fit_u32(
            #[trigger] cell_pixels(img, x, y, cw, ch),
        )
}

/// The field read cell by cell from the HSV difference picture.
pub open spec fn is_field_of(
    field: [[CellState; CELL_HEIGHT]; CELL_WIDTH],
    img: Image,
    cw: int,
    ch: int,
) -> bool {
    forall|x: int, y: int|
        0 <= x < CELL_WIDTH && 0 <= y < CELL_HEIGHT ==> #[trigger] field@[x]@[y] == cell_state(
            img,
            x,
            y,
            cw,
            ch,
        )
}

proof fn lemma_cell_inside(x: int, y: int, cw: int, ch: int, width: int, height: int)
    requires
        0 <= x < CELL_WIDTH,
        0 <= y < CELL_HEIGHT,
        0 < cw,
        0 < ch,
        cw * CELL_WIDTH <= width,
        ch * CELL_HEIGHT <= height,
    ensures
        0 <= x * cw,
        x * cw + cw <= width,
        0 <= y * ch,
        y * ch + ch <= height,
{
    assert(0 <= x * cw && x * cw + cw <= cw * 10) by (nonlinear_arith)
        requires
            0 <= x < 10,
            0 < cw,
    ;
    assert(0 <= y * ch && y * ch + ch <= ch * 20) by (nonlinear_arith)
        requires
            0 <= y < 20,
            0 < ch,
    ;
}

/// Reads the field out of the HSV picture of the difference between the
/// captured field and the empty reference field: each of the 10 x 20 cells
/// of size `cell_size` holds a block exactly when the mean value channel of
/// its pixels is at least 100.
pub fn get_field_state(diff_hsv: &Image, cell_size: (usize, usize)) -> (field: [[CellState;
    CELL_HEIGHT]; CELL_WIDTH])
    requires
        field_geometry_ok(*diff_hsv, cell_size.0 as int, cell_size.1 as int),
        cells_fit(*diff_hsv, cell_size.0 as int, cell_size.1 as int),
    ensures
        is_field_of(field, *diff_hsv, cell_size.0 as int, cell_size.1 as int),
{
    let cw = cell_size.0;
    let ch = cell_size.1;
    let mut field = [[CellState::UNKNOWN; CELL_HEIGHT]; CELL_WIDTH];
    let mut x: usize = 0;
    while x < CELL_WIDTH
        invariant
            field_geometry_ok(*diff_hsv, cw as int, ch as int),
            cells_fit(*diff_hsv, cw as int, ch as int),
            x <= CELL_WIDTH,
            forall|x2: int, y: int|
                0 <= x2 < x && 0 <= y < CELL_HEIGHT ==> #[trigger] field@[x2]@[y] == cell_state(
                    *diff_hsv,
                    x2,
                    y,
                    cw as int,
                    ch as int,
                ),
        decreases CELL_WIDTH - x,
    {
        let mut col = [CellState::UNKNOWN; CELL_HEIGHT];
        let mut y: usize = 0;
        while y < CELL_HEIGHT
            invariant
                field_geometry_ok(*diff_hsv, cw as int, ch as int),
                cells_fit(*diff_hsv, cw as int, ch as int),
                x < CELL_WIDTH,
                y <= CELL_HEIGHT,
                forall|y2: int|
                    0 <= y2 < y ==> #[trigger] col@[y2] == cell_state(
                        *diff_hsv,
                        x as int,
                        y2,
                        cw as int,
                        ch as int,
                    ),
            decreases CELL_HEIGHT - y,
        {
            proof {
                lemma_cell_inside(
                    x as int,
                    y as int,
                    cw as int,
                    ch as int,
                    diff_hsv.width as int,
                    diff_hsv.height as int,
                );
            }
            let pos = RectPosition {
                lower_x: x * cw,
                upper_x: x * cw + cw,
                lower_y: y * ch,
                upper_y: y * ch + ch,
            };
            let cell = cut_rect(diff_hsv, &pos);
            proof {
                assert(cell.pixels@ == cell_pixels(*diff_hsv, x as int, y as int, cw as int, ch as int));
                assert(sums_fit_u32(cell_pixels(*diff_hsv, x as int, y as int, cw as int, ch as int)));
                assert(cell.pixels@.len() == cw * ch);
                assert(cw * ch > 0) by (nonlinear_arith)
                    requires
                        cw > 0,
                        ch > 0,
                ;
            }
            let mean = mean_vec(cell.pixels.as_slice());
            if mean.2 >= 100 {
                col[y] = CellState::EXIST;
            } else {
                col[y] = CellState::NONE;
            }
            y = y + 1;
        }
        field[x] = col;
        x = x + 1;
    }
    field
}


/// The size of one cell when the rectangle `pos` is cut into 10 x 20 cells.
pub open spec fn field_cell_size(pos: RectPosition) -> (int, int) {
    ((pos.upper_x - pos.lower_x) / (CELL_WIDTH as int), (pos.upper_y - pos.lower_y) / (CELL_HEIGHT as int))
}

/// Puts the board together: `field_diff_hsv` is the HSV picture of the
/// difference between the captured and the empty field, both cut to
/// `field_pos`; `next_centers[i]` holds the colour cluster centres of the
/// picture of the `i`-th upcoming piece.
pub fn get_board_state(
    field_pos: &RectPosition,
    field_diff_hsv: &Image,
    next_centers: &[Vec<u16>; 5],
) -> (board: BoardState)
    requires
        field_pos.lower_x <= field_pos.upper_x,
        field_pos.lower_y <= field_pos.upper_y,
        field_diff_hsv.width == field_pos.upper_x - field_pos.lower_x,
        field_diff_hsv.height == field_pos.upper_y - field_pos.lower_y,
        field_geometry_ok(*field_diff_hsv, field_cell_size(*field_pos).0, field_cell_size(*field_pos).1),
        cells_fit(*field_diff_hsv, field_cell_size(*field_pos).0, field_cell_size(*field_pos).1),
        forall|i: int| 0 <= i < 5 ==> centers_readable(#[trigger] next_centers@[i]@),
    ensures
        is_field_of(
            board.field,
            *field_diff_hsv,
            field_cell_size(*field_pos).0,
            field_cell_size(*field_pos).1,
        ),
        forall|i: int|
            0 <= i < 5 ==> #[trigger] board.nexts@[i] == classify_centers(next_centers@[i]@),
{
    let width = field_pos.upper_x - field_pos.lower_x;
    let height = field_pos.upper_y - field_pos.lower_y;
    let cell_size = (width / CELL_WIDTH, height / CELL_HEIGHT);
    let field = get_field_state(field_diff_hsv, cell_size);
    let mut nexts = [Mino::UNKNOWN; 5];
    let mut i: usize = 0;
    while i < 5
        invariant
            i <= 5,
            forall|k: int| 0 <= k < 5 ==> centers_readable(#[trigger] next_centers@[k]@),
            forall|k: int|
                0 <= k < i ==> #[trigger] nexts@[k] == classify_centers(next_centers@[k]@),
        decreases 5 - i,
    {
        let cands = &next_centers[i];
        assert(centers_readable(next_centers@[i as int]@));
        nexts[i] = estimate_block(cands.as_slice());
        i = i + 1;
    }
    BoardState { field, nexts }
}


/// A cell all of whose pixels have value (brightness) below 100 in the
/// difference picture is read as empty.
pub proof fn law_dark_cell_is_empty(img: Image, cw: int, ch: int, x: int, y: int)
    requires
        field_geometry_ok(img, cw, ch),
        0 <= x < CELL_WIDTH,
        0 <= y < CELL_HEIGHT,
        forall|i: int|
            0 <= i < cw * ch ==> #[trigger] channel(cell_pixels(img, x, y, cw, ch)[i], 2) < 100,
    ensures
        cell_state(img, x, y, cw, ch) == CellState::NONE,
{
    let s = cell_pixels(img, x, y, cw, ch);
    lemma_channel_sum_between(s, 2, 0, 99);
    let n = s.len() as int;
    let total = channel_sum(s, 2);
    assert(n > 0) by (nonlinear_arith)
        requires
            n == cw * ch,
            cw > 0,
            ch > 0,
    ;
    assert(total / n < 100) by (nonlinear_arith)
        requires
            0 <= total <= 99 * n,
            n > 0,
    ;
}

/// A cell all of whose pixels have value (brightness) of at least 100 in
/// the difference picture is read as holding a block.
pub proof fn law_bright_cell_is_block(img: Image, cw: int, ch: int, x: int, y: int)
    requires
        field_geometry_ok(img, cw, ch),
        0 <= x < CELL_WIDTH,
        0 <= y < CELL_HEIGHT,
        forall|i: int|
            0 <= i < cw * ch ==> #[trigger] channel(cell_pixels(img, x, y, cw, ch)[i], 2) >= 100,
    ensures
        cell_state(img, x, y, cw, ch) == CellState::EXIST,
{
    let s = cell_pixels(img, x, y, cw, ch);
    lemma_channel_sum_between(s, 2, 100, 255);
    let n = s.len() as int;
    let total = channel_sum(s, 2);
    assert(n > 0) by (nonlinear_arith)
        requires
            n == cw * ch,
            cw > 0,
            ch > 0,
    ;
    assert(total / n >= 100) by (nonlinear_arith)
        requires
            100 * n <= total,
            n > 0,
    ;
}

/// When the whole difference picture is dark (value below 100 everywhere),
/// as it is when the captured field equals the empty reference field, every
/// cell is read as empty.
pub proof fn law_dark_picture_gives_empty_field(img: Image, cw: int, ch: int)
    requires
        field_geometry_ok(img, cw, ch),
        forall|i: int| 0 <= i < img.pixels@.len() ==> #[trigger] img.pixels@[i].c2 < 100,
    ensures
        forall|x: int, y: int|
            0 <= x < CELL_WIDTH && 0 <= y < CELL_HEIGHT ==> #[trigger] cell_state(img, x, y, cw, ch)
                == CellState::NONE,
{
    assert forall|x: int, y: int| 0 <= x < CELL_WIDTH && 0 <= y < CELL_HEIGHT implies #[trigger] cell_state(
        img,
        x,
        y,
        cw,
        ch,
    ) == CellState::NONE by {
        lemma_cell_inside(x, y, cw, ch, img.width as int, img.height as int);
        assert forall|i: int| 0 <= i < cw * ch implies #[trigger] channel(
            cell_pixels(img, x, y, cw, ch)[i],
            2,
        ) < 100 by {
            lemma_split_index(i, cw, ch);
            let px = x * cw + i % cw;
            let py = y * ch + i / cw;
            lemma_position_in_buffer(px, py, img.width as int, img.height as int);
            assert(img.pixels@[py * img.width + px].c2 < 100);
        }
        law_dark_cell_is_empty(img, cw, ch, x, y);
    }
}


/// The field is cut into cells by dividing its width by 10 and its height by
/// 20, each rounded down, each from its own extent: ten cells fit across the
/// field and an eleventh would not, twenty fit down it and a twenty-first
/// would not.
pub proof fn law_field_cell_size(pos: RectPosition)
    requires
        pos.lower_x <= pos.upper_x,
        pos.lower_y <= pos.upper_y,
    ensures
        10 * field_cell_size(pos).0 <= pos.upper_x - pos.lower_x < 10 * (field_cell_size(pos).0 + 1),
        20 * field_cell_size(pos).1 <= pos.upper_y - pos.lower_y < 20 * (field_cell_size(pos).1 + 1),
{
}

/// A cell holds a block exactly when the value channel summed over all of
/// its pixels is at least 100 per pixel: only the integer mean over the
/// whole cell decides, no single pixel does.
pub proof fn law_cell_state_by_value_sum(img: Image, cw: int, ch: int, x: int, y: int)
    requires
        0 < cw,
        0 < ch,
    ensures
        cell_state(img, x, y, cw, ch) == CellState::EXIST <==> channel_sum(
            cell_pixels(img, x, y, cw, ch),
            2,
        ) >= 100 * cw * ch,
        cell_state(img, x, y, cw, ch) == CellState::EXIST || cell_state(img, x, y, cw, ch)
            == CellState::NONE,
{
    let s = cell_pixels(img, x, y, cw, ch);
    let n = s.len() as int;
    let total = channel_sum(s, 2);
    assert(n == cw * ch);
    assert(n > 0) by (nonlinear_arith)
        requires
            n == cw * ch,
            cw > 0,
            ch > 0,
    ;
    assert(100 * cw * ch == 100 * n) by (nonlinear_arith)
        requires
            n == cw * ch,
    ;
    assert((total / n >= 100) <==> (total >= 100 * n)) by (nonlinear_arith)
        requires
            n > 0,
    ;
}


/// A colour (with non-negative components) matches a reference colour
/// exactly when its hue lies within 10 of the reference hue and its
/// saturation and value each within 50 of the reference's, ends included.
pub proof fn law_match_tolerance(h: int, s: int, v: int, m: MinoHSV)
    requires
        0 <= h,
        0 <= s,
        0 <= v,
    ensures
        matches_reference(h, s, v, m) <==> (m.h - 10 <= h <= m.h + 10 && m.s - 50 <= s <= m.s + 50
            && m.v - 50 <= v <= m.v + 50),
{
}

/// The reference colours, in the order they are tried: S (100, 190, 180),
/// Z (0, 220, 130), L (25, 250, 240), J (210, 250, 170), I (200, 240, 200),
/// T (290, 175, 150), O (45, 215, 200).
pub proof fn law_reference_colours()
    ensures
        mino_hsv_list().len() == 7,
        mino_hsv_list()[0].kind == Mino::S && mino_hsv_list()[0].h == 100 && mino_hsv_list()[0].s == 190
            && mino_hsv_list()[0].v == 180,
        mino_hsv_list()[1].kind == Mino::Z && mino_hsv_list()[1].h == 0 && mino_hsv_list()[1].s == 220
            && mino_hsv_list()[1].v == 130,
        mino_hsv_list()[2].kind == Mino::L && mino_hsv_list()[2].h == 25 && mino_hsv_list()[2].s == 250
            && mino_hsv_list()[2].v == 240,
        mino_hsv_list()[3].kind == Mino::J && mino_hsv_list()[3].h == 210 && mino_hsv_list()[3].s == 250
            && mino_hsv_list()[3].v == 170,
        mino_hsv_list()[4].kind == Mino::I && mino_hsv_list()[4].h == 200 && mino_hsv_list()[4].s == 240
            && mino_hsv_list()[4].v == 200,
        mino_hsv_list()[5].kind == Mino::T && mino_hsv_list()[5].h == 290 && mino_hsv_list()[5].s == 175
            && mino_hsv_list()[5].v == 150,
        mino_hsv_list()[6].kind == Mino::O && mino_hsv_list()[6].h == 45 && mino_hsv_list()[6].s == 215
            && mino_hsv_list()[6].v == 200,
{
}

/// Centre `i` is the triple at positions `3i`, `3i + 1`, `3i + 2`, its hue
/// doubled; a centre whose value is at most 100 decides nothing, and a
/// brighter one names the first reference colour it matches.
pub proof fn law_center_reading(cands: Seq<u16>, i: int)
    requires
        0 <= i < 3,
        cands.len() >= 9,
    ensures
        center_h(cands, i) == 2 * cands[3 * i],
        center_s(cands, i) == cands[3 * i + 1],
        center_v(cands, i) == cands[3 * i + 2],
        cands[3 * i + 2] <= 100 ==> center_decision(cands, i) is None,
        cands[3 * i + 2] > 100 ==> center_decision(cands, i) == first_match(
            2 * cands[3 * i],
            cands[3 * i + 1] as int,
            cands[3 * i + 2] as int,
            0,
        ),
{
}

proof fn lemma_first_match_first(h: int, s: int, v: int, j: int)
    requires
        0 <= j <= 7,
    ensures
        forall|k: int|
            j <= k < 7 && matches_reference(h, s, v, mino_hsv_list()[k]) && (forall|l: int|
                j <= l < k ==> !#[trigger] matches_reference(h, s, v, mino_hsv_list()[l]))
                ==> first_match(h, s, v, j) == Some(#[trigger] mino_hsv_list()[k].kind),
    decreases 7 - j,
{
    if j < 7 {
        lemma_first_match_first(h, s, v, j + 1);
        assert forall|k: int|
            j <= k < 7 && matches_reference(h, s, v, mino_hsv_list()[k]) && (forall|l: int|
                j <= l < k ==> !#[trigger] matches_reference(h, s, v, mino_hsv_list()[l]))
                implies first_match(h, s, v, j) == Some(#[trigger] mino_hsv_list()[k].kind) by {
            if k > j {
                assert(!matches_reference(h, s, v, mino_hsv_list()[j]));
                assert forall|l: int| j + 1 <= l < k implies !#[trigger] matches_reference(
                    h,
                    s,
                    v,
                    mino_hsv_list()[l],
                ) by {}
            }
        }
    }
}

/// A colour is named after the first reference colour, in table order, that
/// it matches.
pub proof fn law_first_matching_reference_wins(h: int, s: int, v: int, k: int)
    requires
        0 <= k < 7,
        matches_reference(h, s, v, mino_hsv_list()[k]),
        forall|l: int| 0 <= l < k ==> !#[trigger] matches_reference(h, s, v, mino_hsv_list()[l]),
    ensures
        first_match(h, s, v, 0) == Some(mino_hsv_list()[k].kind),
{
    lemma_first_match_first(h, s, v, 0);
}

proof fn lemma_classify_first(cands: Seq<u16>, j: int)
    requires
        0 <= j <= 3,
    ensures
        forall|i: int|
            j <= i < 3 && (forall|k: int| j <= k < i ==> #[trigger] center_decision(cands, k) is None)
                ==> classify_from(cands, j) == classify_from(cands, i),
    decreases 3 - j,
{
    if j < 3 {
        lemma_classify_first(cands, j + 1);
        assert forall|i: int|
            j <= i < 3 && (forall|k: int| j <= k < i ==> #[trigger] center_decision(cands, k) is None)
                implies classify_from(cands, j) == classify_from(cands, i) by {
            if i > j {
                assert(center_decision(cands, j) is None);
                assert forall|k: int| j + 1 <= k < i implies #[trigger] center_decision(cands, k) is None by {}
            }
        }
    }
}

/// The piece is the one named by the first cluster centre that names any;
/// when no centre names one, the piece is `UNKNOWN`.
pub proof fn law_first_deciding_center_wins(cands: Seq<u16>, i: int)
    requires
        0 <= i < 3,
        forall|k: int| 0 <= k < i ==> #[trigger] center_decision(cands, k) is None,
    ensures
        center_decision(cands, i) matches Some(m) ==> classify_centers(cands) == m,
        (forall|k: int| 0 <= k < 3 ==> #[trigger] center_decision(cands, k) is None)
            ==> classify_centers(cands) == Mino::UNKNOWN,
{
    lemma_classify_first(cands, 0);
    assert(classify_from(cands, 0) == classify_from(cands, i));
    if forall|k: int| 0 <= k < 3 ==> #[trigger] center_decision(cands, k) is None {
        assert(center_decision(cands, 0) is None);
        assert(center_decision(cands, 1) is None);
        assert(classify_from(cands, 0) == classify_from(cands, 2));
        assert(center_decision(cands, 2) is None);
        assert(classify_from(cands, 3) == Mino::UNKNOWN);
    }
}

/// Cell (`x`, `y`) of size `cw` x `ch` is the block of pixels whose columns
/// are `x * cw .. x * cw + cw` and rows `y * ch .. y * ch + ch`, read row by
/// row.
pub proof fn law_cell_pixels_positions(img: Image, x: int, y: int, cw: int, ch: int)
    requires
        0 <= x,
        0 <= y,
        0 < cw,
        0 < ch,
    ensures
        cell_pixels(img, x, y, cw, ch).len() == cw * ch,
        forall|i: int, j: int|
            0 <= i < cw && 0 <= j < ch ==> #[trigger] cell_pixels(img, x, y, cw, ch)[j * cw + i]
                == img.pixels@[(y * ch + j) * img.width + (x * cw + i)],
{
    crate::image::law_region_positions(img, x * cw, y * ch, cw, ch);
}


/// A field read from a picture marks cell (`x`, `y`) as a block exactly when
/// the value channel summed over the pixels of that cell is at least 100
/// per pixel, and as empty otherwise; no cell is left unread.
pub proof fn law_field_reading(
    field: [[CellState; CELL_HEIGHT]; CELL_WIDTH],
    img: Image,
    cw: int,
    ch: int,
    x: int,
    y: int,
)
    requires
        is_field_of(field, img, cw, ch),
        0 < cw,
        0 < ch,
        0 <= x < 10,
        0 <= y < 20,
    ensures
        field@[x]@[y] == CellState::EXIST <==> channel_sum(cell_pixels(img, x, y, cw, ch), 2) >= 100
            * cw * ch,
        field@[x]@[y] != CellState::UNKNOWN,
{
    assert(field@[x]@[y] == cell_state(img, x, y, cw, ch));
    law_cell_state_by_value_sum(img, cw, ch, x, y);
}

} // verus!

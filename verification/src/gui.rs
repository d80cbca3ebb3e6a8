//! The screen layout of a level and the regions that a pointer position falls
//! into.
//!
//! The screen is the unit square. A layout is a list of regions, each a kind
//! and a rectangle; the order of the list is the order of drawing and of
//! hit-testing.

use vstd::prelude::*;
use crate::kmath::{
    lemma_quotient_between, ratio, ratio_spec, scale, scale_spec, whole, whole_spec, Point, Scalar,
    UNIT,
};
use crate::level::Tile;
use crate::rect::{can_fit, fits, lemma_child_fits, lemma_fitted_part_enclosed, Rect};

verus! {

/// What a region of the screen shows.
#[derive(Clone, Copy, Debug, PartialEq, Eq, Structural)]
pub enum GUIElement {
    /// The whole screen.
    Background,
    /// The strip on the left that holds the palette.
    Menu,
    /// The rest of the screen, right of the menu.
    Game,
    /// The board inside the game pane.
    GameBoard,
    /// The palette tile with this index.
    MenuTile(usize),
    /// The board cell with this row-major index.
    GameTile(usize),
    /// The frame around the slot of the selected palette tile.
    SelectionIndicator,
}

/// One entry of a layout.
pub type Region = (GUIElement, Rect);

/// The fraction of the screen's width that the menu pane takes.
pub const MENU_PANE_W: Scalar = 150_000;

/// The fraction of the screen's width that the game pane takes.
pub const GAME_PANE_W: Scalar = 850_000;

/// By how much the menu pane is dilated: it shrinks by 0.02 on every side.
pub const MENU_DILATION: Scalar = -20_000;

/// By how much the game pane is dilated before the board is fitted into it.
pub const BOARD_DILATION: Scalar = -110_000;

/// The fraction of the menu pane's height that one palette slot takes.
pub const MENU_TILE_SIZE: Scalar = 150_000;

/// By how much a palette slot is dilated before the tile is fitted into it.
pub const MENU_TILE_DILATION: Scalar = -2_000;

/// The whole screen: the unit square.
pub open spec fn screen_rect() -> Rect {
    Rect { x: 0, y: 0, w: UNIT, h: UNIT }
}

/// The menu pane: the strip on the left of the screen, shrunk on every side.
pub open spec fn menu_rect() -> Rect {
    screen_rect().child_spec(0, 0, MENU_PANE_W, UNIT).dilate_spec(MENU_DILATION)
}

/// The game pane: what is left of the screen to the right of the menu strip.
pub open spec fn game_rect() -> Rect {
    screen_rect().child_spec(MENU_PANE_W, 0, GAME_PANE_W, UNIT)
}

/// The width of a `w` by `h` board divided by its height, as it has to look
/// in the unit square of a screen that is `aspect_ratio` times as wide as
/// high.
pub open spec fn board_aspect(w: int, h: int, aspect_ratio: Scalar) -> int {
    ratio_spec(ratio_spec(whole_spec(w), whole_spec(h)), aspect_ratio as int)
}

/// The shrunk game pane, into which the board is fitted.
pub open spec fn board_frame() -> Rect {
    game_rect().dilate_spec(BOARD_DILATION)
}

/// The board: the largest centred part of the shrunk game pane that has the
/// shape of a `w` by `h` board.
pub open spec fn board_rect(w: int, h: int, aspect_ratio: Scalar) -> Rect {
    board_frame().child_with_aspect_ratio_spec(board_aspect(w, h, aspect_ratio) as i128)
}

/// The slot of palette tile `i`: the slots are stacked from the top of the
/// menu pane downwards.
pub open spec fn menu_slot(i: int) -> Rect {
    menu_rect().child_spec(
        0,
        scale_spec(whole_spec(i), MENU_TILE_SIZE as int) as i128,
        UNIT,
        MENU_TILE_SIZE,
    )
}

/// The width of a square divided by its height, as it has to look in the unit
/// square of the screen.
pub open spec fn square_aspect(aspect_ratio: Scalar) -> int {
    ratio_spec(UNIT as int, aspect_ratio as int)
}

/// Where palette tile `i` is drawn: a square inside its shrunk slot.
pub open spec fn menu_tile_rect(i: int, aspect_ratio: Scalar) -> Rect {
    menu_slot(i).dilate_spec(MENU_TILE_DILATION).child_with_aspect_ratio_spec(
        square_aspect(aspect_ratio) as i128,
    )
}

/// The cell in column `col` and row `row` of a board of `w` by `h` cells that
/// fills `board`.
pub open spec fn cell_rect(board: Rect, w: int, h: int, col: int, row: int) -> Rect {
    board.child_spec(
        ratio_spec(whole_spec(col), whole_spec(w)) as i128,
        ratio_spec(whole_spec(row), whole_spec(h)) as i128,
        ratio_spec(UNIT as int, whole_spec(w)) as i128,
        ratio_spec(UNIT as int, whole_spec(h)) as i128,
    )
}

/// The four panes with which every layout starts.
pub open spec fn pane_entries(w: int, h: int, aspect_ratio: Scalar) -> Seq<Region> {
    seq![
        (GUIElement::Background, screen_rect()),
        (GUIElement::Menu, menu_rect()),
        (GUIElement::Game, game_rect()),
        (GUIElement::GameBoard, board_rect(w, h, aspect_ratio)),
    ]
}

/// Entry `k` of the menu part of a layout. The palette tiles come in the
/// order of their indices; the selection indicator, where there is one, comes
/// right after the selected tile.
pub open spec fn menu_entry(k: int, aspect_ratio: Scalar, selected: int) -> Region {
    if k <= selected {
        (GUIElement::MenuTile(k as usize), menu_tile_rect(k, aspect_ratio))
    } else if k == selected + 1 {
        (GUIElement::SelectionIndicator, menu_slot(selected))
    } else {
        (GUIElement::MenuTile((k - 1) as usize), menu_tile_rect(k - 1, aspect_ratio))
    }
}

/// How many entries the menu part of a layout has: one for each of the `n`
/// palette tiles, and one more where one of them is selected.
pub open spec fn menu_len(n: int, selected: int) -> int {
    if 0 <= selected < n {
        n + 1
    } else {
        n
    }
}

/// The menu part of a layout with `n` palette tiles.
pub open spec fn menu_entries(n: int, aspect_ratio: Scalar, selected: int) -> Seq<Region> {
    Seq::new(menu_len(n, selected) as nat, |k: int| menu_entry(k, aspect_ratio, selected))
}

/// Entry `k` of the board part of a layout: the cells come column by column,
/// each column from its top row down, and each carries its row-major index.
pub open spec fn cell_entry(k: int, w: int, h: int, aspect_ratio: Scalar) -> Region {
    let col = k / h;
    let row = k % h;
    (
        GUIElement::GameTile((row * w + col) as usize),
        cell_rect(board_rect(w, h, aspect_ratio), w, h, col, row),
    )
}

/// The first `count` entries of the board part of a layout.
pub open spec fn cell_entries(count: int, w: int, h: int, aspect_ratio: Scalar) -> Seq<Region> {
    Seq::new(count as nat, |k: int| cell_entry(k, w, h, aspect_ratio))
}

/// The layout of a level with `n` palette tiles and a `w` by `h` board.
pub open spec fn layout(n: int, w: int, h: int, aspect_ratio: Scalar, selected: int) -> Seq<
    Region,
> {
    pane_entries(w, h, aspect_ratio) + menu_entries(n, aspect_ratio, selected) + cell_entries(
        w * h,
        w,
        h,
        aspect_ratio,
    )
}

/// The panes have the same place in every layout.
pub proof fn lemma_panes()
    ensures
        menu_rect() == (Rect { x: 20_000, y: 20_000, w: 110_000, h: 960_000 }),
        game_rect() == (Rect { x: 150_000, y: 0, w: 850_000, h: 1_000_000 }),
        board_frame() == (Rect { x: 260_000, y: 110_000, w: 630_000, h: 780_000 }),
        forall|i: int|
            0 <= i <= usize::MAX ==> #[trigger] menu_slot(i) == Rect::of(
                20_000,
                20_000 + 144_000 * i,
                110_000,
                144_000,
            ),
{
    assert forall|i: int| 0 <= i <= usize::MAX implies #[trigger] menu_slot(i) == Rect::of(
        20_000,
        20_000 + 144_000 * i,
        110_000,
        144_000,
    ) by {
        lemma_menu_slot(i);
    }
}

/// Slot `i` lies 0.144 below the slot before it and has the size of that slot.
proof fn lemma_menu_slot(i: int)
    requires
        0 <= i <= usize::MAX,
    ensures
        scale_spec(whole_spec(i), MENU_TILE_SIZE as int) == 150_000 * i,
        menu_slot(i) == Rect::of(20_000, 20_000 + 144_000 * i, 110_000, 144_000),
{
    assert(whole_spec(i) * MENU_TILE_SIZE == (150_000 * i) * UNIT) by (nonlinear_arith);
    assert(scale_spec(whole_spec(i), MENU_TILE_SIZE as int) == 150_000 * i);
    let f = 150_000 * i;
    assert(f * 960_000 == (144_000 * i) * UNIT) by (nonlinear_arith)
        requires
            f == 150_000 * i,
    ;
}

/// Lays out a level with `n_tiles` palette tiles and a `w` by `h` board on a
/// screen that is `aspect_ratio` times as wide as high, with the palette tile
/// `selected_tile` marked as selected.
pub fn calculate_gui(
    n_tiles: usize,
    w: usize,
    h: usize,
    aspect_ratio: Scalar,
    selected_tile: usize,
) -> (gui: Vec<(GUIElement, Rect)>)
    requires
        h > 0,
        aspect_ratio > 0,
        w * h <= usize::MAX,
    ensures
        gui@ == layout(n_tiles as int, w as int, h as int, aspect_ratio, selected_tile as int),
{
    let mut vec: Vec<(GUIElement, Rect)> = Vec::new();

    let screen = Rect::new(0, 0, UNIT, UNIT);
    vec.push((GUIElement::Background, screen));

    let menu = screen.child(0, 0, MENU_PANE_W, UNIT).dilate(MENU_DILATION);
    vec.push((GUIElement::Menu, menu));

    let game = screen.child(MENU_PANE_W, 0, GAME_PANE_W, UNIT);
    let frame = game.dilate(BOARD_DILATION);
    proof {
        lemma_panes();
        lemma_aspects(w as int, h as int, aspect_ratio);
    }
    let across = ratio(ratio(whole(w), whole(h)), aspect_ratio);
    let board = frame.child_with_aspect_ratio(across);
    vec.push((GUIElement::Game, game));
    vec.push((GUIElement::GameBoard, board));
    assert(vec@ =~= pane_entries(w as int, h as int, aspect_ratio));

    let square = ratio(UNIT, aspect_ratio);
    let mut i: usize = 0;
    while i < n_tiles
        invariant
            i <= n_tiles,
            menu == menu_rect(),
            square == square_aspect(aspect_ratio),
            0 <= square,
            vec@ == pane_entries(w as int, h as int, aspect_ratio) + menu_entries(
                i as int,
                aspect_ratio,
                selected_tile as int,
            ),
        decreases n_tiles - i,
    {
        proof {
            lemma_panes();
            lemma_menu_slot(i as int);
            assert(whole_spec(i as int) * MENU_TILE_SIZE == (150_000 * i) * UNIT)
                by (nonlinear_arith);
            assert(ratio_spec(106_000, 140_000) == 757_142);
        }
        let sel_rect = menu.child(0, scale(whole(i), MENU_TILE_SIZE), UNIT, MENU_TILE_SIZE);
        let choice_rect = sel_rect.dilate(MENU_TILE_DILATION).child_with_aspect_ratio(square);
        vec.push((GUIElement::MenuTile(i), choice_rect));
        if i == selected_tile {
            vec.push((GUIElement::SelectionIndicator, sel_rect));
        }
        i += 1;
        assert(vec@ =~= pane_entries(w as int, h as int, aspect_ratio) + menu_entries(
            i as int,
            aspect_ratio,
            selected_tile as int,
        ));
    }

    let ghost head = vec@;
    let mut col: usize = 0;
    while col < w
        invariant
            col <= w,
            h > 0,
            w * h <= usize::MAX,
            board == board_rect(w as int, h as int, aspect_ratio),
            board_frame().encloses(board),
            vec@ == head + cell_entries(col * h, w as int, h as int, aspect_ratio),
        decreases w - col,
    {
        let mut row: usize = 0;
        while row < h
            invariant
                col < w,
                row <= h,
                h > 0,
                w * h <= usize::MAX,
                board == board_rect(w as int, h as int, aspect_ratio),
                board_frame().encloses(board),
                vec@ == head + cell_entries(col * h + row, w as int, h as int, aspect_ratio),
            decreases h - row,
        {
            proof {
                lemma_panes();
                lemma_cell(w as int, h as int, col as int, row as int);
                lemma_cell_fractions(col as int, w as int);
                lemma_cell_fractions(row as int, h as int);
                lemma_child_fits(
                    board,
                    ratio_spec(whole_spec(col as int), whole_spec(w as int)) as i128,
                    ratio_spec(whole_spec(row as int), whole_spec(h as int)) as i128,
                    ratio_spec(UNIT as int, whole_spec(w as int)) as i128,
                    ratio_spec(UNIT as int, whole_spec(h as int)) as i128,
                );
            }
            let tile_rect = board.child(
                ratio(whole(col), whole(w)),
                ratio(whole(row), whole(h)),
                ratio(UNIT, whole(w)),
                ratio(UNIT, whole(h)),
            );
            vec.push((GUIElement::GameTile(row * w + col), tile_rect));
            row += 1;
            assert(vec@ =~= head + cell_entries(
                col * h + row,
                w as int,
                h as int,
                aspect_ratio,
            ));
        }
        assert(col * h + h == (col + 1) * h) by (nonlinear_arith);
        col += 1;
    }
    assert(w * h == h * w) by (nonlinear_arith);
    vec
}

/// The aspect ratios that a layout asks for are within the range in which
/// rectangles can be fitted.
proof fn lemma_aspects(w: int, h: int, aspect_ratio: Scalar)
    requires
        0 <= w <= usize::MAX,
        0 < h <= usize::MAX,
        aspect_ratio > 0,
    ensures
        fits(whole_spec(w) * UNIT),
        0 <= ratio_spec(whole_spec(w), whole_spec(h)) <= w * UNIT,
        fits(ratio_spec(whole_spec(w), whole_spec(h)) * UNIT),
        0 <= board_aspect(w, h, aspect_ratio) <= w * UNIT * UNIT,
        0 <= square_aspect(aspect_ratio) <= UNIT * UNIT,
{
    let ww = whole_spec(w);
    let hh = whole_spec(h);
    assert(0 <= ww * UNIT <= hh * (w * UNIT)) by (nonlinear_arith)
        requires
            ww == w * UNIT,
            hh == h * UNIT,
            0 <= w,
            0 < h,
    ;
    lemma_quotient_between(ww * UNIT, hh, 0, w * UNIT);
    let first = ratio_spec(ww, hh);
    assert(0 <= first * UNIT <= aspect_ratio * (w * UNIT * UNIT)) by (nonlinear_arith)
        requires
            0 <= first <= w * UNIT,
            aspect_ratio > 0,
    ;
    lemma_quotient_between(first * UNIT, aspect_ratio as int, 0, w * UNIT * UNIT);
    assert(0 <= UNIT * UNIT <= aspect_ratio * (UNIT * UNIT)) by (nonlinear_arith)
        requires
            aspect_ratio > 0,
    ;
    lemma_quotient_between(UNIT * UNIT, aspect_ratio as int, 0, UNIT * UNIT);
}

/// The fraction of a board's extent at which line `i` of `n` starts, and the
/// fraction that one line takes, are fractions of at most one.
proof fn lemma_cell_fractions(i: int, n: int)
    requires
        0 <= i < n <= usize::MAX,
    ensures
        fits(whole_spec(i) * UNIT),
        fits(UNIT * UNIT),
        0 <= ratio_spec(whole_spec(i), whole_spec(n)) < UNIT,
        0 <= ratio_spec(UNIT as int, whole_spec(n)) <= UNIT,
{
    let nn = whole_spec(n);
    assert(0 <= whole_spec(i) * UNIT < nn * UNIT) by (nonlinear_arith)
        requires
            nn == n * UNIT,
            0 <= i < n,
    ;
    vstd::arithmetic::div_mod::lemma_multiply_divide_lt(whole_spec(i) * UNIT, nn, UNIT as int);
    vstd::arithmetic::div_mod::lemma_div_pos_is_pos(whole_spec(i) * UNIT, nn);
    assert(nn * 0 <= UNIT * UNIT <= nn * UNIT) by (nonlinear_arith)
        requires
            nn == n * UNIT,
            1 <= n,
    ;
    lemma_quotient_between(UNIT * UNIT, nn, 0, UNIT as int);
}

/// Entry `col * h + row` of the board part is the cell in column `col` and
/// row `row`, and the row-major index of that cell is below `w * h`.
proof fn lemma_cell(w: int, h: int, col: int, row: int)
    requires
        0 <= col < w,
        0 <= row < h,
    ensures
        (col * h + row) / h == col,
        (col * h + row) % h == row,
        0 <= col * h + row < w * h,
        0 <= row * w + col < w * h,
        0 <= col * h,
{
    assert(0 <= col * h && col * h + row < w * h && 0 <= row * w && row * w + col < w * h && col
        * h == h * col) by (nonlinear_arith)
        requires
            0 <= col < w,
            0 <= row < h,
    ;
    vstd::arithmetic::div_mod::lemma_fundamental_div_mod_converse(col * h + row, h, col, row);
}


/// Whether `region` is a board cell whose rectangle contains `p`.
pub open spec fn is_game_hit(region: Region, p: Point) -> bool {
    region.0 is GameTile && region.1.contains_spec(p)
}

/// Whether `region` is a palette tile whose rectangle contains `p`.
pub open spec fn is_menu_hit(region: Region, p: Point) -> bool {
    region.0 is MenuTile && region.1.contains_spec(p)
}

/// Whether entry `k` of `gui` is the first board cell that contains `p`.
pub open spec fn first_game_hit(gui: Seq<Region>, p: Point, k: int) -> bool {
    &&& 0 <= k < gui.len()
    &&& is_game_hit(gui[k], p)
    &&& forall|j: int| 0 <= j < k ==> !is_game_hit(#[trigger] gui[j], p)
}

/// Whether entry `k` of `gui` is the first palette tile that contains `p`.
pub open spec fn first_menu_hit(gui: Seq<Region>, p: Point, k: int) -> bool {
    &&& 0 <= k < gui.len()
    &&& is_menu_hit(gui[k], p)
    &&& forall|j: int| 0 <= j < k ==> !is_menu_hit(#[trigger] gui[j], p)
}

/// The index of the board cell under `p`, where `p` lies on one: the index
/// that the first board cell in `gui` whose rectangle contains `p` carries.
/// Regions of other kinds are passed over.
pub open spec fn game_tile_at(gui: Seq<Region>, p: Point) -> Option<usize> {
    if exists|k: int| first_game_hit(gui, p, k) {
        let k = choose|k: int| first_game_hit(gui, p, k);
        Some(gui[k].0->GameTile_0)
    } else {
        None
    }
}

/// The index of the palette tile under `p`, where `p` lies on one.
pub open spec fn menu_tile_at(gui: Seq<Region>, p: Point) -> Option<usize> {
    if exists|k: int| first_menu_hit(gui, p, k) {
        let k = choose|k: int| first_menu_hit(gui, p, k);
        Some(gui[k].0->MenuTile_0)
    } else {
        None
    }
}

/// Finds the board cell under the pointer.
#[allow(non_snake_case)]
pub fn GetClickedGameTile(p: Point, gui: &[(GUIElement, Rect)]) -> (hit: Option<usize>)
    ensures
        hit == game_tile_at(gui@, p),
        hit matches Some(idx) ==> exists|k: int|
            first_game_hit(gui@, p, k) && gui@[k].0 == GUIElement::GameTile(idx),
        hit is None ==> forall|k: int| 0 <= k < gui@.len() ==> !is_game_hit(#[trigger] gui@[k], p),
{
    let n = gui.len();
    let mut i: usize = 0;
    while i < n
        invariant
            i <= n,
            n == gui@.len(),
            forall|j: int| 0 <= j < i ==> !is_game_hit(#[trigger] gui@[j], p),
        decreases n - i,
    {
        let (element, rect) = gui[i];
        if rect.contains(p) {
            match element {
                GUIElement::GameTile(idx) => {
                    proof {
                        lemma_first_game_hit_unique(gui@, p, i as int);
                    }
                    return Some(idx);
                },
                _ => {},
            }
        }
        i += 1;
    }
    None
}

/// Finds the palette tile under the pointer.
#[allow(non_snake_case)]
pub fn GetClickedMenuTile(p: Point, gui: &Vec<(GUIElement, Rect)>) -> (hit: Option<usize>)
    ensures
        hit == menu_tile_at(gui@, p),
        hit matches Some(idx) ==> exists|k: int|
            first_menu_hit(gui@, p, k) && gui@[k].0 == GUIElement::MenuTile(idx),
        hit is None ==> forall|k: int| 0 <= k < gui@.len() ==> !is_menu_hit(#[trigger] gui@[k], p),
{
    let n = gui.len();
    let mut i: usize = 0;
    while i < n
        invariant
            i <= n,
            n == gui@.len(),
            forall|j: int| 0 <= j < i ==> !is_menu_hit(#[trigger] gui@[j], p),
        decreases n - i,
    {
        let (element, rect) = gui[i];
        if rect.contains(p) {
            match element {
                GUIElement::MenuTile(idx) => {
                    proof {
                        lemma_first_menu_hit_unique(gui@, p, i as int);
                    }
                    return Some(idx);
                },
                _ => {},
            }
        }
        i += 1;
    }
    None
}

/// There is at most one first board cell that contains `p`.
proof fn lemma_first_game_hit_unique(gui: Seq<Region>, p: Point, k: int)
    requires
        first_game_hit(gui, p, k),
    ensures
        forall|j: int| first_game_hit(gui, p, j) ==> j == k,
        game_tile_at(gui, p) == Some(gui[k].0->GameTile_0),
{
    assert forall|j: int| first_game_hit(gui, p, j) implies j == k by {
        if j < k {
            assert(!is_game_hit(gui[j], p));
        } else if k < j {
            assert(!is_game_hit(gui[k], p));
        }
    }
}

/// There is at most one first palette tile that contains `p`.
proof fn lemma_first_menu_hit_unique(gui: Seq<Region>, p: Point, k: int)
    requires
        first_menu_hit(gui, p, k),
    ensures
        forall|j: int| first_menu_hit(gui, p, j) ==> j == k,
        menu_tile_at(gui, p) == Some(gui[k].0->MenuTile_0),
{
    assert forall|j: int| first_menu_hit(gui, p, j) implies j == k by {
        if j < k {
            assert(!is_menu_hit(gui[j], p));
        } else if k < j {
            assert(!is_menu_hit(gui[k], p));
        }
    }
}

/// The board lies within the shrunk game pane.
pub proof fn lemma_board_in_frame(w: int, h: int, aspect_ratio: Scalar)
    requires
        0 <= w <= usize::MAX,
        0 < h <= usize::MAX,
        aspect_ratio > 0,
    ensures
        board_frame().encloses(board_rect(w, h, aspect_ratio)),
{
    lemma_panes();
    lemma_aspects(w, h, aspect_ratio);
    assert(ratio_spec(630_000, 780_000) == 807_692);
    lemma_fitted_part_enclosed(board_frame(), board_aspect(w, h, aspect_ratio) as i128);
}

/// A palette tile lies within its slot, with a margin.
pub proof fn lemma_menu_tile_in_slot(i: int, aspect_ratio: Scalar)
    requires
        0 <= i <= usize::MAX,
        aspect_ratio > 0,
    ensures
        menu_slot(i).dilate_spec(MENU_TILE_DILATION).encloses(menu_tile_rect(i, aspect_ratio)),
        menu_slot(i).dilate_spec(MENU_TILE_DILATION) == Rect::of(
            22_000,
            22_000 + 144_000 * i,
            106_000,
            140_000,
        ),
{
    lemma_menu_slot(i);
    lemma_aspects(0, 1, aspect_ratio);
    assert(ratio_spec(106_000, 140_000) == 757_142);
    let shrunk = menu_slot(i).dilate_spec(MENU_TILE_DILATION);
    assert(can_fit(shrunk, square_aspect(aspect_ratio) as i128));
    lemma_fitted_part_enclosed(shrunk, square_aspect(aspect_ratio) as i128);
}

/// No two palette tiles of a layout share a point: the one with the larger
/// index lies below the other.
pub proof fn lemma_menu_tiles_apart(i: int, j: int, aspect_ratio: Scalar)
    requires
        0 <= i < j <= usize::MAX,
        aspect_ratio > 0,
    ensures
        menu_tile_rect(i, aspect_ratio).y + menu_tile_rect(i, aspect_ratio).h < menu_tile_rect(
            j,
            aspect_ratio,
        ).y,
        forall|p: Point|
            !(menu_tile_rect(i, aspect_ratio).contains_spec(p) && menu_tile_rect(
                j,
                aspect_ratio,
            ).contains_spec(p)),
{
    lemma_menu_tile_in_slot(i, aspect_ratio);
    lemma_menu_tile_in_slot(j, aspect_ratio);
}

/// The sum of two quotients by one divisor is at most the quotient of the
/// sum.
proof fn lemma_quotients_add(x: int, y: int, d: int)
    requires
        0 < d,
    ensures
        x / d + y / d <= (x + y) / d,
{
    vstd::arithmetic::div_mod::lemma_fundamental_div_mod(x, d);
    vstd::arithmetic::div_mod::lemma_fundamental_div_mod(y, d);
    vstd::arithmetic::div_mod::lemma_mod_bound(x, d);
    vstd::arithmetic::div_mod::lemma_mod_bound(y, d);
    let q = x / d + y / d;
    assert(d * q == d * (x / d) + d * (y / d)) by (nonlinear_arith)
        requires
            q == x / d + y / d,
    ;
    // `d * q` is no larger than `x + y`, so `q` is no larger than the
    // quotient of `x + y`.
    vstd::arithmetic::div_mod::lemma_div_is_ordered(d * q, x + y, d);
    vstd::arithmetic::div_mod::lemma_div_multiples_vanish(q, d);
}

/// Along an extent `len` that is divided into `n` lines, line `i` ends no
/// later than a later line `j` starts.
proof fn lemma_lines_apart(len: int, n: int, i: int, j: int)
    requires
        0 <= len,
        0 <= i < j < n <= usize::MAX,
    ensures
        scale_spec(ratio_spec(whole_spec(i), whole_spec(n)), len) + scale_spec(
            len,
            ratio_spec(UNIT as int, whole_spec(n)),
        ) <= scale_spec(ratio_spec(whole_spec(j), whole_spec(n)), len),
{
    let d = whole_spec(n);
    let start = ratio_spec(whole_spec(i), d);
    let size = ratio_spec(UNIT as int, d);
    let next = ratio_spec(whole_spec(j), d);
    lemma_cell_fractions(i, n);
    lemma_cell_fractions(j, n);
    // The start of line `i` and the size of a line add up to at most the
    // start of line `i + 1`, which is at most the start of line `j`.
    lemma_quotients_add(whole_spec(i) * UNIT, UNIT * UNIT, d);
    assert(whole_spec(i) * UNIT + UNIT * UNIT <= whole_spec(j) * UNIT) by (nonlinear_arith)
        requires
            i + 1 <= j,
    ;
    vstd::arithmetic::div_mod::lemma_div_is_ordered(
        whole_spec(i) * UNIT + UNIT * UNIT,
        whole_spec(j) * UNIT,
        d,
    );
    assert(start + size <= next);
    assert(start * len + len * size <= next * len) by (nonlinear_arith)
        requires
            start + size <= next,
            0 <= len,
    ;
}

/// The cells of a layout lie side by side: of two cells in different
/// columns, the one further left ends where the other starts or before;
/// of two cells in different rows, the upper one does. So two cells share
/// at most points of their rims.
pub proof fn lemma_cells_apart(
    w: int,
    h: int,
    aspect_ratio: Scalar,
    col: int,
    row: int,
    other_col: int,
    other_row: int,
)
    requires
        0 <= col < w <= usize::MAX,
        0 <= other_col < w,
        0 <= row < h <= usize::MAX,
        0 <= other_row < h,
        aspect_ratio > 0,
    ensures
        ({
            let board = board_rect(w, h, aspect_ratio);
            let a = cell_rect(board, w, h, col, row);
            let b = cell_rect(board, w, h, other_col, other_row);
            &&& col < other_col ==> a.x + a.w <= b.x
            &&& row < other_row ==> a.y + a.h <= b.y
        }),
{
    let board = board_rect(w, h, aspect_ratio);
    lemma_panes();
    lemma_board_in_frame(w, h, aspect_ratio);
    lemma_cell_fractions(col, w);
    lemma_cell_fractions(other_col, w);
    lemma_cell_fractions(row, h);
    lemma_cell_fractions(other_row, h);
    lemma_child_fits(
        board,
        ratio_spec(whole_spec(col), whole_spec(w)) as i128,
        ratio_spec(whole_spec(row), whole_spec(h)) as i128,
        ratio_spec(UNIT as int, whole_spec(w)) as i128,
        ratio_spec(UNIT as int, whole_spec(h)) as i128,
    );
    lemma_child_fits(
        board,
        ratio_spec(whole_spec(other_col), whole_spec(w)) as i128,
        ratio_spec(whole_spec(other_row), whole_spec(h)) as i128,
        ratio_spec(UNIT as int, whole_spec(w)) as i128,
        ratio_spec(UNIT as int, whole_spec(h)) as i128,
    );
    if col < other_col {
        lemma_lines_apart(board.w as int, w, col, other_col);
    }
    if row < other_row {
        lemma_lines_apart(board.h as int, h, row, other_row);
    }
}

/// Whether every board cell in `gui` has an index below `cells`, and every
/// palette tile an index below `choices`.
pub open spec fn indices_within(gui: Seq<Region>, choices: int, cells: int) -> bool {
    forall|k: int|
        0 <= k < gui.len() ==> match (#[trigger] gui[k]).0 {
            GUIElement::MenuTile(i) => i < choices,
            GUIElement::GameTile(i) => i < cells,
            _ => true,
        }
}

/// A layout names no palette tile and no board cell that the level lacks.
pub proof fn lemma_layout_indices(n: int, w: int, h: int, aspect_ratio: Scalar, selected: int)
    requires
        0 <= n <= usize::MAX,
        0 <= w,
        0 <= h,
        w * h <= usize::MAX,
        0 <= selected,
    ensures
        indices_within(layout(n, w, h, aspect_ratio, selected), n, w * h),
{
    let gui = layout(n, w, h, aspect_ratio, selected);
    let menu = menu_entries(n, aspect_ratio, selected);
    assert forall|k: int| 0 <= k < gui.len() implies match (#[trigger] gui[k]).0 {
        GUIElement::MenuTile(i) => i < n,
        GUIElement::GameTile(i) => i < w * h,
        _ => true,
    } by {
        if k < 4 {
        } else if k < 4 + menu.len() {
            assert(gui[k] == menu_entry(k - 4, aspect_ratio, selected));
        } else {
            let c = k - 4 - menu.len();
            assert(gui[k] == cell_entry(c, w, h, aspect_ratio));
            lemma_cell_of_entry(c, w, h);
        }
    }
}

/// Entry `c` of the board part stands for a cell of the board.
proof fn lemma_cell_of_entry(c: int, w: int, h: int)
    requires
        0 <= w,
        0 <= h,
        0 <= c < w * h,
    ensures
        0 < h,
        0 <= c / h < w,
        0 <= c % h < h,
        0 <= (c % h) * w + c / h < w * h,
{
    assert(0 < h && 0 < w) by (nonlinear_arith)
        requires
            0 <= w,
            0 <= h,
            0 <= c < w * h,
    ;
    vstd::arithmetic::div_mod::lemma_fundamental_div_mod(c, h);
    vstd::arithmetic::div_mod::lemma_mod_bound(c, h);
    let col = c / h;
    let row = c % h;
    assert(0 <= col < w) by (nonlinear_arith)
        requires
            c == h * col + row,
            0 <= row < h,
            0 <= c < w * h,
            0 < h,
    ;
    lemma_cell(w, h, col, row);
}


/// One step of drawing a level. The commands of a frame are carried out in
/// their order, so a later one paints over an earlier one.
#[derive(Clone, Copy, Debug, PartialEq, Eq)]
pub enum DrawCommand {
    /// Fill the rectangle as the backdrop of the screen.
    Background(Rect),
    /// Frame the rectangle as the slot of the selected palette tile.
    Selection(Rect),
    /// Fill the rectangle as a board cell that holds no tile.
    EmptyCell(Rect),
    /// Draw the tile as one that the player placed.
    PlacedTile(Rect, Tile),
    /// Draw the tile as one that the author fixed.
    FixedTile(Rect, Tile),
    /// Draw the tile, translucent and raised, as the one that a click would
    /// place.
    HoverTile(Rect, Tile),
    /// Draw the tile as a choice in the palette.
    PaletteTile(Rect, Tile),
}

/// The commands that draw `region`. A board cell is drawn as what it holds;
/// the cell under the pointer, unless it is fixed, gets the selected tile
/// drawn over it. The panes other than the background draw nothing.
pub open spec fn region_commands(
    region: Region,
    hovered: Option<usize>,
    selected_tile: Tile,
    tile_choices: Seq<Tile>,
    tiles: Seq<Option<Tile>>,
    fixed: Seq<bool>,
) -> Seq<DrawCommand> {
    let rect = region.1;
    match region.0 {
        GUIElement::GameTile(i) => {
            let cell = match tiles[i as int] {
                Some(tile) => if fixed[i as int] {
                    DrawCommand::FixedTile(rect, tile)
                } else {
                    DrawCommand::PlacedTile(rect, tile)
                },
                None => DrawCommand::EmptyCell(rect),
            };
            if hovered == Some(i) && !fixed[i as int] {
                seq![cell, DrawCommand::HoverTile(rect, selected_tile)]
            } else {
                seq![cell]
            }
        },
        GUIElement::MenuTile(i) => seq![DrawCommand::PaletteTile(rect, tile_choices[i as int])],
        GUIElement::Background => seq![DrawCommand::Background(rect)],
        GUIElement::SelectionIndicator => seq![DrawCommand::Selection(rect)],
        _ => Seq::empty(),
    }
}

/// The commands that draw the first `count` regions of `gui`, region by
/// region.
pub open spec fn draw_commands(
    gui: Seq<Region>,
    count: nat,
    hovered: Option<usize>,
    selected_tile: Tile,
    tile_choices: Seq<Tile>,
    tiles: Seq<Option<Tile>>,
    fixed: Seq<bool>,
) -> Seq<DrawCommand>
    decreases count,
{
    if count == 0 {
        Seq::empty()
    } else {
        draw_commands(
            gui,
            (count - 1) as nat,
            hovered,
            selected_tile,
            tile_choices,
            tiles,
            fixed,
        ) + region_commands(
            gui[count - 1],
            hovered,
            selected_tile,
            tile_choices,
            tiles,
            fixed,
        )
    }
}

/// Works out how to draw a level: the regions of `gui_elements` in their
/// order, with the board as `tiles` has it and the pointer at `cursor_pos`.
pub fn draw_level(
    cursor_pos: Point,
    selected_tile: Tile,
    tile_choices: &[Tile],
    tiles: &[Option<Tile>],
    fixed: &[bool],
    gui_elements: &[(GUIElement, Rect)],
) -> (commands: Vec<DrawCommand>)
    requires
        indices_within(gui_elements@, tile_choices@.len() as int, tiles@.len() as int),
        indices_within(gui_elements@, tile_choices@.len() as int, fixed@.len() as int),
    ensures
        commands@ == draw_commands(
            gui_elements@,
            gui_elements@.len(),
            game_tile_at(gui_elements@, cursor_pos),
            selected_tile,
            tile_choices@,
            tiles@,
            fixed@,
        ),
{
    let hovered = GetClickedGameTile(cursor_pos, gui_elements);
    let mut commands: Vec<DrawCommand> = Vec::new();
    let n = gui_elements.len();
    let mut k: usize = 0;
    while k < n
        invariant
            k <= n,
            n == gui_elements@.len(),
            hovered == game_tile_at(gui_elements@, cursor_pos),
            indices_within(gui_elements@, tile_choices@.len() as int, tiles@.len() as int),
            indices_within(gui_elements@, tile_choices@.len() as int, fixed@.len() as int),
            commands@ == draw_commands(
                gui_elements@,
                k as nat,
                hovered,
                selected_tile,
                tile_choices@,
                tiles@,
                fixed@,
            ),
        decreases n - k,
    {
        let ghost before = commands@;
        let (elem_type, rect) = gui_elements[k];
        match elem_type {
            GUIElement::GameTile(i) => {
                if let Some(tile) = tiles[i] {
                    if fixed[i] {
                        commands.push(DrawCommand::FixedTile(rect, tile));
                    } else {
                        commands.push(DrawCommand::PlacedTile(rect, tile));
                    }
                } else {
                    commands.push(DrawCommand::EmptyCell(rect));
                }
                if let Some(idx) = hovered {
                    if idx == i && !fixed[i] {
                        commands.push(DrawCommand::HoverTile(rect, selected_tile));
                    }
                }
            },
            GUIElement::MenuTile(i) => {
                commands.push(DrawCommand::PaletteTile(rect, tile_choices[i]));
            },
            GUIElement::Background => {
                commands.push(DrawCommand::Background(rect));
            },
            GUIElement::SelectionIndicator => {
                commands.push(DrawCommand::Selection(rect));
            },
            _ => {},
        }
        assert(commands@ =~= before + region_commands(
            gui_elements@[k as int],
            hovered,
            selected_tile,
            tile_choices@,
            tiles@,
            fixed@,
        ));
        k += 1;
    }
    commands
}


} // verus!

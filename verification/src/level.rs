//! Tiles, levels and the rule that decides whether a tile may be placed.

use vstd::prelude::*;
use vstd::string::StringExecFns;
use crate::kmath::Color;

verus! {

/// The four edge colours of a tile: top, right, bottom, left.
pub type Tile = [Color; 4];

/// Index of the top edge in a [`Tile`].
pub const TOP: usize = 0;

/// Index of the right edge in a [`Tile`].
pub const RIGHT: usize = 1;

/// Index of the bottom edge in a [`Tile`].
pub const BOTTOM: usize = 2;

/// Index of the left edge in a [`Tile`].
pub const LEFT: usize = 3;

/// The edges of `t` after a quarter turn clockwise: every colour moves on to
/// the next edge, so the old left edge ends up on top.
pub open spec fn rotated_cw(t: Seq<Color>) -> Seq<Color> {
    seq![t[3], t[0], t[1], t[2]]
}

/// The edges of `t` after a quarter turn counter-clockwise.
pub open spec fn rotated_ccw(t: Seq<Color>) -> Seq<Color> {
    seq![t[1], t[2], t[3], t[0]]
}

/// Quarter turns of a tile. A turn makes a new tile and leaves `self` as it is.
pub trait TileRotate {
    /// The edge colours in the order top, right, bottom, left.
    spec fn edges(&self) -> Seq<Color>;

    /// The tile turned a quarter clockwise.
    fn rotate_cw(&self) -> (r: Tile)
        ensures
            r@ == rotated_cw(self.edges()),
    ;

    /// The tile turned a quarter counter-clockwise.
    fn rotate_ccw(&self) -> (r: Tile)
        ensures
            r@ == rotated_ccw(self.edges()),
    ;
}

impl TileRotate for Tile {
    open spec fn edges(&self) -> Seq<Color> {
        self@
    }

    fn rotate_cw(&self) -> (r: Tile) {
        let r = [self[3], self[0], self[1], self[2]];
        assert(r@ =~= rotated_cw(self@));
        r
    }

    fn rotate_ccw(&self) -> (r: Tile) {
        let r = [self[1], self[2], self[3], self[0]];
        assert(r@ =~= rotated_ccw(self@));
        r
    }
}

/// Two tiles with the same edge colours are the same tile.
pub proof fn lemma_tile_ext(a: Tile, b: Tile)
    requires
        a@ =~= b@,
    ensures
        a == b,
{
}

/// Four quarter turns in one direction bring every tile back to itself.
pub proof fn lemma_four_turns(t: Tile)
    ensures
        rotated_cw(rotated_cw(rotated_cw(rotated_cw(t@)))) == t@,
        rotated_ccw(rotated_ccw(rotated_ccw(rotated_ccw(t@)))) == t@,
{
    assert(rotated_cw(rotated_cw(rotated_cw(rotated_cw(t@)))) =~= t@);
    assert(rotated_ccw(rotated_ccw(rotated_ccw(rotated_ccw(t@)))) =~= t@);
}

/// A quarter turn one way undoes a quarter turn the other way.
pub proof fn lemma_turn_and_back(t: Tile)
    ensures
        rotated_ccw(rotated_cw(t@)) == t@,
        rotated_cw(rotated_ccw(t@)) == t@,
{
    assert(rotated_ccw(rotated_cw(t@)) =~= t@);
    assert(rotated_cw(rotated_ccw(t@)) =~= t@);
}

/// Whether the tile in `cell`, if there is one, shows on its edge `cell_edge`
/// the colour that `tile` shows on its edge `tile_edge`.
pub open spec fn edge_agrees(cell: Option<Tile>, cell_edge: int, tile: Tile, tile_edge: int) -> bool {
    cell matches Some(neigh) ==> neigh@[cell_edge] == tile@[tile_edge]
}

/// Whether `tile` may be placed on cell `idx` of the row-major `w` by `h`
/// board `tiles`: each of the four neighbours that lies on the board and is
/// filled shows, on the edge it shares with the cell, the colour of `tile`
/// on that edge.
pub open spec fn accepts(w: int, h: int, tiles: Seq<Option<Tile>>, tile: Tile, idx: int) -> bool {
    let x = idx % w;
    let y = idx / w;
    &&& x != 0 ==> edge_agrees(tiles[idx - 1], RIGHT as int, tile, LEFT as int)
    &&& x != w - 1 ==> edge_agrees(tiles[idx + 1], LEFT as int, tile, RIGHT as int)
    &&& y != h - 1 ==> edge_agrees(tiles[idx + w], TOP as int, tile, BOTTOM as int)
    &&& y != 0 ==> edge_agrees(tiles[idx - w], BOTTOM as int, tile, TOP as int)
}

/// A side of a cell.
#[derive(Clone, Copy, Debug, PartialEq, Eq, Structural)]
pub enum Side {
    Left,
    Right,
    Bottom,
    Top,
}

/// Whether the neighbour of cell `idx` on `side` lies on the board, is filled
/// and shows another colour than `tile` on the edge the two share.
pub open spec fn conflicts(
    w: int,
    h: int,
    tiles: Seq<Option<Tile>>,
    tile: Tile,
    idx: int,
    side: Side,
) -> bool {
    match side {
        Side::Left => idx % w != 0 && !edge_agrees(tiles[idx - 1], RIGHT as int, tile, LEFT as int),
        Side::Right => idx % w != w - 1 && !edge_agrees(
            tiles[idx + 1],
            LEFT as int,
            tile,
            RIGHT as int,
        ),
        Side::Bottom => idx / w != h - 1 && !edge_agrees(
            tiles[idx + w],
            TOP as int,
            tile,
            BOTTOM as int,
        ),
        Side::Top => idx / w != 0 && !edge_agrees(tiles[idx - w], BOTTOM as int, tile, TOP as int),
    }
}

/// The place of `side` in the order in which the sides are examined.
pub open spec fn side_rank(side: Side) -> int {
    match side {
        Side::Left => 0,
        Side::Right => 1,
        Side::Bottom => 2,
        Side::Top => 3,
    }
}

/// Cell `idx` of a `w` by `h` board has its neighbours where `accepts` looks
/// for them.
proof fn lemma_neighbours_on_board(w: int, h: int, idx: int)
    requires
        0 <= w,
        0 <= idx < w * h,
    ensures
        0 < w,
        0 < h,
        0 <= idx % w < w,
        0 <= idx / w < h,
        idx % w != 0 ==> 0 <= idx - 1,
        idx % w != w - 1 ==> idx + 1 < w * h,
        idx / w != h - 1 ==> idx + w < w * h,
        idx / w != 0 ==> 0 <= idx - w,
{
    assert(0 < w && 0 < h) by (nonlinear_arith)
        requires
            0 <= w,
            0 <= idx < w * h,
    ;
    vstd::arithmetic::div_mod::lemma_fundamental_div_mod(idx, w);
    vstd::arithmetic::div_mod::lemma_mod_bound(idx, w);
    let x = idx % w;
    let y = idx / w;
    assert(0 <= y < h && (y != h - 1 ==> idx + w < w * h) && (y != 0 ==> 0 <= idx - w) && (x != w
        - 1 ==> idx + 1 < w * h)) by (nonlinear_arith)
        requires
            idx == w * y + x,
            0 <= x < w,
            0 <= idx < w * h,
            0 < w,
    ;
}

/// The side on which `tile` cannot go on cell `place_idx`, if there is one.
/// The sides are examined in the order left, right, bottom, top, and the
/// first that conflicts is returned.
pub fn rejected_side(
    w: usize,
    h: usize,
    tiles: &Vec<Option<Tile>>,
    place_tile: Tile,
    place_idx: usize,
) -> (r: Option<Side>)
    requires
        tiles.len() == w * h,
        place_idx < tiles.len(),
    ensures
        r is None <==> accepts(w as int, h as int, tiles@, place_tile, place_idx as int),
        r matches Some(side) ==> {
            &&& conflicts(w as int, h as int, tiles@, place_tile, place_idx as int, side)
            &&& forall|s: Side|
                side_rank(s) < side_rank(side) ==> !conflicts(
                    w as int,
                    h as int,
                    tiles@,
                    place_tile,
                    place_idx as int,
                    s,
                )
        },
{
    proof {
        lemma_neighbours_on_board(w as int, h as int, place_idx as int);
    }
    let x = place_idx % w;
    let y = place_idx / w;

    if x != 0 {
        if let Some(neigh) = tiles[place_idx - 1] {
            if neigh[RIGHT] != place_tile[LEFT] {
                return Some(Side::Left);
            }
        }
    }
    if x != w - 1 {
        if let Some(neigh) = tiles[place_idx + 1] {
            if neigh[LEFT] != place_tile[RIGHT] {
                return Some(Side::Right);
            }
        }
    }
    if y != h - 1 {
        if let Some(neigh) = tiles[place_idx + w] {
            if neigh[TOP] != place_tile[BOTTOM] {
                return Some(Side::Bottom);
            }
        }
    }
    if y != 0 {
        if let Some(neigh) = tiles[place_idx - w] {
            if neigh[BOTTOM] != place_tile[TOP] {
                return Some(Side::Top);
            }
        }
    }
    None
}

/// Decides whether `place_tile` may be placed on cell `place_idx`.
pub fn accept(
    w: usize,
    h: usize,
    tiles: &Vec<Option<Tile>>,
    place_tile: Tile,
    place_idx: usize,
) -> (ok: bool)
    requires
        tiles.len() == w * h,
        place_idx < tiles.len(),
    ensures
        ok == accepts(w as int, h as int, tiles@, place_tile, place_idx as int),
{
    rejected_side(w, h, tiles, place_tile, place_idx).is_none()
}

/// On a board without any tile, every tile may be placed on every cell.
pub proof fn lemma_empty_board_accepts(
    w: nat,
    h: nat,
    tiles: Seq<Option<Tile>>,
    tile: Tile,
    idx: int,
)
    requires
        tiles.len() == w * h,
        0 <= idx < tiles.len(),
        forall|i: int| 0 <= i < tiles.len() ==> tiles[i] is None,
    ensures
        accepts(w as int, h as int, tiles, tile, idx),
{
    lemma_neighbours_on_board(w as int, h as int, idx);
}

/// Whether the tile on cell `idx`, if there is one, agrees with each filled
/// neighbour on the colour of the edge the two share.
pub open spec fn agrees_with_neighbours(w: int, h: int, tiles: Seq<Option<Tile>>, idx: int) -> bool {
    tiles[idx] matches Some(tile) ==> accepts(w, h, tiles, tile, idx)
}

/// A tile that was accepted for a cell agrees, once it lies there, with every
/// filled neighbour of that cell, and the rest of the board is as before.
pub proof fn lemma_accepted_placement_agrees(
    w: nat,
    h: nat,
    tiles: Seq<Option<Tile>>,
    tile: Tile,
    idx: int,
)
    requires
        tiles.len() == w * h,
        0 <= idx < tiles.len(),
        accepts(w as int, h as int, tiles, tile, idx),
    ensures
        agrees_with_neighbours(w as int, h as int, tiles.update(idx, Some(tile)), idx),
        forall|i: int|
            0 <= i < tiles.len() && i != idx ==> tiles.update(idx, Some(tile))[i] == tiles[i],
{
    lemma_neighbours_on_board(w as int, h as int, idx);
}

/// Whether every tile on the board agrees with each of its filled
/// neighbours on the colour of the edge the two share.
pub open spec fn edges_match(w: int, h: int, tiles: Seq<Option<Tile>>) -> bool {
    forall|idx: int| 0 <= idx < tiles.len() ==> agrees_with_neighbours(w, h, tiles, idx)
}

/// Where cell `idx` lies, seen from the cells next to it.
proof fn lemma_next_cells(w: int, idx: int)
    requires
        0 < w,
        0 <= idx,
    ensures
        idx % w != 0 ==> (idx - 1) % w == idx % w - 1 && (idx - 1) / w == idx / w,
        idx % w != w - 1 ==> (idx + 1) % w == idx % w + 1 && (idx + 1) / w == idx / w,
        (idx + w) % w == idx % w && (idx + w) / w == idx / w + 1,
        idx / w != 0 ==> (idx - w) % w == idx % w && (idx - w) / w == idx / w - 1,
{
    vstd::arithmetic::div_mod::lemma_fundamental_div_mod(idx, w);
    vstd::arithmetic::div_mod::lemma_mod_bound(idx, w);
    let x = idx % w;
    let y = idx / w;
    assert(w * (y + 1) == w * y + w && w * (y - 1) == w * y - w) by (nonlinear_arith);
    if x != 0 {
        vstd::arithmetic::div_mod::lemma_fundamental_div_mod_converse(idx - 1, w, y, x - 1);
    }
    if x != w - 1 {
        vstd::arithmetic::div_mod::lemma_fundamental_div_mod_converse(idx + 1, w, y, x + 1);
    }
    vstd::arithmetic::div_mod::lemma_fundamental_div_mod_converse(idx + w, w, y + 1, x);
    if y != 0 {
        vstd::arithmetic::div_mod::lemma_fundamental_div_mod_converse(idx - w, w, y - 1, x);
    }
}

/// On a board on which all edges match, placing a tile that was accepted
/// for its cell leaves all edges matching.
pub proof fn lemma_accepted_placement_keeps_edges(
    w: nat,
    h: nat,
    tiles: Seq<Option<Tile>>,
    tile: Tile,
    idx: int,
)
    requires
        tiles.len() == w * h,
        0 <= idx < tiles.len(),
        edges_match(w as int, h as int, tiles),
        accepts(w as int, h as int, tiles, tile, idx),
    ensures
        edges_match(w as int, h as int, tiles.update(idx, Some(tile))),
{
    let after = tiles.update(idx, Some(tile));
    let (w, h) = (w as int, h as int);
    lemma_neighbours_on_board(w, h, idx);
    lemma_next_cells(w, idx);
    assert forall|j: int| 0 <= j < after.len() implies agrees_with_neighbours(w, h, after, j) by {
        lemma_neighbours_on_board(w, h, j);
        lemma_next_cells(w, j);
        if j != idx {
            assert(agrees_with_neighbours(w, h, tiles, j));
        }
    }
}

/// The character that stands for the digit `d`.
pub open spec fn digit_char(d: int) -> char {
    if d == 0 {
        '0'
    } else if d == 1 {
        '1'
    } else if d == 2 {
        '2'
    } else if d == 3 {
        '3'
    } else if d == 4 {
        '4'
    } else if d == 5 {
        '5'
    } else if d == 6 {
        '6'
    } else if d == 7 {
        '7'
    } else if d == 8 {
        '8'
    } else {
        '9'
    }
}

/// The decimal digits of `n`, the most significant first.
pub open spec fn digits_of(n: nat) -> Seq<char>
    decreases n,
{
    if n < 10 {
        seq![digit_char(n as int)]
    } else {
        digits_of(n / 10).push(digit_char((n % 10) as int))
    }
}

/// `text` with zeros put in front until it is `width` characters long.
pub open spec fn zero_padded(text: Seq<char>, width: nat) -> Seq<char>
    decreases width - text.len(),
{
    if text.len() >= width {
        text
    } else {
        zero_padded(seq!['0'] + text, width)
    }
}

/// `n` in decimal, in at least three characters: zeros fill up the space
/// between the sign, where there is one, and the digits.
pub open spec fn number_text(n: int) -> Seq<char> {
    if n >= 0 {
        zero_padded(digits_of(n as nat), 3)
    } else {
        seq!['-'] + zero_padded(digits_of((-n) as nat), 2)
    }
}

/// The name of the file that holds level `number`, called `name`.
pub open spec fn file_name_of(number: int, name: Seq<char>) -> Seq<char> {
    "./levels/"@ + number_text(number) + " - "@ + name + ".json"@
}

/// The digit `d` as a string.
fn digit_text(d: u8) -> (text: &'static str)
    requires
        d < 10,
    ensures
        text@ == seq![digit_char(d as int)],
{
    proof {
        reveal_strlit("0");
        reveal_strlit("1");
        reveal_strlit("2");
        reveal_strlit("3");
        reveal_strlit("4");
        reveal_strlit("5");
        reveal_strlit("6");
        reveal_strlit("7");
        reveal_strlit("8");
        reveal_strlit("9");
    }
    let text = if d == 0 {
        "0"
    } else if d == 1 {
        "1"
    } else if d == 2 {
        "2"
    } else if d == 3 {
        "3"
    } else if d == 4 {
        "4"
    } else if d == 5 {
        "5"
    } else if d == 6 {
        "6"
    } else if d == 7 {
        "7"
    } else if d == 8 {
        "8"
    } else {
        "9"
    };
    assert(text@ =~= seq![digit_char(d as int)]);
    text
}

/// Appends `number_text(number)` to `out`.
fn append_number(out: &mut String, number: i32)
    ensures
        final(out)@ == old(out)@ + number_text(number as int),
{
    let negative = number < 0;
    let mut rest: u64 = if negative {
        (-(number as i64)) as u64
    } else {
        number as u64
    };
    let ghost magnitude: nat = rest as nat;
    // The digits from the least significant on; `text` is what they spell.
    let mut digits: Vec<u8> = Vec::new();
    let ghost mut text: Seq<char> = Seq::empty();
    loop
        invariant_except_break
            digits_of(magnitude) == digits_of(rest as nat) + text,
        invariant
            digits@.len() == text.len(),
            forall|k: int|
                0 <= k < digits@.len() ==> digits@[k] < 10 && text[text.len() - 1 - k]
                    == digit_char(digits@[k] as int),
        ensures
            digits_of(magnitude) == text,
        decreases rest,
    {
        let d: u8 = (rest % 10) as u8;
        digits.push(d);
        proof {
            let longer = seq![digit_char(d as int)] + text;
            assert forall|k: int| 0 <= k < digits@.len() implies digits@[k] < 10 && longer[longer.len()
                - 1 - k] == digit_char(digits@[k] as int) by {
                if k < digits@.len() - 1 {
                    assert(longer[longer.len() - 1 - k] == text[text.len() - 1 - k]);
                }
            }
            if rest >= 10 {
                assert(digits_of(rest as nat) + text =~= digits_of((rest / 10) as nat) + longer);
            } else {
                assert(digits_of(rest as nat) + text =~= longer);
            }
            text = longer;
        }
        if rest < 10 {
            break;
        }
        rest = rest / 10;
    }
    let width: usize = if negative {
        2
    } else {
        3
    };
    let ghost unpadded = text;
    while digits.len() < width
        invariant
            width <= 3,
            digits@.len() == text.len(),
            forall|k: int|
                0 <= k < digits@.len() ==> digits@[k] < 10 && text[text.len() - 1 - k]
                    == digit_char(digits@[k] as int),
            zero_padded(unpadded, width as nat) == zero_padded(text, width as nat),
        decreases width - digits.len(),
    {
        digits.push(0);
        proof {
            let longer = seq!['0'] + text;
            assert forall|k: int| 0 <= k < digits@.len() implies digits@[k] < 10 && longer[longer.len()
                - 1 - k] == digit_char(digits@[k] as int) by {
                if k < digits@.len() - 1 {
                    assert(longer[longer.len() - 1 - k] == text[text.len() - 1 - k]);
                }
            }
            text = longer;
        }
    }
    assert(text == zero_padded(unpadded, width as nat));
    let ghost start = out@;
    if negative {
        proof {
            reveal_strlit("-");
        }
        out.append("-");
        assert(out@ =~= start + seq!['-']);
    }
    let ghost signed = out@;
    let mut left: usize = digits.len();
    while left > 0
        invariant
            left <= digits@.len(),
            digits@.len() == text.len(),
            forall|k: int|
                0 <= k < digits@.len() ==> digits@[k] < 10 && text[text.len() - 1 - k]
                    == digit_char(digits@[k] as int),
            out@ == signed + text.take(text.len() - left),
        decreases left,
    {
        left -= 1;
        out.append(digit_text(digits[left]));
        assert(out@ =~= signed + text.take(text.len() - left)) by {
            assert(text.take(text.len() - left) =~= text.take(text.len() - left - 1).push(
                text[text.len() - 1 - left],
            ));
        }
    }
    assert(text.take(text.len() as int) =~= text);
    assert(out@ =~= old(out)@ + number_text(number as int));
}

/// A level as its author made it: its identity, its size, the tiles that may
/// be placed and the tiles that lie on the board from the start.
#[derive(Clone, Debug)]
pub struct LevelData {
    pub name: String,
    pub number: i32,
    pub w: usize,
    pub h: usize,
    pub tile_choices: Vec<Tile>,
    pub fixed_tiles: Vec<Option<Tile>>,
}

impl LevelData {
    /// The board has at least one cell, and `fixed_tiles` has one entry for
    /// each cell, row by row.
    pub open spec fn wf(&self) -> bool {
        &&& self.w > 0
        &&& self.h > 0
        &&& self.fixed_tiles@.len() == self.w * self.h
    }

    /// Whether the level has the shape that the rest of the library relies on.
    pub fn well_formed(&self) -> (b: bool)
        ensures
            b == self.wf(),
    {
        if self.w == 0 || self.h == 0 {
            return false;
        }
        let cells = self.w.checked_mul(self.h);
        let n = self.fixed_tiles.len();
        match cells {
            Some(cells) => {
                assert(cells == self.w * self.h);
                n == cells
            },
            None => {
                assert(self.w * self.h > usize::MAX);
                false
            },
        }
    }

    /// The board as play starts: a copy of the fixed tiles.
    pub fn fresh_solution(&self) -> (solution: Vec<Option<Tile>>)
        ensures
            solution@ == self.fixed_tiles@,
    {
        let mut solution: Vec<Option<Tile>> = Vec::new();
        let n = self.fixed_tiles.len();
        let mut i: usize = 0;
        while i < n
            invariant
                n == self.fixed_tiles@.len(),
                i <= n,
                solution@ == self.fixed_tiles@.take(i as int),
            decreases n - i,
        {
            solution.push(self.fixed_tiles[i]);
            assert(self.fixed_tiles@.take(i + 1) =~= self.fixed_tiles@.take(i as int).push(
                self.fixed_tiles@[i as int],
            ));
            i += 1;
        }
        assert(self.fixed_tiles@.take(n as int) =~= self.fixed_tiles@);
        solution
    }

    /// Where the level is stored: the directory of the levels, the number in
    /// at least three digits, and the name.
    pub fn file_name(&self) -> (path: String)
        ensures
            path@ == file_name_of(self.number as int, self.name@),
    {
        let mut path = String::from_str("./levels/");
        append_number(&mut path, self.number);
        path.append(" - ");
        path.append(self.name.as_str());
        path.append(".json");
        path
    }

    /// A level with an empty board.
    pub fn new(number: i32, name: String, w: usize, h: usize, tile_choices: Vec<Tile>) -> (level:
        LevelData)
        requires
            w * h <= usize::MAX,
        ensures
            level.name == name,
            level.number == number,
            level.w == w,
            level.h == h,
            level.tile_choices == tile_choices,
            level.fixed_tiles@ == Seq::new((w * h) as nat, |i: int| None::<Tile>),
            level.wf() <==> w > 0 && h > 0,
    {
        let cells = w * h;
        let mut fixed_tiles: Vec<Option<Tile>> = Vec::new();
        let mut i: usize = 0;
        while i < cells
            invariant
                i <= cells,
                fixed_tiles@ == Seq::new(i as nat, |k: int| None::<Tile>),
            decreases cells - i,
        {
            fixed_tiles.push(None);
            i += 1;
            assert(fixed_tiles@ =~= Seq::new(i as nat, |k: int| None::<Tile>));
        }
        LevelData { name, number, w, h, tile_choices, fixed_tiles }
    }
}

/// The state of play on one level.
#[derive(Clone, Debug)]
pub struct Level {
    /// What lies on each cell of the board, row by row.
    pub current_solution: Vec<Option<Tile>>,
    /// The tile that the next placement puts down, as it is turned now.
    pub selected_tile: Tile,
    /// The place in the palette that `selected_tile` was taken from.
    pub selected_tile_idx: usize,
}

} // verus!

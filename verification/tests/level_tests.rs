use wang::kmath::{Color, UNIT};
use wang::level::{accept, rejected_side, Level, LevelData, Side, Tile, TileRotate};

fn red() -> Color {
    Color::new(UNIT, 0, 0)
}

fn black() -> Color {
    Color::new(0, 0, 0)
}

fn green() -> Color {
    Color::new(0, UNIT, 0)
}

fn blue() -> Color {
    Color::new(0, 0, UNIT)
}

#[test]
fn test_level() {
    let r = Color::new(UNIT, 0, 0);
    let b = Color::new(0, 0, 0);
    let plenty_of_tiles = vec![[r, r, b, b], [r, r, r, r], [b, b, b, b]];
    let ld = LevelData::new(69, "test level".to_string(), 4, 4, plenty_of_tiles.clone());
    assert_eq!(ld.number, 69);
    assert_eq!(ld.name, "test level");
    assert_eq!(ld.w, 4);
    assert_eq!(ld.h, 4);
    assert_eq!(ld.tile_choices, plenty_of_tiles);
    assert_eq!(ld.fixed_tiles, vec![None; 16]);
    assert!(ld.well_formed());
    assert_eq!(ld.file_name(), "./levels/069 - test level.json");
}

#[test]
fn rotate_cw_moves_each_edge_on() {
    let t: Tile = [red(), green(), blue(), black()];
    assert_eq!(t.rotate_cw(), [black(), red(), green(), blue()]);
    assert_eq!(t, [red(), green(), blue(), black()]);
}

#[test]
fn rotate_ccw_moves_each_edge_back() {
    let t: Tile = [red(), green(), blue(), black()];
    assert_eq!(t.rotate_ccw(), [green(), blue(), black(), red()]);
}

#[test]
fn four_turns_are_none() {
    let t: Tile = [red(), green(), blue(), black()];
    assert_eq!(t.rotate_cw().rotate_cw().rotate_cw().rotate_cw(), t);
    assert_eq!(t.rotate_ccw().rotate_ccw().rotate_ccw().rotate_ccw(), t);
    assert_ne!(t.rotate_cw().rotate_cw(), t);
}

#[test]
fn a_turn_and_back() {
    let t: Tile = [red(), green(), blue(), black()];
    assert_eq!(t.rotate_cw().rotate_ccw(), t);
    assert_eq!(t.rotate_ccw().rotate_cw(), t);
}

#[test]
fn empty_board_accepts_everything() {
    let tiles: Vec<Option<Tile>> = vec![None; 12];
    let t: Tile = [red(), green(), blue(), black()];
    for idx in 0..12 {
        assert!(accept(4, 3, &tiles, t, idx));
        assert!(accept(3, 4, &tiles, t.rotate_cw(), idx));
        assert_eq!(rejected_side(4, 3, &tiles, t, idx), None);
    }
}

#[test]
fn single_cell_board_accepts_everything() {
    let tiles: Vec<Option<Tile>> = vec![None];
    assert!(accept(1, 1, &tiles, [red(), green(), blue(), black()], 0));
    let tiles: Vec<Option<Tile>> = vec![Some([red(); 4])];
    assert!(accept(1, 1, &tiles, [black(); 4], 0));
}

/// A 3 by 3 board with the cell in the middle empty and one neighbour on
/// `side` whose four edges are `colour`.
fn board_with_neighbour(side: Side, colour: Color) -> Vec<Option<Tile>> {
    let mut tiles: Vec<Option<Tile>> = vec![None; 9];
    let at = match side {
        Side::Left => 3,
        Side::Right => 5,
        Side::Bottom => 7,
        Side::Top => 1,
    };
    tiles[at] = Some([colour; 4]);
    tiles
}

#[test]
fn left_neighbour_must_match_left_edge() {
    let tiles = board_with_neighbour(Side::Left, red());
    assert!(accept(3, 3, &tiles, [black(), black(), black(), red()], 4));
    assert!(!accept(3, 3, &tiles, [red(), red(), red(), black()], 4));
    assert_eq!(
        rejected_side(3, 3, &tiles, [red(), red(), red(), black()], 4),
        Some(Side::Left)
    );
}

#[test]
fn right_neighbour_must_match_right_edge() {
    let tiles = board_with_neighbour(Side::Right, red());
    assert!(accept(3, 3, &tiles, [black(), red(), black(), black()], 4));
    assert!(!accept(3, 3, &tiles, [red(), black(), red(), red()], 4));
    assert_eq!(
        rejected_side(3, 3, &tiles, [red(), black(), red(), red()], 4),
        Some(Side::Right)
    );
}

#[test]
fn bottom_neighbour_must_match_bottom_edge() {
    let tiles = board_with_neighbour(Side::Bottom, red());
    assert!(accept(3, 3, &tiles, [black(), black(), red(), black()], 4));
    assert!(!accept(3, 3, &tiles, [red(), red(), black(), red()], 4));
    assert_eq!(
        rejected_side(3, 3, &tiles, [red(), red(), black(), red()], 4),
        Some(Side::Bottom)
    );
}

#[test]
fn top_neighbour_must_match_top_edge() {
    let tiles = board_with_neighbour(Side::Top, red());
    assert!(accept(3, 3, &tiles, [red(), black(), black(), black()], 4));
    assert!(!accept(3, 3, &tiles, [black(), red(), red(), red()], 4));
    assert_eq!(
        rejected_side(3, 3, &tiles, [black(), red(), red(), red()], 4),
        Some(Side::Top)
    );
}

#[test]
fn neighbour_shows_the_edge_that_faces_the_cell() {
    // The left neighbour's right edge is red, its other edges black.
    let mut tiles: Vec<Option<Tile>> = vec![None; 9];
    tiles[3] = Some([black(), red(), black(), black()]);
    assert!(accept(3, 3, &tiles, [green(), green(), green(), red()], 4));
    assert!(!accept(3, 3, &tiles, [green(), green(), green(), black()], 4));
    // The top neighbour's bottom edge is blue.
    let mut tiles: Vec<Option<Tile>> = vec![None; 9];
    tiles[1] = Some([black(), black(), blue(), black()]);
    assert!(accept(3, 3, &tiles, [blue(), green(), green(), green()], 4));
    assert!(!accept(3, 3, &tiles, [black(), green(), green(), green()], 4));
    // The right neighbour's left edge is blue.
    let mut tiles: Vec<Option<Tile>> = vec![None; 9];
    tiles[5] = Some([black(), black(), black(), blue()]);
    assert!(accept(3, 3, &tiles, [green(), blue(), green(), green()], 4));
    // The bottom neighbour's top edge is blue.
    let mut tiles: Vec<Option<Tile>> = vec![None; 9];
    tiles[7] = Some([blue(), black(), black(), black()]);
    assert!(accept(3, 3, &tiles, [green(), green(), blue(), green()], 4));
}

#[test]
fn the_first_conflict_in_order_is_reported() {
    let mut tiles: Vec<Option<Tile>> = vec![None; 9];
    tiles[1] = Some([red(); 4]);
    tiles[3] = Some([red(); 4]);
    tiles[5] = Some([red(); 4]);
    tiles[7] = Some([red(); 4]);
    let all_black: Tile = [black(); 4];
    assert_eq!(rejected_side(3, 3, &tiles, all_black, 4), Some(Side::Left));
    assert_eq!(
        rejected_side(3, 3, &tiles, [black(), black(), black(), red()], 4),
        Some(Side::Right)
    );
    assert_eq!(
        rejected_side(3, 3, &tiles, [black(), red(), black(), red()], 4),
        Some(Side::Bottom)
    );
    assert_eq!(
        rejected_side(3, 3, &tiles, [black(), red(), red(), red()], 4),
        Some(Side::Top)
    );
    assert_eq!(rejected_side(3, 3, &tiles, [red(); 4], 4), None);
}

#[test]
fn cells_at_the_rim_do_not_look_beyond_it() {
    // 3 by 2 board; the end of one row and the start of the next are no
    // neighbours.
    let mut tiles: Vec<Option<Tile>> = vec![None; 6];
    tiles[2] = Some([red(); 4]);
    assert!(accept(3, 2, &tiles, [black(); 4], 3));
    let mut other: Vec<Option<Tile>> = vec![None; 6];
    other[3] = Some([red(); 4]);
    assert!(accept(3, 2, &other, [black(); 4], 2));
    // The cell below is one.
    assert!(!accept(3, 2, &other, [black(); 4], 0));
    assert_eq!(rejected_side(3, 2, &other, [black(); 4], 0), Some(Side::Bottom));
}

#[test]
fn the_cell_itself_is_not_examined() {
    let mut tiles: Vec<Option<Tile>> = vec![None; 4];
    tiles[0] = Some([red(); 4]);
    assert!(accept(2, 2, &tiles, [black(); 4], 0));
}

#[test]
fn accepted_tile_agrees_with_its_neighbours() {
    let mut tiles: Vec<Option<Tile>> = vec![None; 9];
    tiles[1] = Some([black(), black(), red(), black()]);
    tiles[3] = Some([black(), green(), black(), black()]);
    tiles[5] = Some([black(), black(), black(), blue()]);
    let t: Tile = [red(), blue(), black(), green()];
    assert!(accept(3, 3, &tiles, t, 4));
    tiles[4] = Some(t);
    assert_eq!(tiles[1].unwrap()[2], tiles[4].unwrap()[0]);
    assert_eq!(tiles[3].unwrap()[1], tiles[4].unwrap()[3]);
    assert_eq!(tiles[5].unwrap()[3], tiles[4].unwrap()[1]);
    assert_eq!(tiles[7], None);
}

#[test]
fn new_level_has_an_empty_board() {
    let ld = LevelData::new(1, "a".to_string(), 3, 2, Vec::new());
    assert_eq!(ld.fixed_tiles, vec![None; 6]);
    assert!(ld.tile_choices.is_empty());
    assert!(ld.well_formed());
    let flat = LevelData::new(1, "a".to_string(), 0, 2, Vec::new());
    assert!(flat.fixed_tiles.is_empty());
    assert!(!flat.well_formed());
    let thin = LevelData::new(1, "a".to_string(), 2, 0, Vec::new());
    assert!(!thin.well_formed());
}

#[test]
fn well_formed_wants_one_entry_for_each_cell() {
    let mut ld = LevelData::new(1, "a".to_string(), 3, 2, Vec::new());
    ld.fixed_tiles.pop();
    assert!(!ld.well_formed());
    ld.fixed_tiles.push(Some([red(); 4]));
    assert!(ld.well_formed());
    ld.w = usize::MAX;
    ld.h = 2;
    assert!(!ld.well_formed());
}

#[test]
fn fresh_solution_copies_the_fixed_tiles() {
    let mut ld = LevelData::new(1, "a".to_string(), 2, 2, vec![[red(); 4]]);
    ld.fixed_tiles[1] = Some([red(), green(), blue(), black()]);
    ld.fixed_tiles[2] = Some([black(); 4]);
    let mut solution = ld.fresh_solution();
    assert_eq!(solution, ld.fixed_tiles);
    solution[0] = Some([green(); 4]);
    assert_eq!(ld.fixed_tiles[0], None);
}

#[test]
fn file_name_pads_the_number_to_three_digits() {
    let name = |number: i32| LevelData::new(number, "x".to_string(), 1, 1, Vec::new()).file_name();
    assert_eq!(name(0), "./levels/000 - x.json");
    assert_eq!(name(7), "./levels/007 - x.json");
    assert_eq!(name(42), "./levels/042 - x.json");
    assert_eq!(name(100), "./levels/100 - x.json");
    assert_eq!(name(999), "./levels/999 - x.json");
    assert_eq!(name(1000), "./levels/1000 - x.json");
    assert_eq!(name(i32::MAX), "./levels/2147483647 - x.json");
}

#[test]
fn file_name_of_a_negative_number() {
    let name = |number: i32| LevelData::new(number, "x".to_string(), 1, 1, Vec::new()).file_name();
    assert_eq!(name(-1), format!("./levels/{:03} - x.json", -1));
    assert_eq!(name(-1), "./levels/-01 - x.json");
    assert_eq!(name(-12), "./levels/-12 - x.json");
    assert_eq!(name(-123), "./levels/-123 - x.json");
    assert_eq!(name(i32::MIN), "./levels/-2147483648 - x.json");
}

#[test]
fn file_name_keeps_the_name_as_it_is() {
    let ld = LevelData::new(5, "two words - and a dash".to_string(), 1, 1, Vec::new());
    assert_eq!(ld.file_name(), "./levels/005 - two words - and a dash.json");
    let empty = LevelData::new(5, String::new(), 1, 1, Vec::new());
    assert_eq!(empty.file_name(), "./levels/005 - .json");
}

#[test]
fn level_holds_its_fields() {
    let l = Level {
        current_solution: vec![None, Some([red(); 4])],
        selected_tile: [green(); 4],
        selected_tile_idx: 3,
    };
    assert_eq!(l.current_solution.len(), 2);
    assert_eq!(l.selected_tile, [green(); 4]);
    assert_eq!(l.selected_tile_idx, 3);
}

/// Whether every tile on the board shows, to each filled neighbour, the
/// colour that the neighbour shows to it.
fn all_edges_match(w: usize, h: usize, tiles: &[Option<Tile>]) -> bool {
    for idx in 0..w * h {
        if let Some(t) = tiles[idx] {
            if idx % w + 1 < w {
                if let Some(n) = tiles[idx + 1] {
                    if n[3] != t[1] {
                        return false;
                    }
                }
            }
            if idx / w + 1 < h {
                if let Some(n) = tiles[idx + w] {
                    if n[0] != t[2] {
                        return false;
                    }
                }
            }
        }
    }
    true
}

#[test]
fn accepted_placements_keep_all_edges_matching() {
    let (w, h) = (4, 3);
    let colours = [red(), green(), blue()];
    let mut tiles: Vec<Option<Tile>> = vec![None; w * h];
    let mut placed = 0;
    // Try a fixed round of candidate tiles on every cell, in an order that
    // jumps about the board.
    for step in 0..600usize {
        let idx = (step * 7) % (w * h);
        let t: Tile = [
            colours[step % 3],
            colours[(step / 3) % 3],
            colours[(step / 9) % 3],
            colours[(step / 27) % 3],
        ];
        if accept(w, h, &tiles, t, idx) {
            tiles[idx] = Some(t);
            placed += 1;
            assert!(all_edges_match(w, h, &tiles));
        }
    }
    // Some candidates were placed on cells that held a tile already.
    assert!(placed > w * h);
}

#[test]
fn a_placement_that_was_not_accepted_can_break_an_edge() {
    let mut tiles: Vec<Option<Tile>> = vec![None; 2];
    tiles[0] = Some([red(); 4]);
    assert!(!accept(2, 1, &tiles, [black(); 4], 1));
    tiles[1] = Some([black(); 4]);
    assert!(!all_edges_match(2, 1, &tiles));
}

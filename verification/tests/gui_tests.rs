use wang::gui::{
    calculate_gui, draw_level, DrawCommand, GUIElement, GetClickedGameTile, GetClickedMenuTile,
};
use wang::kmath::{Color, Point, UNIT};
use wang::level::Tile;
use wang::rect::Rect;

fn red() -> Color {
    Color::new(UNIT, 0, 0)
}

fn black() -> Color {
    Color::new(0, 0, 0)
}

#[test]
fn layout_of_two_by_two_with_two_choices() {
    let gui = calculate_gui(2, 2, 2, UNIT, 0);
    assert_eq!(gui.len(), 11);
    assert_eq!(gui[0], (GUIElement::Background, Rect::new(0, 0, 1_000_000, 1_000_000)));
    assert_eq!(gui[1], (GUIElement::Menu, Rect::new(20_000, 20_000, 110_000, 960_000)));
    assert_eq!(gui[2], (GUIElement::Game, Rect::new(150_000, 0, 850_000, 1_000_000)));
    assert_eq!(gui[3], (GUIElement::GameBoard, Rect::new(260_000, 185_000, 630_000, 629_999)));
    assert_eq!(gui[4], (GUIElement::MenuTile(0), Rect::new(22_000, 39_000, 106_000, 105_999)));
    assert_eq!(
        gui[5],
        (GUIElement::SelectionIndicator, Rect::new(20_000, 20_000, 110_000, 144_000))
    );
    assert_eq!(gui[6], (GUIElement::MenuTile(1), Rect::new(22_000, 183_000, 106_000, 105_999)));
    assert_eq!(gui[7], (GUIElement::GameTile(0), Rect::new(260_000, 185_000, 315_000, 314_999)));
    assert_eq!(gui[8], (GUIElement::GameTile(2), Rect::new(260_000, 499_999, 315_000, 314_999)));
    assert_eq!(gui[9], (GUIElement::GameTile(1), Rect::new(575_000, 185_000, 315_000, 314_999)));
    assert_eq!(gui[10], (GUIElement::GameTile(3), Rect::new(575_000, 499_999, 315_000, 314_999)));
}

#[test]
fn menu_pane_and_first_slot() {
    let gui = calculate_gui(2, 2, 2, UNIT, 0);
    let menu = gui[1].1;
    assert_eq!(menu, Rect::new(20_000, 20_000, 110_000, 960_000));
    // The slot of the first tile spans the top 0.15 of the menu pane.
    let slot = menu.child(0, 0, UNIT, 150_000);
    let indicators: Vec<Rect> = gui
        .iter()
        .filter(|(kind, _)| *kind == GUIElement::SelectionIndicator)
        .map(|(_, rect)| *rect)
        .collect();
    assert_eq!(indicators, vec![slot]);
    // The tile itself lies within its slot.
    let tile = gui[4].1;
    assert!(slot.x <= tile.x && tile.x + tile.w <= slot.x + slot.w);
    assert!(slot.y <= tile.y && tile.y + tile.h <= slot.y + slot.h);
    // The second tile is there, and its slot carries no indicator.
    assert_eq!(gui[6].0, GUIElement::MenuTile(1));
    let second_slot = menu.child(0, 150_000, UNIT, 150_000);
    assert!(!indicators.contains(&second_slot));
}

#[test]
fn selecting_the_second_choice_moves_the_indicator() {
    let gui = calculate_gui(2, 2, 2, UNIT, 1);
    assert_eq!(gui.len(), 11);
    assert_eq!(gui[4].0, GUIElement::MenuTile(0));
    assert_eq!(gui[5].0, GUIElement::MenuTile(1));
    assert_eq!(
        gui[6],
        (GUIElement::SelectionIndicator, Rect::new(20_000, 164_000, 110_000, 144_000))
    );
}

#[test]
fn selection_beyond_the_palette_shows_no_indicator() {
    let gui = calculate_gui(2, 2, 2, UNIT, 2);
    assert_eq!(gui.len(), 10);
    assert!(gui.iter().all(|(kind, _)| *kind != GUIElement::SelectionIndicator));
    let gui = calculate_gui(2, 2, 2, UNIT, usize::MAX);
    assert_eq!(gui.len(), 10);
}

#[test]
fn four_by_four_board_has_sixteen_cells() {
    let gui = calculate_gui(0, 4, 4, UNIT, 0);
    let cells: Vec<(usize, Rect)> = gui
        .iter()
        .filter_map(|(kind, rect)| match kind {
            GUIElement::GameTile(i) => Some((*i, *rect)),
            _ => None,
        })
        .collect();
    assert_eq!(cells.len(), 16);
    let board = gui[3].1;
    let mut seen = vec![false; 16];
    let mut k = 0;
    for col in 0..4 {
        for row in 0..4 {
            let (index, rect) = cells[k];
            assert_eq!(index, row * 4 + col);
            assert!(!seen[index]);
            seen[index] = true;
            let q = 250_000;
            assert_eq!(rect, board.child(col as i128 * q, row as i128 * q, q, q));
            k += 1;
        }
    }
    assert!(seen.iter().all(|s| *s));
}

#[test]
fn empty_palette_has_no_menu_tiles() {
    let gui = calculate_gui(0, 2, 3, UNIT, 0);
    assert_eq!(gui.len(), 4 + 6);
    assert_eq!(gui[0].0, GUIElement::Background);
    assert_eq!(gui[1].0, GUIElement::Menu);
    assert_eq!(gui[2].0, GUIElement::Game);
    assert_eq!(gui[3].0, GUIElement::GameBoard);
    assert!(gui.iter().all(|(kind, _)| !matches!(
        kind,
        GUIElement::MenuTile(_) | GUIElement::SelectionIndicator
    )));
}

#[test]
fn board_without_columns_has_no_cells() {
    let gui = calculate_gui(1, 0, 3, UNIT, 0);
    assert_eq!(gui.len(), 4 + 2);
    assert_eq!(gui[3], (GUIElement::GameBoard, Rect::new(575_000, 110_000, 0, 780_000)));
}

#[test]
fn wide_board_takes_the_full_width() {
    let gui = calculate_gui(0, 4, 1, UNIT, 0);
    let board = gui[3].1;
    assert_eq!(board.x, 260_000);
    assert_eq!(board.w, 630_000);
    // Four times as wide as high, up to rounding: the height is 0.201923 of
    // the frame's, and the board starts 0.399038 of it below the frame's top.
    assert_eq!(board.h, 157_499);
    assert_eq!(board.y, 110_000 + 311_249);
}

#[test]
fn tall_board_takes_the_full_height() {
    let gui = calculate_gui(0, 1, 4, UNIT, 0);
    let board = gui[3].1;
    assert_eq!(board.y, 110_000);
    assert_eq!(board.h, 780_000);
    // The width is 0.309523 of the frame's, after 0.345238 of it.
    assert_eq!(board.w, 194_999);
    assert_eq!(board.x, 260_000 + 217_499);
}

#[test]
fn wide_screen_narrows_the_board() {
    // On a screen twice as wide as high a square board is half as wide as
    // high in the unit square.
    let gui = calculate_gui(1, 2, 2, 2 * UNIT, 0);
    let board = gui[3].1;
    assert_eq!(board, Rect::new(379_999, 110_000, 389_999, 780_000));
    let tile = gui[4].1;
    // Half as wide as high: 0.660378 of the shrunk slot's width.
    assert_eq!(tile.h, 140_000);
    assert_eq!(tile.y, 22_000);
    assert_eq!(tile.w, 70_000);
    assert_eq!(tile.x, 22_000 + 17_999);
}

#[test]
fn slots_are_stacked_from_the_top() {
    let gui = calculate_gui(5, 1, 1, UNIT, 4);
    for i in 0..5 {
        let (kind, rect) = gui[4 + i];
        assert_eq!(kind, GUIElement::MenuTile(i));
        assert_eq!(rect, Rect::new(22_000, 39_000 + 144_000 * i as i128, 106_000, 105_999));
    }
    assert_eq!(
        gui[9],
        (GUIElement::SelectionIndicator, Rect::new(20_000, 20_000 + 4 * 144_000, 110_000, 144_000))
    );
}

fn sample_regions() -> Vec<(GUIElement, Rect)> {
    vec![
        (GUIElement::Background, Rect::new(0, 0, 100, 100)),
        (GUIElement::Menu, Rect::new(0, 0, 20, 100)),
        (GUIElement::MenuTile(7), Rect::new(0, 0, 10, 10)),
        (GUIElement::SelectionIndicator, Rect::new(0, 0, 12, 12)),
        (GUIElement::MenuTile(8), Rect::new(0, 10, 10, 10)),
        (GUIElement::GameBoard, Rect::new(20, 0, 80, 100)),
        (GUIElement::GameTile(3), Rect::new(20, 0, 40, 50)),
        (GUIElement::GameTile(4), Rect::new(60, 0, 40, 50)),
    ]
}

#[test]
fn hit_game_tile_skips_other_kinds() {
    let gui = sample_regions();
    assert_eq!(GetClickedGameTile(Point::new(30, 30), &gui), Some(3));
    assert_eq!(GetClickedGameTile(Point::new(70, 30), &gui), Some(4));
    assert_eq!(GetClickedGameTile(Point::new(5, 5), &gui), None);
    assert_eq!(GetClickedGameTile(Point::new(30, 70), &gui), None);
    assert_eq!(GetClickedGameTile(Point::new(200, 200), &gui), None);
}

#[test]
fn hit_menu_tile_skips_other_kinds() {
    let gui = sample_regions();
    assert_eq!(GetClickedMenuTile(Point::new(5, 5), &gui), Some(7));
    assert_eq!(GetClickedMenuTile(Point::new(5, 15), &gui), Some(8));
    assert_eq!(GetClickedMenuTile(Point::new(11, 11), &gui), None);
    assert_eq!(GetClickedMenuTile(Point::new(30, 30), &gui), None);
}

#[test]
fn hit_takes_the_first_match_and_includes_the_rim() {
    let gui = sample_regions();
    // The point lies on the shared rim of the two cells.
    assert_eq!(GetClickedGameTile(Point::new(60, 25), &gui), Some(3));
    assert_eq!(GetClickedGameTile(Point::new(20, 0), &gui), Some(3));
    assert_eq!(GetClickedGameTile(Point::new(100, 50), &gui), Some(4));
    assert_eq!(GetClickedGameTile(Point::new(19, 0), &gui), None);
    assert_eq!(GetClickedGameTile(Point::new(100, 51), &gui), None);
    // Both palette tiles contain the point; the first in the list is taken.
    assert_eq!(GetClickedMenuTile(Point::new(5, 10), &gui), Some(7));
    let mut reversed = gui.clone();
    reversed.reverse();
    assert_eq!(GetClickedMenuTile(Point::new(5, 10), &reversed), Some(8));
    assert_eq!(GetClickedGameTile(Point::new(60, 25), &reversed), Some(4));
}

#[test]
fn hit_on_an_empty_layout() {
    let gui: Vec<(GUIElement, Rect)> = Vec::new();
    assert_eq!(GetClickedGameTile(Point::new(0, 0), &gui), None);
    assert_eq!(GetClickedMenuTile(Point::new(0, 0), &gui), None);
}

#[test]
fn hits_on_a_layout_stay_within_the_level() {
    let gui = calculate_gui(3, 4, 2, UNIT, 1);
    let mut cells = vec![false; 8];
    let mut choices = vec![false; 3];
    let step = 10_000;
    let mut y = 0;
    while y <= UNIT {
        let mut x = 0;
        while x <= UNIT {
            let p = Point::new(x, y);
            if let Some(i) = GetClickedGameTile(p, &gui) {
                assert!(i < 8);
                cells[i] = true;
            }
            if let Some(i) = GetClickedMenuTile(p, &gui) {
                assert!(i < 3);
                choices[i] = true;
            }
            x += step;
        }
        y += step;
    }
    assert!(cells.iter().all(|c| *c));
    assert!(choices.iter().all(|c| *c));
}

#[test]
fn centre_of_a_cell_hits_that_cell() {
    let gui = calculate_gui(2, 3, 3, UNIT, 0);
    for (kind, rect) in gui.iter() {
        if let GUIElement::GameTile(i) = kind {
            assert_eq!(GetClickedGameTile(rect.centroid(), &gui), Some(*i));
        }
        if let GUIElement::MenuTile(i) = kind {
            assert_eq!(GetClickedMenuTile(rect.centroid(), &gui), Some(*i));
        }
    }
}

#[test]
fn draw_level_draws_region_by_region() {
    let reds: Tile = [red(); 4];
    let blacks: Tile = [black(); 4];
    let mixed: Tile = [red(), black(), red(), black()];
    let gui = vec![
        (GUIElement::Background, Rect::new(0, 0, 100, 100)),
        (GUIElement::Menu, Rect::new(0, 0, 20, 100)),
        (GUIElement::Game, Rect::new(20, 0, 80, 100)),
        (GUIElement::GameBoard, Rect::new(20, 0, 80, 100)),
        (GUIElement::MenuTile(0), Rect::new(0, 0, 10, 10)),
        (GUIElement::SelectionIndicator, Rect::new(0, 0, 12, 12)),
        (GUIElement::MenuTile(1), Rect::new(0, 20, 10, 10)),
        (GUIElement::GameTile(0), Rect::new(20, 0, 20, 20)),
        (GUIElement::GameTile(1), Rect::new(50, 0, 20, 20)),
        (GUIElement::GameTile(2), Rect::new(20, 30, 20, 20)),
    ];
    let tiles = vec![Some(reds), Some(blacks), None];
    let fixed = vec![true, false, false];
    let choices = vec![reds, mixed];
    let commands = draw_level(Point::new(90, 90), mixed, &choices, &tiles, &fixed, &gui);
    assert_eq!(
        commands,
        vec![
            DrawCommand::Background(Rect::new(0, 0, 100, 100)),
            DrawCommand::PaletteTile(Rect::new(0, 0, 10, 10), reds),
            DrawCommand::Selection(Rect::new(0, 0, 12, 12)),
            DrawCommand::PaletteTile(Rect::new(0, 20, 10, 10), mixed),
            DrawCommand::FixedTile(Rect::new(20, 0, 20, 20), reds),
            DrawCommand::PlacedTile(Rect::new(50, 0, 20, 20), blacks),
            DrawCommand::EmptyCell(Rect::new(20, 30, 20, 20)),
        ]
    );
}

#[test]
fn draw_level_shows_the_selected_tile_under_the_pointer() {
    let reds: Tile = [red(); 4];
    let blacks: Tile = [black(); 4];
    let gui = vec![
        (GUIElement::GameTile(0), Rect::new(20, 0, 20, 20)),
        (GUIElement::GameTile(1), Rect::new(50, 0, 20, 20)),
        (GUIElement::GameTile(2), Rect::new(20, 30, 20, 20)),
    ];
    let tiles = vec![Some(reds), Some(blacks), None];
    let fixed = vec![true, false, false];
    let choices: Vec<Tile> = Vec::new();
    // Over an empty cell.
    let commands = draw_level(Point::new(30, 40), reds, &choices, &tiles, &fixed, &gui);
    assert_eq!(
        commands,
        vec![
            DrawCommand::FixedTile(Rect::new(20, 0, 20, 20), reds),
            DrawCommand::PlacedTile(Rect::new(50, 0, 20, 20), blacks),
            DrawCommand::EmptyCell(Rect::new(20, 30, 20, 20)),
            DrawCommand::HoverTile(Rect::new(20, 30, 20, 20), reds),
        ]
    );
    // Over a placed tile.
    let commands = draw_level(Point::new(60, 10), reds, &choices, &tiles, &fixed, &gui);
    assert_eq!(
        commands,
        vec![
            DrawCommand::FixedTile(Rect::new(20, 0, 20, 20), reds),
            DrawCommand::PlacedTile(Rect::new(50, 0, 20, 20), blacks),
            DrawCommand::HoverTile(Rect::new(50, 0, 20, 20), reds),
            DrawCommand::EmptyCell(Rect::new(20, 30, 20, 20)),
        ]
    );
    // Over a fixed tile nothing is shown.
    let commands = draw_level(Point::new(30, 10), reds, &choices, &tiles, &fixed, &gui);
    assert_eq!(commands.len(), 3);
    assert!(commands.iter().all(|c| !matches!(c, DrawCommand::HoverTile(_, _))));
}

/// The rectangles of the regions of `gui` that `pick` maps to an index, by
/// that index.
fn rects_by_index(
    gui: &[(GUIElement, Rect)],
    count: usize,
    pick: fn(&GUIElement) -> Option<usize>,
) -> Vec<Rect> {
    let mut rects = vec![Rect::new(0, 0, 0, 0); count];
    for (kind, rect) in gui.iter() {
        if let Some(i) = pick(kind) {
            rects[i] = *rect;
        }
    }
    rects
}

fn cell_index(kind: &GUIElement) -> Option<usize> {
    match kind {
        GUIElement::GameTile(i) => Some(*i),
        _ => None,
    }
}

fn choice_index(kind: &GUIElement) -> Option<usize> {
    match kind {
        GUIElement::MenuTile(i) => Some(*i),
        _ => None,
    }
}

#[test]
fn cells_lie_side_by_side() {
    for (w, h, aspect) in [(5usize, 3usize, 1_333_333i128), (3, 7, 750_000), (7, 7, UNIT)] {
        let gui = calculate_gui(2, w, h, aspect, 0);
        let cells = rects_by_index(&gui, w * h, cell_index);
        for a in 0..w * h {
            for b in 0..w * h {
                let (ra, rb) = (cells[a], cells[b]);
                if a % w < b % w {
                    assert!(ra.x + ra.w <= rb.x);
                }
                if a / w < b / w {
                    assert!(ra.y + ra.h <= rb.y);
                }
            }
        }
    }
}

#[test]
fn cells_lie_within_the_board_and_the_board_within_its_frame() {
    let frame = Rect::new(260_000, 110_000, 630_000, 780_000);
    for (w, h, aspect) in [(5usize, 3usize, 1_333_333i128), (3, 7, 750_000), (1, 1, 3 * UNIT)] {
        let gui = calculate_gui(0, w, h, aspect, 0);
        let board = gui[3].1;
        assert!(frame.x <= board.x && board.x + board.w <= frame.x + frame.w);
        assert!(frame.y <= board.y && board.y + board.h <= frame.y + frame.h);
        assert!(board.w >= 0 && board.h >= 0);
        for rect in rects_by_index(&gui, w * h, cell_index) {
            assert!(board.x <= rect.x && rect.x + rect.w <= board.x + board.w);
            assert!(board.y <= rect.y && rect.y + rect.h <= board.y + board.h);
        }
    }
}

#[test]
fn palette_tiles_share_no_point() {
    for aspect in [UNIT, 1_333_333, 500_000, 4 * UNIT] {
        let gui = calculate_gui(6, 2, 2, aspect, 3);
        let tiles = rects_by_index(&gui, 6, choice_index);
        for i in 0..5 {
            assert!(tiles[i].y + tiles[i].h < tiles[i + 1].y);
            let slot = Rect::new(22_000, 22_000 + 144_000 * i as i128, 106_000, 140_000);
            assert!(slot.x <= tiles[i].x && tiles[i].x + tiles[i].w <= slot.x + slot.w);
            assert!(slot.y <= tiles[i].y && tiles[i].y + tiles[i].h <= slot.y + slot.h);
        }
    }
}

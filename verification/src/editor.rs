//! The commands of the level editor, one to a line.

use vstd::prelude::*;
use crate::kmath::{Color, UNIT};
use crate::level::{lemma_tile_ext, LevelData, Tile};
use crate::text::{count_spelt, parse_count, same_text, split_words, texts, words_of};

verus! {

/// The colour that the letter `code` stands for, where it stands for one.
pub open spec fn colour_named(code: char) -> Option<Color> {
    if code == 'r' {
        Some(Color { r: UNIT, g: 0, b: 0 })
    } else if code == 'g' {
        Some(Color { r: 0, g: UNIT, b: 0 })
    } else if code == 'u' {
        Some(Color { r: 0, g: 0, b: UNIT })
    } else if code == 'b' {
        Some(Color { r: 0, g: 0, b: 0 })
    } else if code == 'w' {
        Some(Color { r: UNIT, g: UNIT, b: UNIT })
    } else if code == 'm' {
        Some(Color { r: UNIT, g: 0, b: UNIT })
    } else if code == 'y' {
        Some(Color { r: UNIT, g: UNIT, b: 0 })
    } else if code == 'c' {
        Some(Color { r: 0, g: UNIT, b: UNIT })
    } else {
        None
    }
}

/// Looks up the colour that a letter stands for.
pub fn colour_of(code: char) -> (colour: Option<Color>)
    ensures
        colour == colour_named(code),
{
    if code == 'r' {
        Some(Color::new(UNIT, 0, 0))
    } else if code == 'g' {
        Some(Color::new(0, UNIT, 0))
    } else if code == 'u' {
        Some(Color::new(0, 0, UNIT))
    } else if code == 'b' {
        Some(Color::new(0, 0, 0))
    } else if code == 'w' {
        Some(Color::new(UNIT, UNIT, UNIT))
    } else if code == 'm' {
        Some(Color::new(UNIT, 0, UNIT))
    } else if code == 'y' {
        Some(Color::new(UNIT, UNIT, 0))
    } else if code == 'c' {
        Some(Color::new(0, UNIT, UNIT))
    } else {
        None
    }
}

/// Whether `code` spells a tile: four letters, each of which stands for a
/// colour.
pub open spec fn spells_tile(code: Seq<char>) -> bool {
    code.len() == 4 && forall|i: int| 0 <= i < 4 ==> colour_named(#[trigger] code[i]) is Some
}

/// The tile whose edges, from the top clockwise, have the colours that the
/// four letters of `code` stand for.
pub fn tile_of(code: &str) -> (tile: Option<Tile>)
    ensures
        tile is Some <==> spells_tile(code@),
        tile matches Some(t) ==> forall|i: int|
            0 <= i < 4 ==> colour_named(#[trigger] code@[i]) == Some(t@[i]),
{
    if code.unicode_len() != 4 {
        return None;
    }
    let top = colour_of(code.get_char(0));
    let right = colour_of(code.get_char(1));
    let bottom = colour_of(code.get_char(2));
    let left = colour_of(code.get_char(3));
    match (top, right, bottom, left) {
        (Some(t), Some(r), Some(b), Some(l)) => Some([t, r, b, l]),
        _ => None,
    }
}

/// Whether two tiles have the same colours on the same edges.
pub fn same_tile(a: &Tile, b: &Tile) -> (same: bool)
    ensures
        same == (*a == *b),
{
    let same = a[0] == b[0] && a[1] == b[1] && a[2] == b[2] && a[3] == b[3];
    proof {
        if same {
            lemma_tile_ext(*a, *b);
        } else {
            assert(a@[0] != b@[0] || a@[1] != b@[1] || a@[2] != b@[2] || a@[3] != b@[3]);
        }
    }
    same
}

/// Whether `at` is the place of the first level in `levels` called `name`.
pub open spec fn first_named(levels: Seq<LevelData>, name: Seq<char>, at: int) -> bool {
    &&& 0 <= at < levels.len()
    &&& levels[at].name@ == name
    &&& forall|k: int| 0 <= k < at ==> (#[trigger] levels[k]).name@ != name
}

/// Whether `at` is the first place in `tiles` that holds `tile`.
pub open spec fn first_tile(tiles: Seq<Tile>, tile: Tile, at: int) -> bool {
    &&& 0 <= at < tiles.len()
    &&& tiles[at] == tile
    &&& forall|k: int| 0 <= k < at ==> #[trigger] tiles[k] != tile
}

/// Finds the first level called `name`.
pub fn find_level(levels: &Vec<LevelData>, name: &str) -> (found: Option<usize>)
    ensures
        found matches Some(at) ==> first_named(levels@, name@, at as int),
        found is None ==> forall|k: int|
            0 <= k < levels@.len() ==> (#[trigger] levels@[k]).name@ != name@,
{
    let n = levels.len();
    let mut i: usize = 0;
    while i < n
        invariant
            i <= n,
            n == levels@.len(),
            forall|k: int| 0 <= k < i ==> (#[trigger] levels@[k]).name@ != name@,
        decreases n - i,
    {
        if same_text(levels[i].name.as_str(), name) {
            return Some(i);
        }
        i += 1;
    }
    None
}

/// Finds the first place in `tiles` that holds `tile`.
pub fn find_tile(tiles: &Vec<Tile>, tile: &Tile) -> (found: Option<usize>)
    ensures
        found matches Some(at) ==> first_tile(tiles@, *tile, at as int),
        found is None ==> forall|k: int| 0 <= k < tiles@.len() ==> #[trigger] tiles@[k] != *tile,
{
    let n = tiles.len();
    let mut i: usize = 0;
    while i < n
        invariant
            i <= n,
            n == tiles@.len(),
            forall|k: int| 0 <= k < i ==> #[trigger] tiles@[k] != *tile,
        decreases n - i,
    {
        if same_tile(&tiles[i], tile) {
            return Some(i);
        }
        i += 1;
    }
    None
}

/// What the editor has to do, or to say, after a command.
#[derive(Clone, Copy, Debug, PartialEq, Eq, Structural)]
pub enum Reply {
    /// The line held no command, or one that is passed over in silence.
    Nothing,
    /// Help was asked for.
    Help,
    /// The level at this place was made or changed: store it.
    Stored(usize),
    /// The palette of the level at this place lacks the tile that was to be
    /// removed. The level is stored all the same.
    TileNotFound(usize),
    /// `new` takes a name, a width and a height.
    WrongArgumentCount,
    /// The width is no count.
    InvalidWidth,
    /// The height is no count.
    InvalidHeight,
    /// The board would have more cells than can be counted.
    BoardTooLarge,
    /// There is no level of that name.
    LevelNotFound,
    /// A letter of the tile stands for no colour.
    BadColour,
    /// The first word names no command.
    InvalidCommand,
}

/// Whether `after` holds the levels of `before` and, behind them, the new
/// level that the words `args` of a `new` command describe: empty, without
/// palette, and with the number 0.
pub open spec fn level_added(
    before: Seq<LevelData>,
    after: Seq<LevelData>,
    args: Seq<Seq<char>>,
) -> bool {
    let w = count_spelt(args[2]).unwrap();
    let h = count_spelt(args[3]).unwrap();
    &&& after.len() == before.len() + 1
    &&& after.take(before.len() as int) == before
    &&& after.last().name@ == args[1]
    &&& after.last().number == 0
    &&& after.last().w == w
    &&& after.last().h == h
    &&& after.last().tile_choices@.len() == 0
    &&& after.last().fixed_tiles@ == Seq::new((w * h) as nat, |i: int| None::<Tile>)
}

/// Whether `after` holds the levels of `before`, but for the palette of the
/// level at place `at`, which is `palette`.
pub open spec fn palette_changed(
    before: Seq<LevelData>,
    after: Seq<LevelData>,
    at: int,
    palette: Seq<Tile>,
) -> bool {
    &&& after.len() == before.len()
    &&& forall|k: int| 0 <= k < before.len() && k != at ==> after[k] == before[k]
    &&& after[at].name == before[at].name
    &&& after[at].number == before[at].number
    &&& after[at].w == before[at].w
    &&& after[at].h == before[at].h
    &&& after[at].fixed_tiles == before[at].fixed_tiles
    &&& after[at].tile_choices@ == palette
}

/// Whether `t` is the tile that `code` spells.
pub open spec fn spelt_by(code: Seq<char>, t: Tile) -> bool {
    forall|i: int| 0 <= i < 4 ==> colour_named(#[trigger] code[i]) == Some(t@[i])
}

/// Whether the `tadd` or `trem` command with the words `args`, which names
/// the level at place `at` and spells `tile`, gives the levels `after` and
/// the reply `reply`.
pub open spec fn palette_edited(
    before: Seq<LevelData>,
    args: Seq<Seq<char>>,
    after: Seq<LevelData>,
    reply: Reply,
    at: int,
    tile: Tile,
) -> bool {
    let palette = before[at].tile_choices@;
    &&& first_named(before, args[1], at)
    &&& spelt_by(args[2], tile)
    &&& if args[0] == "tadd"@ {
        palette_changed(before, after, at, palette.push(tile)) && reply == Reply::Stored(
            at as usize,
        )
    } else if exists|i: int| first_tile(palette, tile, i) {
        let i = choose|i: int| first_tile(palette, tile, i);
        palette_changed(before, after, at, palette.remove(i)) && reply == Reply::Stored(
            at as usize,
        )
    } else {
        after == before && reply == Reply::TileNotFound(at as usize)
    }
}

/// Whether carrying out the command with the words `args` on the levels
/// `before` gives the levels `after` and the reply `reply`.
///
/// `help` changes nothing. `new <name> <width> <height>` adds a level.
/// `tadd <name> <tile>` adds a tile at the end of the palette of the first
/// level of that name, and `trem <name> <tile>` takes the first such tile out
/// of it; both are passed over in silence unless they have two arguments and
/// the tile has four letters. Whatever is refused changes nothing.
pub open spec fn carried_out(
    before: Seq<LevelData>,
    args: Seq<Seq<char>>,
    after: Seq<LevelData>,
    reply: Reply,
) -> bool {
    if args.len() == 0 {
        after == before && reply == Reply::Nothing
    } else if args[0] == "help"@ {
        after == before && reply == Reply::Help
    } else if args[0] == "new"@ {
        if args.len() != 4 {
            after == before && reply == Reply::WrongArgumentCount
        } else if count_spelt(args[2]) is None {
            after == before && reply == Reply::InvalidWidth
        } else if count_spelt(args[3]) is None {
            after == before && reply == Reply::InvalidHeight
        } else if count_spelt(args[2]).unwrap() * count_spelt(args[3]).unwrap() > usize::MAX {
            after == before && reply == Reply::BoardTooLarge
        } else {
            level_added(before, after, args) && reply == Reply::Stored(before.len() as usize)
        }
    } else if args[0] == "tadd"@ || args[0] == "trem"@ {
        if args.len() != 3 {
            after == before && reply == Reply::Nothing
        } else if forall|k: int| 0 <= k < before.len() ==> (#[trigger] before[k]).name@ != args[1] {
            after == before && reply == Reply::LevelNotFound
        } else if args[2].len() != 4 {
            after == before && reply == Reply::Nothing
        } else if !spells_tile(args[2]) {
            after == before && reply == Reply::BadColour
        } else {
            exists|at: int, tile: Tile| palette_edited(before, args, after, reply, at, tile)
        }
    } else {
        after == before && reply == Reply::InvalidCommand
    }
}

/// Carries out the command that `line` holds.
pub fn run_command(levels: &mut Vec<LevelData>, line: &str) -> (reply: Reply)
    ensures
        carried_out(old(levels)@, words_of(line@), final(levels)@, reply),
{
    let args = split_words(line);
    let ghost words = words_of(line@);
    assert(words.len() == args@.len());
    assert(forall|k: int| 0 <= k < args@.len() ==> words[k] == (#[trigger] args@[k])@);
    if args.len() == 0 {
        return Reply::Nothing;
    }
    let command = args[0].as_str();
    if same_text(command, "help") {
        Reply::Help
    } else if same_text(command, "new") {
        if args.len() != 4 {
            return Reply::WrongArgumentCount;
        }
        let w = match parse_count(args[2].as_str()) {
            Some(w) => w,
            None => {
                return Reply::InvalidWidth;
            },
        };
        let h = match parse_count(args[3].as_str()) {
            Some(h) => h,
            None => {
                return Reply::InvalidHeight;
            },
        };
        if w.checked_mul(h).is_none() {
            return Reply::BoardTooLarge;
        }
        let level = LevelData::new(0, args[1].clone(), w, h, Vec::new());
        let at = levels.len();
        levels.push(level);
        assert(levels@.take(at as int) =~= old(levels)@);
        Reply::Stored(at)
    } else if same_text(command, "tadd") || same_text(command, "trem") {
        if args.len() != 3 {
            return Reply::Nothing;
        }
        let at = match find_level(levels, args[1].as_str()) {
            Some(at) => at,
            None => {
                return Reply::LevelNotFound;
            },
        };
        assert(!(forall|k: int|
            0 <= k < levels@.len() ==> (#[trigger] levels@[k]).name@ != words[1])) by {
            assert(levels@[at as int].name@ == words[1]);
        }
        if args[2].as_str().unicode_len() != 4 {
            return Reply::Nothing;
        }
        let tile = match tile_of(args[2].as_str()) {
            Some(tile) => tile,
            None => {
                return Reply::BadColour;
            },
        };
        let ghost palette = levels@[at as int].tile_choices@;
        let reply = if same_text(command, "tadd") {
            levels[at].tile_choices.push(tile);
            Reply::Stored(at)
        } else {
            match find_tile(&levels[at].tile_choices, &tile) {
                Some(i) => {
                    proof {
                        let chosen = choose|k: int| first_tile(palette, tile, k);
                        if chosen < i {
                            assert(palette[chosen] != tile);
                        } else if i < chosen {
                            assert(palette[i as int] != tile);
                        }
                    }
                    levels[at].tile_choices.remove(i);
                    Reply::Stored(at)
                },
                None => {
                    assert(!(exists|k: int| first_tile(palette, tile, k)));
                    Reply::TileNotFound(at)
                },
            }
        };
        assert(palette_edited(old(levels)@, words, levels@, reply, at as int, tile));
        reply
    } else {
        Reply::InvalidCommand
    }
}

} // verus!

//! The session: the levels, the state of play on each, and what a click or a
//! key does to them.

use vstd::prelude::*;
use crate::gui::{
    calculate_gui, draw_commands, draw_level, game_tile_at, indices_within, layout,
    lemma_layout_indices, menu_tile_at, DrawCommand, GUIElement, GetClickedGameTile,
    GetClickedMenuTile,
};
use crate::kmath::{Point, Scalar};
use crate::level::{accept, accepts, rotated_ccw, rotated_cw, Level, LevelData, Tile, TileRotate};
use crate::rect::Rect;

verus! {

/// A key that the session reacts to.
#[derive(Clone, Copy, Debug, PartialEq, Eq, Structural)]
pub enum Key {
    /// Go on to the next level.
    M,
    /// Go back to the level before.
    N,
    /// Turn the selected tile counter-clockwise.
    Q,
    /// Turn the selected tile clockwise.
    E,
    /// Switch between playing and editing.
    P,
    /// Save the current level.
    S,
    /// Any other key.
    Other,
}

/// What is left for the caller to do after a key press.
#[derive(Clone, Copy, Debug, PartialEq, Eq, Structural)]
pub enum KeyEffect {
    /// Nothing.
    Nothing,
    /// A level was selected: announce the current level.
    LevelSelected,
    /// Editing was switched on.
    EditingOn,
    /// Editing was switched off.
    EditingOff,
    /// Store the current level.
    SaveLevel,
    /// The level is not stored, because editing is off.
    SaveRefused,
}

/// The board after a primary click that hit cell `hit`: in edit mode the
/// selected tile lies on the cell, in play mode only if it was accepted.
pub open spec fn solution_after_primary(
    editing: bool,
    w: int,
    h: int,
    solution: Seq<Option<Tile>>,
    selected: Tile,
    hit: Option<usize>,
) -> Seq<Option<Tile>> {
    match hit {
        Some(idx) => if editing || accepts(w, h, solution, selected, idx as int) {
            solution.update(idx as int, Some(selected))
        } else {
            solution
        },
        None => solution,
    }
}

/// The fixed tiles after a primary click that hit cell `hit`: edit mode fixes
/// the selected tile on the cell, play mode fixes nothing.
pub open spec fn fixed_after_primary(
    editing: bool,
    fixed: Seq<Option<Tile>>,
    selected: Tile,
    hit: Option<usize>,
) -> Seq<Option<Tile>> {
    match hit {
        Some(idx) => if editing {
            fixed.update(idx as int, Some(selected))
        } else {
            fixed
        },
        None => fixed,
    }
}

/// The board after a secondary click that hit cell `hit`: the cell is
/// cleared, except in play mode where a tile is fixed on it.
pub open spec fn solution_after_secondary(
    editing: bool,
    solution: Seq<Option<Tile>>,
    fixed: Seq<Option<Tile>>,
    hit: Option<usize>,
) -> Seq<Option<Tile>> {
    match hit {
        Some(idx) => if editing || fixed[idx as int] is None {
            solution.update(idx as int, None)
        } else {
            solution
        },
        None => solution,
    }
}

/// The fixed tiles after a secondary click that hit cell `hit`: edit mode
/// frees the cell, play mode frees nothing.
pub open spec fn fixed_after_secondary(
    editing: bool,
    fixed: Seq<Option<Tile>>,
    hit: Option<usize>,
) -> Seq<Option<Tile>> {
    match hit {
        Some(idx) => if editing {
            fixed.update(idx as int, None)
        } else {
            fixed
        },
        None => fixed,
    }
}

/// Which cells of a board hold a fixed tile.
pub open spec fn fixed_flags(fixed_tiles: Seq<Option<Tile>>) -> Seq<bool> {
    Seq::new(fixed_tiles.len(), |i: int| fixed_tiles[i] is Some)
}

/// The session. `levels[i]` is the state of play on `level_datas[i]`.
pub struct Application {
    pub level_datas: Vec<LevelData>,
    pub levels: Vec<Level>,
    /// The level that is shown and played.
    pub current_level: usize,
    /// Whether clicks edit the level rather than play it.
    pub editing: bool,
    /// The layout of the frame that was drawn last, against which clicks are
    /// resolved. It is empty until a frame of the current level was drawn.
    pub frame_gui: Vec<(GUIElement, Rect)>,
}

impl Application {
    /// There is a current level; every level is well-formed and has a board
    /// of its size; and the layout names only palette tiles and cells that the
    /// current level has.
    pub open spec fn wf(&self) -> bool {
        &&& self.level_datas@.len() == self.levels@.len()
        &&& self.current_level < self.levels@.len()
        &&& forall|i: int|
            0 <= i < self.levels@.len() ==> (#[trigger] self.level_datas@[i]).wf()
                && self.levels@[i].current_solution@.len() == self.level_datas@[i].fixed_tiles@.len()
        &&& indices_within(
            self.frame_gui@,
            self.current_data().tile_choices@.len() as int,
            self.current_data().fixed_tiles@.len() as int,
        )
    }

    /// The level that is shown.
    pub open spec fn current_data(&self) -> LevelData {
        self.level_datas@[self.current_level as int]
    }

    /// The state of play on the level that is shown.
    pub open spec fn current(&self) -> Level {
        self.levels@[self.current_level as int]
    }

    /// Whether `self` differs from `before` at most in the level with index
    /// `idx`, in the state of play on it, and in the layout.
    pub open spec fn same_except_level(&self, before: &Application, idx: int) -> bool {
        &&& self.level_datas@.len() == before.level_datas@.len()
        &&& self.levels@.len() == before.levels@.len()
        &&& self.editing == before.editing
        &&& forall|i: int|
            0 <= i < self.level_datas@.len() && i != idx ==> self.level_datas@[i]
                == before.level_datas@[i]
        &&& forall|i: int|
            0 <= i < self.levels@.len() && i != idx ==> self.levels@[i] == before.levels@[i]
    }

    /// Whether the current level of `self` has the identity, the size and the
    /// palette that it has in `before`.
    pub open spec fn same_palette(&self, before: &Application) -> bool {
        &&& self.current_level == before.current_level
        &&& self.current_data().name == before.current_data().name
        &&& self.current_data().number == before.current_data().number
        &&& self.current_data().w == before.current_data().w
        &&& self.current_data().h == before.current_data().h
        &&& self.current_data().tile_choices == before.current_data().tile_choices
    }

    /// Starts a session on `level_datas`: the first level is shown, in play
    /// mode; on every level the board holds the fixed tiles and the first
    /// palette tile is selected.
    pub fn new(level_datas: Vec<LevelData>) -> (app: Application)
        requires
            forall|i: int|
                0 <= i < level_datas@.len() ==> (#[trigger] level_datas@[i]).tile_choices@.len()
                    > 0,
        ensures
            app.level_datas == level_datas,
            app.levels@.len() == level_datas@.len(),
            forall|i: int|
                0 <= i < level_datas@.len() ==> {
                    &&& (#[trigger] app.levels@[i]).current_solution@
                        == level_datas@[i].fixed_tiles@
                    &&& app.levels@[i].selected_tile == level_datas@[i].tile_choices@[0]
                    &&& app.levels@[i].selected_tile_idx == 0
                },
            app.current_level == 0,
            !app.editing,
            app.frame_gui@.len() == 0,
            app.wf() <==> level_datas@.len() > 0 && forall|i: int|
                0 <= i < level_datas@.len() ==> (#[trigger] level_datas@[i]).wf(),
    {
        let mut levels: Vec<Level> = Vec::new();
        let n = level_datas.len();
        let mut i: usize = 0;
        while i < n
            invariant
                i <= n,
                n == level_datas@.len(),
                levels@.len() == i,
                forall|k: int|
                    0 <= k < level_datas@.len() ==> (#[trigger] level_datas@[k]).tile_choices@.len()
                        > 0,
                forall|k: int|
                    0 <= k < i ==> {
                        &&& (#[trigger] levels@[k]).current_solution@
                            == level_datas@[k].fixed_tiles@
                        &&& levels@[k].selected_tile == level_datas@[k].tile_choices@[0]
                        &&& levels@[k].selected_tile_idx == 0
                    },
            decreases n - i,
        {
            let ld = &level_datas[i];
            levels.push(
                Level {
                    current_solution: ld.fresh_solution(),
                    selected_tile: ld.tile_choices[0],
                    selected_tile_idx: 0,
                },
            );
            i += 1;
        }
        Application {
            level_datas,
            levels,
            current_level: 0,
            editing: false,
            frame_gui: Vec::new(),
        }
    }

    /// Lays out the current level for a screen that is `aspect_ratio` times
    /// as wide as high, keeps the layout for the clicks to come, and returns
    /// the commands that draw the frame with the pointer at `cursor_pos`.
    pub fn draw(&mut self, aspect_ratio: Scalar, cursor_pos: Point) -> (commands: Vec<DrawCommand>)
        requires
            old(self).wf(),
            aspect_ratio > 0,
        ensures
            final(self).wf(),
            final(self).level_datas == old(self).level_datas,
            final(self).levels == old(self).levels,
            final(self).current_level == old(self).current_level,
            final(self).editing == old(self).editing,
            final(self).frame_gui@ == layout(
                old(self).current_data().tile_choices@.len() as int,
                old(self).current_data().w as int,
                old(self).current_data().h as int,
                aspect_ratio,
                old(self).current().selected_tile_idx as int,
            ),
            commands@ == draw_commands(
                final(self).frame_gui@,
                final(self).frame_gui@.len(),
                game_tile_at(final(self).frame_gui@, cursor_pos),
                old(self).current().selected_tile,
                old(self).current_data().tile_choices@,
                old(self).current().current_solution@,
                fixed_flags(old(self).current_data().fixed_tiles@),
            ),
    {
        let cur = self.current_level;
        let cells = self.level_datas[cur].fixed_tiles.len();
        assert(self.level_datas@[cur as int].w * self.level_datas@[cur as int].h == cells);
        let gui = calculate_gui(
            self.level_datas[cur].tile_choices.len(),
            self.level_datas[cur].w,
            self.level_datas[cur].h,
            aspect_ratio,
            self.levels[cur].selected_tile_idx,
        );
        proof {
            lemma_layout_indices(
                self.level_datas[cur as int].tile_choices@.len() as int,
                self.level_datas[cur as int].w as int,
                self.level_datas[cur as int].h as int,
                aspect_ratio,
                self.levels[cur as int].selected_tile_idx as int,
            );
        }
        self.frame_gui = gui;

        let ld = &self.level_datas[cur];
        let l = &self.levels[cur];
        let mut fixed: Vec<bool> = Vec::new();
        let n = ld.fixed_tiles.len();
        let mut i: usize = 0;
        while i < n
            invariant
                i <= n,
                n == ld.fixed_tiles@.len(),
                fixed@ == fixed_flags(ld.fixed_tiles@.take(i as int)),
            decreases n - i,
        {
            fixed.push(ld.fixed_tiles[i].is_some());
            i += 1;
            assert(fixed@ =~= fixed_flags(ld.fixed_tiles@.take(i as int)));
        }
        assert(ld.fixed_tiles@.take(n as int) =~= ld.fixed_tiles@);
        draw_level(
            cursor_pos,
            l.selected_tile,
            ld.tile_choices.as_slice(),
            l.current_solution.as_slice(),
            fixed.as_slice(),
            self.frame_gui.as_slice(),
        )
    }

    /// A primary click at `p`. On a board cell it places the selected tile:
    /// always in edit mode, which fixes the tile there too; in play mode only
    /// where the tile is accepted. On a palette tile it selects that tile, as
    /// the palette has it.
    pub fn lmb(&mut self, p: Point)
        requires
            old(self).wf(),
        ensures
            final(self).wf(),
            final(self).same_except_level(old(self), old(self).current_level as int),
            final(self).same_palette(old(self)),
            final(self).frame_gui == old(self).frame_gui,
            final(self).current().current_solution@ == solution_after_primary(
                old(self).editing,
                old(self).current_data().w as int,
                old(self).current_data().h as int,
                old(self).current().current_solution@,
                old(self).current().selected_tile,
                game_tile_at(old(self).frame_gui@, p),
            ),
            final(self).current_data().fixed_tiles@ == fixed_after_primary(
                old(self).editing,
                old(self).current_data().fixed_tiles@,
                old(self).current().selected_tile,
                game_tile_at(old(self).frame_gui@, p),
            ),
            match menu_tile_at(old(self).frame_gui@, p) {
                Some(choice) => {
                    &&& final(self).current().selected_tile_idx == choice
                    &&& final(self).current().selected_tile
                        == old(self).current_data().tile_choices@[choice as int]
                },
                None => {
                    &&& final(self).current().selected_tile_idx
                        == old(self).current().selected_tile_idx
                    &&& final(self).current().selected_tile == old(self).current().selected_tile
                },
            },
            !old(self).editing && (game_tile_at(old(self).frame_gui@, p) matches Some(idx)
                && !accepts(
                old(self).current_data().w as int,
                old(self).current_data().h as int,
                old(self).current().current_solution@,
                old(self).current().selected_tile,
                idx as int,
            )) ==> final(self).current().current_solution@ == old(self).current().current_solution@,
    {
        let cur = self.current_level;
        if let Some(idx) = GetClickedGameTile(p, self.frame_gui.as_slice()) {
            let tile = self.levels[cur].selected_tile;
            if self.editing {
                self.levels[cur].current_solution[idx] = Some(tile);
                self.level_datas[cur].fixed_tiles[idx] = Some(tile);
            } else {
                let ok = accept(
                    self.level_datas[cur].w,
                    self.level_datas[cur].h,
                    &self.levels[cur].current_solution,
                    tile,
                    idx,
                );
                if ok {
                    self.levels[cur].current_solution[idx] = Some(tile);
                }
            }
        }
        if let Some(idx) = GetClickedMenuTile(p, &self.frame_gui) {
            self.levels[cur].selected_tile_idx = idx;
            self.levels[cur].selected_tile = self.level_datas[cur].tile_choices[idx];
        }
    }

    /// A secondary click at `p`. On a board cell it takes the tile away: in
    /// edit mode always, from the fixed tiles too; in play mode only where no
    /// tile is fixed on the cell.
    pub fn rmb(&mut self, p: Point)
        requires
            old(self).wf(),
        ensures
            final(self).wf(),
            final(self).same_except_level(old(self), old(self).current_level as int),
            final(self).same_palette(old(self)),
            final(self).frame_gui == old(self).frame_gui,
            final(self).current().selected_tile == old(self).current().selected_tile,
            final(self).current().selected_tile_idx == old(self).current().selected_tile_idx,
            final(self).current().current_solution@ == solution_after_secondary(
                old(self).editing,
                old(self).current().current_solution@,
                old(self).current_data().fixed_tiles@,
                game_tile_at(old(self).frame_gui@, p),
            ),
            final(self).current_data().fixed_tiles@ == fixed_after_secondary(
                old(self).editing,
                old(self).current_data().fixed_tiles@,
                game_tile_at(old(self).frame_gui@, p),
            ),
            !old(self).editing && (game_tile_at(old(self).frame_gui@, p) matches Some(idx)
                && old(self).current_data().fixed_tiles@[idx as int] is Some) ==> {
                &&& final(self).current().current_solution@
                    == old(self).current().current_solution@
                &&& final(self).current_data().fixed_tiles@
                    == old(self).current_data().fixed_tiles@
            },
            old(self).editing ==> (game_tile_at(old(self).frame_gui@, p) matches Some(idx) ==> {
                &&& final(self).current().current_solution@[idx as int] is None
                &&& final(self).current_data().fixed_tiles@[idx as int] is None
            }),
    {
        let cur = self.current_level;
        if let Some(idx) = GetClickedGameTile(p, self.frame_gui.as_slice()) {
            if self.editing {
                self.levels[cur].current_solution[idx] = None;
                self.level_datas[cur].fixed_tiles[idx] = None;
            } else {
                if self.level_datas[cur].fixed_tiles[idx].is_none() {
                    self.levels[cur].current_solution[idx] = None;
                }
            }
        }
    }

    /// Shows level `idx` and starts it afresh: its board holds the fixed
    /// tiles again, whatever was placed on it before. The layout is dropped,
    /// since it belongs to the level that was shown.
    pub fn select_level(&mut self, idx: usize)
        requires
            old(self).wf(),
            idx < old(self).levels@.len(),
        ensures
            final(self).wf(),
            final(self).current_level == idx,
            final(self).level_datas == old(self).level_datas,
            final(self).same_except_level(old(self), idx as int),
            final(self).current().current_solution@ == old(self).level_datas@[idx as int].fixed_tiles@,
            final(self).current().selected_tile == old(self).levels@[idx as int].selected_tile,
            final(self).current().selected_tile_idx == old(self).levels@[idx as int].selected_tile_idx,
            final(self).frame_gui@.len() == 0,
    {
        self.current_level = idx;
        let fresh = self.level_datas[idx].fresh_solution();
        self.levels[idx].current_solution = fresh;
        self.frame_gui = Vec::new();
    }

    /// Replaces the selected tile by itself turned a quarter clockwise. The
    /// palette keeps the tile as it was.
    pub fn rotate_selected_cw(&mut self)
        requires
            old(self).wf(),
        ensures
            final(self).wf(),
            final(self).level_datas == old(self).level_datas,
            final(self).same_except_level(old(self), old(self).current_level as int),
            final(self).current_level == old(self).current_level,
            final(self).frame_gui == old(self).frame_gui,
            final(self).current().current_solution == old(self).current().current_solution,
            final(self).current().selected_tile_idx == old(self).current().selected_tile_idx,
            final(self).current().selected_tile@ == rotated_cw(old(self).current().selected_tile@),
    {
        let cur = self.current_level;
        let turned = self.levels[cur].selected_tile.rotate_cw();
        self.levels[cur].selected_tile = turned;
    }

    /// Replaces the selected tile by itself turned a quarter
    /// counter-clockwise. The palette keeps the tile as it was.
    pub fn rotate_selected_ccw(&mut self)
        requires
            old(self).wf(),
        ensures
            final(self).wf(),
            final(self).level_datas == old(self).level_datas,
            final(self).same_except_level(old(self), old(self).current_level as int),
            final(self).current_level == old(self).current_level,
            final(self).frame_gui == old(self).frame_gui,
            final(self).current().current_solution == old(self).current().current_solution,
            final(self).current().selected_tile_idx == old(self).current().selected_tile_idx,
            final(self).current().selected_tile@ == rotated_ccw(old(self).current().selected_tile@),
    {
        let cur = self.current_level;
        let turned = self.levels[cur].selected_tile.rotate_ccw();
        self.levels[cur].selected_tile = turned;
    }

    /// The level that `key` leads to from level `current` of `count`: the
    /// next one for `M` and the one before for `N`, as far as there is one.
    pub open spec fn level_after(key: Key, current: int, count: int) -> int {
        match key {
            Key::M => if current + 1 < count {
                current + 1
            } else {
                current
            },
            Key::N => if current > 0 {
                current - 1
            } else {
                current
            },
            _ => current,
        }
    }

    /// What is left for the caller to do after `key`.
    pub open spec fn effect_of(key: Key, editing: bool) -> KeyEffect {
        match key {
            Key::M => KeyEffect::LevelSelected,
            Key::N => KeyEffect::LevelSelected,
            Key::Q => KeyEffect::Nothing,
            Key::E => KeyEffect::Nothing,
            Key::P => if editing {
                KeyEffect::EditingOff
            } else {
                KeyEffect::EditingOn
            },
            Key::S => if editing {
                KeyEffect::SaveLevel
            } else {
                KeyEffect::SaveRefused
            },
            Key::Other => KeyEffect::Nothing,
        }
    }

    /// Reacts to a key. `M` and `N` select the next level and the one before,
    /// `Q` and `E` turn the selected tile, `P` switches between playing and
    /// editing, and `S` asks for the current level to be stored, which only
    /// edit mode grants. Other keys do nothing.
    pub fn key_press(&mut self, key: Key) -> (effect: KeyEffect)
        requires
            old(self).wf(),
        ensures
            final(self).wf(),
            effect == Self::effect_of(key, old(self).editing),
            final(self).level_datas == old(self).level_datas,
            final(self).levels@.len() == old(self).levels@.len(),
            final(self).current_level == Self::level_after(
                key,
                old(self).current_level as int,
                old(self).levels@.len() as int,
            ),
            final(self).editing == (if key == Key::P {
                !old(self).editing
            } else {
                old(self).editing
            }),
            forall|i: int|
                0 <= i < final(self).levels@.len() && i != final(self).current_level
                    ==> final(self).levels@[i] == old(self).levels@[i],
            final(self).current().selected_tile_idx
                == old(self).levels@[final(self).current_level as int].selected_tile_idx,
            final(self).current().selected_tile@ == (match key {
                Key::Q => rotated_ccw(old(self).current().selected_tile@),
                Key::E => rotated_cw(old(self).current().selected_tile@),
                _ => old(self).levels@[final(self).current_level as int].selected_tile@,
            }),
            final(self).current().current_solution@ == (if key == Key::M || key == Key::N {
                final(self).current_data().fixed_tiles@
            } else {
                old(self).current().current_solution@
            }),
            if key == Key::M || key == Key::N {
                final(self).frame_gui@.len() == 0
            } else {
                final(self).frame_gui == old(self).frame_gui
            },
    {
        match key {
            Key::M => {
                let next = if self.current_level < self.levels.len() - 1 {
                    self.current_level + 1
                } else {
                    self.current_level
                };
                self.select_level(next);
                KeyEffect::LevelSelected
            },
            Key::N => {
                let previous = if self.current_level > 0 {
                    self.current_level - 1
                } else {
                    self.current_level
                };
                self.select_level(previous);
                KeyEffect::LevelSelected
            },
            Key::Q => {
                self.rotate_selected_ccw();
                KeyEffect::Nothing
            },
            Key::E => {
                self.rotate_selected_cw();
                KeyEffect::Nothing
            },
            Key::P => {
                if self.editing {
                    self.editing = false;
                    KeyEffect::EditingOff
                } else {
                    self.editing = true;
                    KeyEffect::EditingOn
                }
            },
            Key::S => {
                if self.editing {
                    KeyEffect::SaveLevel
                } else {
                    KeyEffect::SaveRefused
                }
            },
            Key::Other => KeyEffect::Nothing,
        }
    }
}

} // verus!

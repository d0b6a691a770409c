use vstd::prelude::*;

use crate::bonuses::{LetterBonus, WordBonus, letter_factor, word_factor};
use crate::smove::{Direction, Move};
use crate::spot::Spot;
use crate::tile::{bind_tile, tile_value, Tile};
use vstd::string::StrSliceExecFns;

verus! {

/// The board we are playing on: a 15 by 15 grid of `Spot`, stored row by
/// row, so cell `(x, y)` lives at flat index `y * 15 + x`.  The ordinate 0
/// is the top row, the abscissa 0 the leftmost column.
pub struct Board {
    spots: Vec<Spot>,
}

impl View for Board {
    type V = Seq<Spot>;

    closed spec fn view(&self) -> Seq<Spot> {
        self.spots@
    }
}

/// Flat index of cell `(x, y)`.
pub open spec fn cell_index(x: int, y: int) -> int {
    y * 15 + x
}

/// Whether `(x, y)` lies on the board.
pub open spec fn on_board(x: int, y: int) -> bool {
    0 <= x < 15 && 0 <= y < 15
}

/// Cells carrying a triple-word bonus in the standard layout.
pub open spec fn is_triple_word(i: int) -> bool {
    i == 0 || i == 7 || i == 14 || i == 105 || i == 119 || i == 210 || i == 217 || i == 224
}

/// Cells carrying a double-word bonus in the standard layout.
pub open spec fn is_double_word(i: int) -> bool {
    i == 16 || i == 28 || i == 32 || i == 42 || i == 48 || i == 56 || i == 64 || i == 70
        || i == 112 || i == 154 || i == 160 || i == 168 || i == 176 || i == 182 || i == 192
        || i == 196 || i == 208
}

/// Cells carrying a triple-letter bonus in the standard layout.
pub open spec fn is_triple_letter(i: int) -> bool {
    i == 20 || i == 24 || i == 76 || i == 80 || i == 84 || i == 88 || i == 136 || i == 140
        || i == 144 || i == 148 || i == 200 || i == 204
}

/// Cells carrying a double-letter bonus in the standard layout.
pub open spec fn is_double_letter(i: int) -> bool {
    i == 3 || i == 11 || i == 36 || i == 38 || i == 45 || i == 52 || i == 59 || i == 92
        || i == 96 || i == 98 || i == 102 || i == 108 || i == 116 || i == 122 || i == 126
        || i == 128 || i == 132 || i == 165 || i == 172 || i == 179 || i == 186 || i == 188
        || i == 213 || i == 221
}

/// Word bonus of flat cell `i` in the standard layout.
pub open spec fn standard_word_bonus(i: int) -> WordBonus {
    if is_triple_word(i) {
        WordBonus::Triple
    } else if is_double_word(i) {
        WordBonus::Double
    } else {
        WordBonus::Plain
    }
}

/// Letter bonus of flat cell `i` in the standard layout.
pub open spec fn standard_letter_bonus(i: int) -> LetterBonus {
    if is_triple_letter(i) {
        LetterBonus::Triple
    } else if is_double_letter(i) {
        LetterBonus::Double
    } else {
        LetterBonus::Plain
    }
}

/// Word bonus of flat cell `i`, executable form of `standard_word_bonus`.
fn word_bonus_for(i: usize) -> (b: WordBonus)
    ensures
        b == standard_word_bonus(i as int),
{
    if i == 0 || i == 7 || i == 14 || i == 105 || i == 119 || i == 210 || i == 217 || i == 224 {
        WordBonus::Triple
    } else if i == 16 || i == 28 || i == 32 || i == 42 || i == 48 || i == 56 || i == 64 || i == 70
        || i == 112 || i == 154 || i == 160 || i == 168 || i == 176 || i == 182 || i == 192
        || i == 196 || i == 208 {
        WordBonus::Double
    } else {
        WordBonus::Plain
    }
}

/// Letter bonus of flat cell `i`, executable form of `standard_letter_bonus`.
fn letter_bonus_for(i: usize) -> (b: LetterBonus)
    ensures
        b == standard_letter_bonus(i as int),
{
    if i == 20 || i == 24 || i == 76 || i == 80 || i == 84 || i == 88 || i == 136 || i == 140
        || i == 144 || i == 148 || i == 200 || i == 204 {
        LetterBonus::Triple
    } else if i == 3 || i == 11 || i == 36 || i == 38 || i == 45 || i == 52 || i == 59 || i == 92
        || i == 96 || i == 98 || i == 102 || i == 108 || i == 116 || i == 122 || i == 126
        || i == 128 || i == 132 || i == 165 || i == 172 || i == 179 || i == 186 || i == 188
        || i == 213 || i == 221 {
        LetterBonus::Double
    } else {
        LetterBonus::Plain
    }
}

/// Column step of one path cell to the next.
pub open spec fn step_x(d: Direction) -> int {
    match d {
        Direction::Horizontal => 1,
        Direction::Vertical => 0,
    }
}

/// Row step of one path cell to the next.
pub open spec fn step_y(d: Direction) -> int {
    match d {
        Direction::Horizontal => 0,
        Direction::Vertical => 1,
    }
}

/// Column of the `k`-th cell of the move's path.
pub open spec fn path_x(mv: Move, k: int) -> int {
    mv.x + k * step_x(mv.direction)
}

/// Row of the `k`-th cell of the move's path.
pub open spec fn path_y(mv: Move, k: int) -> int {
    mv.y + k * step_y(mv.direction)
}

/// Whether the move's whole path stays on the board: the anchor is on the
/// board and the word does not extend past the last column (horizontal)
/// or the last row (vertical).
pub open spec fn move_fits(mv: Move) -> bool {
    &&& mv.x < 15
    &&& mv.y < 15
    &&& match mv.direction {
        Direction::Horizontal => mv.x + mv.word@.len() <= 15,
        Direction::Vertical => mv.y + mv.word@.len() <= 15,
    }
}

impl Board {
    /// A board value is well formed when it holds exactly the 225 cells.
    pub open spec fn wf(self) -> bool {
        self@.len() == 225
    }

    /// The spot at cell `(x, y)`.
    pub open spec fn spot_at(self, x: int, y: int) -> Spot
        recommends
            self.wf(),
            on_board(x, y),
    {
        self@[cell_index(x, y)]
    }

    /// The tile at `(x, y)`, `None` off the board or on an empty cell.
    pub open spec fn tile_at(self, x: int, y: int) -> Option<Tile> {
        if on_board(x, y) {
            self.spot_at(x, y).tile
        } else {
            None
        }
    }

    /// The letter shown at `(x, y)`, `None` off the board or on an empty cell.
    pub open spec fn letter_at(self, x: int, y: int) -> Option<char> {
        match self.tile_at(x, y) {
            Some(t) => Some(t.letter),
            None => None,
        }
    }

    /// Create a new, empty board with the standard bonus layout.
    pub fn new() -> (b: Board)
        ensures
            b.wf(),
            forall|i: int|
                0 <= i < 225 ==> {
                    &&& (#[trigger] b@[i]).tile is None
                    &&& b@[i].bonus_letter == standard_letter_bonus(i)
                    &&& b@[i].bonus_word == standard_word_bonus(i)
                },
    {
        let mut spots: Vec<Spot> = Vec::new();
        for i in 0..225
            invariant
                spots@.len() == i,
                forall|j: int|
                    0 <= j < i ==> {
                        &&& (#[trigger] spots@[j]).tile is None
                        &&& spots@[j].bonus_letter == standard_letter_bonus(j)
                        &&& spots@[j].bonus_word == standard_word_bonus(j)
                    },
        {
            let spot = Spot {
                tile: None,
                bonus_letter: letter_bonus_for(i),
                bonus_word: word_bonus_for(i),
            };
            spots.push(spot);
        }
        Board { spots }
    }

    /// Reference to the spot at `(x, y)`.
    fn get_spot(&self, x: u8, y: u8) -> (s: &Spot)
        requires
            self.wf(),
            x < 15,
            y < 15,
        ensures
            *s == self.spot_at(x as int, y as int),
    {
        &self.spots[(y as usize) * 15 + (x as usize)]
    }

    /// The letter at position (`x`, `y`), or `None` when the position is
    /// off the board or the cell holds no tile.
    pub fn get_letter(&self, x: u8, y: u8) -> (r: Option<char>)
        requires
            self.wf(),
        ensures
            r == self.letter_at(x as int, y as int),
    {
        if x >= 15 || y >= 15 {
            return None;
        }
        let spot = self.get_spot(x, y);
        match &spot.tile {
            None => None,
            Some(t) => Some(t.letter()),
        }
    }

    /// A copy of the optional tile at position (`x`, `y`), or `None` when
    /// the position is off the board or the cell holds no tile.
    pub fn get_tile(&self, x: u8, y: u8) -> (r: Option<Tile>)
        requires
            self.wf(),
        ensures
            r == self.tile_at(x as int, y as int),
    {
        if x >= 15 || y >= 15 {
            return None;
        }
        let spot = self.get_spot(x, y);
        spot.tile
    }

    /// Walk of the move's path: whether the board letters already on it are
    /// consistent with the word (empty cells impose no constraint).
    pub open spec fn path_consistent(self, mv: Move) -> bool {
        forall|k: int|
            0 <= k < mv.word@.len() ==> {
                let l = #[trigger] self.letter_at(path_x(mv, k), path_y(mv, k));
                l is None || l == Some(mv.word@[k])
            }
    }

    /// Whether the move may be played on this board: it stays inside the
    /// grid and every occupied cell on its path matches the word.
    pub open spec fn can_place_spec(self, mv: Move) -> bool {
        move_fits(mv) && self.path_consistent(mv)
    }

    /// Whether it is possible to play this move.
    ///
    /// The move must not have been added to the board before the call.
    pub fn can_place(&self, mv: &Move) -> (r: bool)
        requires
            self.wf(),
            mv.x < 15,
            mv.y < 15,
        ensures
            r == self.can_place_spec(*mv),
    {
        let n = mv.word.as_str().unicode_len();

        // A word longer than a full row or column can never fit.
        if n > 15 {
            return false;
        }
        match mv.direction {
            Direction::Horizontal => {
                if (mv.x as usize) + n > 15 {
                    return false;
                }
            },
            Direction::Vertical => {
                if (mv.y as usize) + n > 15 {
                    return false;
                }
            },
        }
        assert(move_fits(*mv));

        let mut pos_x: u8 = mv.x;
        let mut pos_y: u8 = mv.y;
        let (offset_x, offset_y): (u8, u8) = match mv.direction {
            Direction::Horizontal => (1, 0),
            Direction::Vertical => (0, 1),
        };

        for k in 0..n
            invariant
                self.wf(),
                move_fits(*mv),
                n == mv.word@.len(),
                pos_x == path_x(*mv, k as int),
                pos_y == path_y(*mv, k as int),
                offset_x == step_x(mv.direction),
                offset_y == step_y(mv.direction),
                forall|j: int|
                    0 <= j < k ==> {
                        let l = #[trigger] self.letter_at(path_x(*mv, j), path_y(*mv, j));
                        l is None || l == Some(mv.word@[j])
                    },
        {
            let c = mv.word.as_str().get_char(k);
            match self.get_letter(pos_x, pos_y) {
                Some(letter) => {
                    if letter != c {
                        return false;
                    }
                },
                None => {},
            }
            pos_x = pos_x + offset_x;
            pos_y = pos_y + offset_y;
        }
        true
    }

    /// The letters the player must supply for the move: the word's character
    /// at every empty cell of the path among the first `k`, in path order.
    pub open spec fn needed_upto(self, mv: Move, k: int) -> Seq<char>
        decreases k,
    {
        if k <= 0 {
            Seq::empty()
        } else {
            let rest = self.needed_upto(mv, k - 1);
            if self.letter_at(path_x(mv, k - 1), path_y(mv, k - 1)) is None {
                rest.push(mv.word@[k - 1])
            } else {
                rest
            }
        }
    }

    /// The letters the player must supply for the whole move.
    pub open spec fn needed_letters_spec(self, mv: Move) -> Seq<char> {
        self.needed_upto(mv, mv.word@.len() as int)
    }

    /// Get the letters needed to make the word: for each empty cell of the
    /// path, the word's character at that position, in path order; occupied
    /// cells contribute nothing.
    pub fn needed_letters(&self, mv: &Move) -> (r: Vec<char>)
        requires
            self.wf(),
            move_fits(*mv),
        ensures
            r@ == self.needed_letters_spec(*mv),
    {
        let n = mv.word.as_str().unicode_len();
        let mut letters: Vec<char> = Vec::new();
        let mut pos_x: u8 = mv.x;
        let mut pos_y: u8 = mv.y;
        let (offset_x, offset_y): (u8, u8) = match mv.direction {
            Direction::Horizontal => (1, 0),
            Direction::Vertical => (0, 1),
        };

        for k in 0..n
            invariant
                self.wf(),
                move_fits(*mv),
                n == mv.word@.len(),
                pos_x == path_x(*mv, k as int),
                pos_y == path_y(*mv, k as int),
                offset_x == step_x(mv.direction),
                offset_y == step_y(mv.direction),
                letters@ == self.needed_upto(*mv, k as int),
        {
            let c = mv.word.as_str().get_char(k);
            if self.get_letter(pos_x, pos_y).is_none() {
                letters.push(c);
            }
            pos_x = pos_x + offset_x;
            pos_y = pos_y + offset_y;
        }
        letters
    }

    /// Whether flat cell `i` is filled by one of the first `upto` path
    /// positions of the move, the cell being empty on this board.
    pub open spec fn newly_filled(self, mv: Move, i: int, upto: int) -> bool {
        exists|k: int|
            0 <= k < upto && i == cell_index(path_x(mv, k), path_y(mv, k))
                && #[trigger] self.tile_at(path_x(mv, k), path_y(mv, k)) is None
    }

    /// Add a move to the board: walk the path and, on each cell that is
    /// still empty, place the next tile of `tiles`, binding a wildcard to
    /// the path's character first.  Already occupied cells are left
    /// untouched.  The caller must have validated the move and supply
    /// exactly the tiles that `needed_letters` asks for.
    pub fn add_move(&mut self, mv: Move, tiles: Vec<Tile>)
        requires
            old(self).wf(),
            move_fits(mv),
            tiles@.len() == old(self).needed_letters_spec(mv).len(),
        ensures
            final(self).wf(),
            // each cell the move fills now holds its tile, bound to the
            // path's character when it was a wildcard; bonuses are kept
            forall|k: int|
                0 <= k < mv.word@.len() && old(self).tile_at(
                    #[trigger] path_x(mv, k),
                    path_y(mv, k),
                ) is None ==> {
                    let i = cell_index(path_x(mv, k), path_y(mv, k));
                    &&& final(self)@[i].tile == Some(
                        bind_tile(tiles@[old(self).needed_upto(mv, k).len() as int], mv.word@[k]),
                    )
                    &&& final(self)@[i].bonus_letter == old(self)@[i].bonus_letter
                    &&& final(self)@[i].bonus_word == old(self)@[i].bonus_word
                },
            // every other cell is exactly as it was
            forall|i: int|
                0 <= i < 225 && !old(self).newly_filled(mv, i, mv.word@.len() as int)
                    ==> final(self)@[i] == old(self)@[i],
            // non-destructiveness: a cell occupied before the move keeps
            // its original tile
            forall|x: int, y: int|
                on_board(x, y) && old(self).tile_at(x, y) is Some ==> #[trigger] final(self).tile_at(x, y) == old(self).tile_at(x, y),
    {
        let ghost len = mv.word@.len() as int;
        let n = mv.word.as_str().unicode_len();
        let mut pos_x: u8 = mv.x;
        let mut pos_y: u8 = mv.y;
        let (offset_x, offset_y): (u8, u8) = match mv.direction {
            Direction::Horizontal => (1, 0),
            Direction::Vertical => (0, 1),
        };
        let mut tidx: usize = 0;

        for k in 0..n
            invariant
                self.wf(),
                move_fits(mv),
                n == mv.word@.len(),
                len == mv.word@.len() as int,
                tiles@.len() == old(self).needed_letters_spec(mv).len(),
                pos_x == path_x(mv, k as int),
                pos_y == path_y(mv, k as int),
                offset_x == step_x(mv.direction),
                offset_y == step_y(mv.direction),
                tidx == old(self).needed_upto(mv, k as int).len(),
                forall|j: int|
                    0 <= j < k && old(self).tile_at(
                        #[trigger] path_x(mv, j),
                        path_y(mv, j),
                    ) is None ==> {
                        let i = cell_index(path_x(mv, j), path_y(mv, j));
                        &&& self@[i].tile == Some(
                            bind_tile(
                                tiles@[old(self).needed_upto(mv, j).len() as int],
                                mv.word@[j],
                            ),
                        )
                        &&& self@[i].bonus_letter == old(self)@[i].bonus_letter
                        &&& self@[i].bonus_word == old(self)@[i].bonus_word
                    },
                forall|i: int|
                    0 <= i < 225 && !old(self).newly_filled(mv, i, k as int) ==> self@[i] == old(self)@[i],
        {
            let ghost ki = k as int;
            let ghost ix = cell_index(path_x(mv, ki), path_y(mv, ki));
            proof {
                // the current cell has not been touched by earlier steps
                assert(!old(self).newly_filled(mv, ix, ki)) by {
                    if old(self).newly_filled(mv, ix, ki) {
                        let j = choose|j: int|
                            0 <= j < ki && ix == cell_index(path_x(mv, j), path_y(mv, j))
                                && old(self).tile_at(path_x(mv, j), path_y(mv, j)) is None;
                        lemma_path_injective(mv, j, ki);
                    }
                }
                assert(self@[ix] == old(self)@[ix]);
            }
            let c = mv.word.as_str().get_char(k);
            if self.get_letter(pos_x, pos_y).is_none() {
                proof {
                    lemma_path_on_board(mv, ki);
                    assert(old(self).tile_at(path_x(mv, ki), path_y(mv, ki)) is None);
                    old(self).lemma_needed_mono(mv, ki + 1, len);
                    assert(old(self).needed_upto(mv, ki + 1).len() == tidx + 1);
                    assert(tidx < tiles.len());
                }
                let mut t = tiles[tidx];
                t.set_wildcard(c);
                let i = (pos_y as usize) * 15 + (pos_x as usize);
                let bonus_letter = self.spots[i].bonus_letter;
                let bonus_word = self.spots[i].bonus_word;
                self.spots[i] = Spot { tile: Some(t), bonus_letter, bonus_word };
                tidx = tidx + 1;
                proof {
                    // the write to the current cell leaves every earlier
                    // path cell alone
                    assert forall|j: int| 0 <= j < ki implies cell_index(
                        #[trigger] path_x(mv, j),
                        path_y(mv, j),
                    ) != ix by {
                        lemma_path_injective(mv, j, ki);
                    }
                }
            }
            pos_x = pos_x + offset_x;
            pos_y = pos_y + offset_y;
            proof {
                assert forall|i: int|
                    0 <= i < 225 && !old(self).newly_filled(mv, i, ki + 1) implies self@[i] == old(self)@[i] by {
                    if i != ix {
                        assert(!old(self).newly_filled(mv, i, ki)) by {
                            if old(self).newly_filled(mv, i, ki) {
                                let j = choose|j: int|
                                    0 <= j < ki && i == cell_index(path_x(mv, j), path_y(mv, j))
                                        && old(self).tile_at(path_x(mv, j), path_y(mv, j)) is None;
                                assert(old(self).newly_filled(mv, i, ki + 1));
                            }
                        }
                    } else {
                        assert(!(old(self).tile_at(path_x(mv, ki), path_y(mv, ki)) is None));
                    }
                }
            }
        }
        proof {
            assert forall|x: int, y: int|
                on_board(x, y) && old(self).tile_at(x, y) is Some implies #[trigger] self.tile_at(x, y) == old(self).tile_at(x, y) by {
                let i = cell_index(x, y);
                assert(0 <= i < 225);
                assert(!old(self).newly_filled(mv, i, len)) by {
                    if old(self).newly_filled(mv, i, len) {
                        let k = choose|k: int|
                            0 <= k < len && i == cell_index(path_x(mv, k), path_y(mv, k))
                                && old(self).tile_at(path_x(mv, k), path_y(mv, k)) is None;
                        lemma_cell_index_injective(x, y, path_x(mv, k), path_y(mv, k));
                    }
                }
            }
        }
    }

    /// Sum of the values of the unbroken run of tiles directly above
    /// `(x, y)`: cells `(x, y-1)`, `(x, y-2)`, ... up to the first empty
    /// cell or the board edge.
    pub open spec fn run_up(self, x: int, y: int) -> int
        decreases y,
    {
        if y <= 0 {
            0
        } else {
            match self.tile_at(x, y - 1) {
                Some(t) => tile_value(t) + self.run_up(x, y - 1),
                None => 0,
            }
        }
    }

    /// Sum of the values of the unbroken run of tiles directly below `(x, y)`.
    pub open spec fn run_down(self, x: int, y: int) -> int
        decreases 15 - y,
    {
        if y >= 14 {
            0
        } else {
            match self.tile_at(x, y + 1) {
                Some(t) => tile_value(t) + self.run_down(x, y + 1),
                None => 0,
            }
        }
    }

    /// Sum of the values of the unbroken run of tiles directly left of `(x, y)`.
    pub open spec fn run_left(self, x: int, y: int) -> int
        decreases x,
    {
        if x <= 0 {
            0
        } else {
            match self.tile_at(x - 1, y) {
                Some(t) => tile_value(t) + self.run_left(x - 1, y),
                None => 0,
            }
        }
    }

    /// Sum of the values of the unbroken run of tiles directly right of `(x, y)`.
    pub open spec fn run_right(self, x: int, y: int) -> int
        decreases 15 - x,
    {
        if x >= 14 {
            0
        } else {
            match self.tile_at(x + 1, y) {
                Some(t) => tile_value(t) + self.run_right(x + 1, y),
                None => 0,
            }
        }
    }

    /// Whether the cell `(x, y)` has an occupied neighbor on the axis
    /// perpendicular to a word running in direction `d`.
    pub open spec fn has_perp_neighbor(self, x: int, y: int, d: Direction) -> bool {
        match d {
            Direction::Horizontal => self.tile_at(x, y - 1) is Some || self.tile_at(
                x,
                y + 1,
            ) is Some,
            Direction::Vertical => self.tile_at(x - 1, y) is Some || self.tile_at(
                x + 1,
                y,
            ) is Some,
        }
    }

    /// Score of the perpendicular (cross) word made by placing tile `t` on
    /// cell `(x, y)` of a word running in direction `d`: the tile's value
    /// adjusted by the cell's letter bonus, plus the values of the unbroken
    /// occupied runs on both sides along the perpendicular axis.
    pub open spec fn cross_sum(self, x: int, y: int, d: Direction, t: Tile) -> int {
        letter_factor(self.spot_at(x, y).bonus_letter) * tile_value(t) + match d {
            Direction::Horizontal => self.run_up(x, y) + self.run_down(x, y),
            Direction::Vertical => self.run_left(x, y) + self.run_right(x, y),
        }
    }

    /// Primary-word sum over the first `k` path cells: an occupied cell
    /// adds its tile's value, a cell being filled adds the next supplied
    /// tile's value multiplied by the cell's letter bonus.
    pub open spec fn primary_upto(self, mv: Move, removed: Seq<Tile>, k: int) -> int
        decreases k,
    {
        if k <= 0 {
            0
        } else {
            let x = path_x(mv, k - 1);
            let y = path_y(mv, k - 1);
            self.primary_upto(mv, removed, k - 1) + match self.tile_at(x, y) {
                Some(t) => tile_value(t),
                None => letter_factor(self.spot_at(x, y).bonus_letter) * tile_value(
                    removed[self.needed_upto(mv, k - 1).len() as int],
                ),
            }
        }
    }

    /// Product of the word-bonus factors of the cells the move fills among
    /// the first `k` path cells; occupied cells contribute no factor.
    pub open spec fn multiplier_upto(self, mv: Move, k: int) -> int
        decreases k,
    {
        if k <= 0 {
            1
        } else {
            let x = path_x(mv, k - 1);
            let y = path_y(mv, k - 1);
            self.multiplier_upto(mv, k - 1) * if self.tile_at(x, y) is None {
                word_factor(self.spot_at(x, y).bonus_word)
            } else {
                1
            }
        }
    }

    /// Sum of the cross-word scores over the first `k` path cells: each
    /// cell being filled whose perpendicular neighbor is occupied on either
    /// side contributes its cross word.
    pub open spec fn cross_upto(self, mv: Move, removed: Seq<Tile>, k: int) -> int
        decreases k,
    {
        if k <= 0 {
            0
        } else {
            let x = path_x(mv, k - 1);
            let y = path_y(mv, k - 1);
            self.cross_upto(mv, removed, k - 1) + if self.tile_at(x, y) is None
                && self.has_perp_neighbor(x, y, mv.direction) {
                self.cross_sum(x, y, mv.direction, removed[self.needed_upto(mv, k - 1).len() as int])
            } else {
                0
            }
        }
    }

    /// Score of the move: the primary-word sum times the aggregated word
    /// multiplier, plus all cross-word contributions.
    pub open spec fn score_spec(self, mv: Move, removed: Seq<Tile>) -> int {
        let n = mv.word@.len() as int;
        self.primary_upto(mv, removed, n) * self.multiplier_upto(mv, n) + self.cross_upto(
            mv,
            removed,
            n,
        )
    }

    proof fn lemma_run_up_bound(self, x: int, y: int)
        requires
            0 <= y <= 15,
        ensures
            0 <= self.run_up(x, y) <= 255 * y,
        decreases y,
    {
        if y > 0 {
            self.lemma_run_up_bound(x, y - 1);
        }
    }

    proof fn lemma_run_down_bound(self, x: int, y: int)
        requires
            0 <= y <= 14,
        ensures
            0 <= self.run_down(x, y) <= 255 * (14 - y),
        decreases 15 - y,
    {
        if y < 14 {
            self.lemma_run_down_bound(x, y + 1);
        }
    }

    proof fn lemma_run_left_bound(self, x: int, y: int)
        requires
            0 <= x <= 15,
        ensures
            0 <= self.run_left(x, y) <= 255 * x,
        decreases x,
    {
        if x > 0 {
            self.lemma_run_left_bound(x - 1, y);
        }
    }

    proof fn lemma_run_right_bound(self, x: int, y: int)
        requires
            0 <= x <= 14,
        ensures
            0 <= self.run_right(x, y) <= 255 * (14 - x),
        decreases 15 - x,
    {
        if x < 14 {
            self.lemma_run_right_bound(x + 1, y);
        }
    }

    proof fn lemma_cross_sum_bound(self, x: int, y: int, d: Direction, t: Tile)
        requires
            on_board(x, y),
        ensures
            0 <= self.cross_sum(x, y, d, t) <= 4335,
    {
        match d {
            Direction::Horizontal => {
                self.lemma_run_up_bound(x, y);
                self.lemma_run_down_bound(x, y);
            },
            Direction::Vertical => {
                self.lemma_run_left_bound(x, y);
                self.lemma_run_right_bound(x, y);
            },
        }
    }

    proof fn lemma_primary_bound(self, mv: Move, removed: Seq<Tile>, k: int)
        requires
            0 <= k,
        ensures
            0 <= self.primary_upto(mv, removed, k) <= 765 * k,
        decreases k,
    {
        if k > 0 {
            self.lemma_primary_bound(mv, removed, k - 1);
        }
    }

    proof fn lemma_multiplier_bound(self, mv: Move, k: int)
        requires
            0 <= k,
        ensures
            1 <= self.multiplier_upto(mv, k) <= pow3(self.needed_upto(mv, k).len() as int),
        decreases k,
    {
        if k == 0 {
        } else {
            self.lemma_multiplier_bound(mv, k - 1);
            let m = self.multiplier_upto(mv, k - 1);
            let p = pow3(self.needed_upto(mv, k - 1).len() as int);
            let x = path_x(mv, k - 1);
            let y = path_y(mv, k - 1);
            if self.tile_at(x, y) is None {
                let w = word_factor(self.spot_at(x, y).bonus_word);
                assert(1 <= w <= 3);
                assert(m * w <= 3 * p && m <= m * w) by (nonlinear_arith)
                    requires
                        1 <= m <= p,
                        1 <= w <= 3,
                ;
            }
        }
    }

    proof fn lemma_cross_upto_bound(self, mv: Move, removed: Seq<Tile>, k: int)
        requires
            0 <= k,
            move_fits(mv),
            k <= mv.word@.len(),
        ensures
            0 <= self.cross_upto(mv, removed, k) <= 4335 * self.needed_upto(mv, k).len(),
        decreases k,
    {
        if k > 0 {
            self.lemma_cross_upto_bound(mv, removed, k - 1);
            lemma_path_on_board(mv, k - 1);
            let x = path_x(mv, k - 1);
            let y = path_y(mv, k - 1);
            if self.tile_at(x, y) is None && self.has_perp_neighbor(x, y, mv.direction) {
                self.lemma_cross_sum_bound(
                    x,
                    y,
                    mv.direction,
                    removed[self.needed_upto(mv, k - 1).len() as int],
                );
            }
        }
    }

    /// Get the score of the perpendicular word made by placing `added` on
    /// cell `(initial_x, initial_y)` of a word running in `direction`: the
    /// added tile's bonus-adjusted value plus the runs of occupied
    /// neighbors on both perpendicular sides.
    fn perp_score(&self, initial_x: u8, initial_y: u8, direction: Direction, added: &Tile) -> (r:
        u32)
        requires
            self.wf(),
            initial_x < 15,
            initial_y < 15,
        ensures
            r as int == self.cross_sum(initial_x as int, initial_y as int, direction, *added),
            r <= 4335,
    {
        let xi = initial_x;
        let yi = initial_y;
        let lb = self.get_spot(xi, yi).get_bonuses_value().0;
        let v = tile_points(added);
        let mut acc: u32 = lb * v;
        let ghost base = acc as int;
        assert(base == letter_factor(self.spot_at(xi as int, yi as int).bonus_letter) * tile_value(
            *added,
        )) by {
            assert(0 <= tile_value(*added) <= 255);
        }
        assert(0 <= base <= 765);

        match direction {
            Direction::Horizontal => {
                let mut yy = yi;
                loop
                    invariant
                        self.wf(),
                        xi < 15,
                        yi < 15,
                        yy <= yi,
                        0 <= base <= 765,
                        acc as int == base + self.run_up(xi as int, yi as int) - self.run_up(
                            xi as int,
                            yy as int,
                        ),
                        acc <= base + 255 * (yi - yy),
                    ensures
                        acc as int == base + self.run_up(xi as int, yi as int),
                        acc <= base + 3570,
                    decreases yy,
                {
                    if yy == 0 {
                        break ;
                    }
                    match self.get_tile(xi, yy - 1) {
                        None => { break ; },
                        Some(t) => {
                            acc = acc + tile_points(&t);
                            yy = yy - 1;
                        },
                    }
                }
                let mut yy2 = yi;
                let ghost up_total = acc as int;
                proof {
                    self.lemma_run_up_bound(xi as int, yi as int);
                }
                loop
                    invariant
                        self.wf(),
                        xi < 15,
                        yi < 15,
                        yi <= yy2 <= 14,
                        0 <= base <= 765,
                        up_total == base + self.run_up(xi as int, yi as int),
                        up_total <= base + 255 * yi,
                        acc as int == up_total + self.run_down(xi as int, yi as int)
                            - self.run_down(xi as int, yy2 as int),
                        acc <= up_total + 255 * (yy2 - yi),
                    ensures
                        acc as int == up_total + self.run_down(xi as int, yi as int),
                        acc <= 4335,
                    decreases 15 - yy2,
                {
                    proof {
                        self.lemma_run_down_bound(xi as int, yi as int);
                    }
                    if yy2 >= 14 {
                        break ;
                    }
                    match self.get_tile(xi, yy2 + 1) {
                        None => { break ; },
                        Some(t) => {
                            acc = acc + tile_points(&t);
                            yy2 = yy2 + 1;
                        },
                    }
                }
                acc
            },
            Direction::Vertical => {
                let mut xx = xi;
                loop
                    invariant
                        self.wf(),
                        xi < 15,
                        yi < 15,
                        xx <= xi,
                        0 <= base <= 765,
                        acc as int == base + self.run_left(xi as int, yi as int) - self.run_left(
                            xx as int,
                            yi as int,
                        ),
                        acc <= base + 255 * (xi - xx),
                    ensures
                        acc as int == base + self.run_left(xi as int, yi as int),
                        acc <= base + 3570,
                    decreases xx,
                {
                    if xx == 0 {
                        break ;
                    }
                    match self.get_tile(xx - 1, yi) {
                        None => { break ; },
                        Some(t) => {
                            acc = acc + tile_points(&t);
                            xx = xx - 1;
                        },
                    }
                }
                let mut xx2 = xi;
                let ghost left_total = acc as int;
                proof {
                    self.lemma_run_left_bound(xi as int, yi as int);
                }
                loop
                    invariant
                        self.wf(),
                        xi < 15,
                        yi < 15,
                        xi <= xx2 <= 14,
                        0 <= base <= 765,
                        left_total == base + self.run_left(xi as int, yi as int),
                        left_total <= base + 255 * xi,
                        acc as int == left_total + self.run_right(xi as int, yi as int)
                            - self.run_right(xx2 as int, yi as int),
                        acc <= left_total + 255 * (xx2 - xi),
                    ensures
                        acc as int == left_total + self.run_right(xi as int, yi as int),
                        acc <= 4335,
                    decreases 15 - xx2,
                {
                    proof {
                        self.lemma_run_right_bound(xi as int, yi as int);
                    }
                    if xx2 >= 14 {
                        break ;
                    }
                    match self.get_tile(xx2 + 1, yi) {
                        None => { break ; },
                        Some(t) => {
                            acc = acc + tile_points(&t);
                            xx2 = xx2 + 1;
                        },
                    }
                }
                acc
            },
        }
    }

    /// Get the score of a move against the current board state, before the
    /// move is added.  `removed` must hold exactly the tiles that
    /// `needed_letters` asks for, in order; a rack holds at most seven
    /// tiles, so a move never fills more than seven cells.
    pub fn score(&self, mv: &Move, removed: &Vec<Tile>) -> (r: u32)
        requires
            self.wf(),
            move_fits(*mv),
            removed@.len() == self.needed_letters_spec(*mv).len(),
            removed@.len() <= 7,
        ensures
            r as int == self.score_spec(*mv, removed@),
    {
        let ghost len = mv.word@.len() as int;
        let n = mv.word.as_str().unicode_len();
        let mut pos_x: u8 = mv.x;
        let mut pos_y: u8 = mv.y;
        let (offset_x, offset_y): (u8, u8) = match mv.direction {
            Direction::Horizontal => (1, 0),
            Direction::Vertical => (0, 1),
        };
        let mut prim: u32 = 0;
        let mut mult: u32 = 1;
        let mut cross: u32 = 0;
        let mut tidx: usize = 0;

        for k in 0..n
            invariant
                self.wf(),
                move_fits(*mv),
                n == mv.word@.len(),
                len == mv.word@.len() as int,
                removed@.len() == self.needed_letters_spec(*mv).len(),
                removed@.len() <= 7,
                pos_x == path_x(*mv, k as int),
                pos_y == path_y(*mv, k as int),
                offset_x == step_x(mv.direction),
                offset_y == step_y(mv.direction),
                tidx == self.needed_upto(*mv, k as int).len(),
                tidx <= removed@.len(),
                prim as int == self.primary_upto(*mv, removed@, k as int),
                mult as int == self.multiplier_upto(*mv, k as int),
                cross as int == self.cross_upto(*mv, removed@, k as int),
        {
            let ghost ki = k as int;
            proof {
                self.lemma_primary_bound(*mv, removed@, ki);
                self.lemma_multiplier_bound(*mv, ki);
                self.lemma_cross_upto_bound(*mv, removed@, ki);
                self.lemma_needed_mono(*mv, ki + 1, len);
                lemma_pow3_mono(self.needed_upto(*mv, ki).len() as int, 7);
                lemma_pow3_values();
            }
            match self.get_tile(pos_x, pos_y) {
                Some(t) => {
                    prim = prim + tile_points(&t);
                },
                None => {
                    proof {
                        lemma_path_on_board(*mv, ki);
                        assert(self.tile_at(path_x(*mv, ki), path_y(*mv, ki)) is None);
                        assert(self.needed_upto(*mv, ki + 1).len() == tidx + 1);
                        assert(tidx < removed@.len());
                        lemma_pow3_mono(self.needed_upto(*mv, ki).len() as int, 6);
                    }
                    let t = removed[tidx];
                    let (lb, wb) = self.get_spot(pos_x, pos_y).get_bonuses_value();
                    let v = tile_points(&t);
                    proof {
                        assert(lb * v <= 765) by (nonlinear_arith)
                            requires
                                1 <= lb as int <= 3,
                                0 <= v as int <= 255,
                        ;
                        assert(prim as int <= 765 * 14);
                    }
                    prim = prim + lb * v;
                    proof {
                        assert(mult * wb <= 2187 && mult <= mult * wb) by (nonlinear_arith)
                            requires
                                1 <= mult as int <= 729,
                                1 <= wb as int <= 3,
                        ;
                    }
                    mult = mult * wb;
                    let up_occupied = match mv.direction {
                        Direction::Horizontal => {
                            if pos_y > 0 {
                                self.get_letter(pos_x, pos_y - 1).is_some()
                            } else {
                                false
                            }
                        },
                        Direction::Vertical => {
                            if pos_x > 0 {
                                self.get_letter(pos_x - 1, pos_y).is_some()
                            } else {
                                false
                            }
                        },
                    };
                    let down_occupied = match mv.direction {
                        Direction::Horizontal => self.get_letter(pos_x, pos_y + 1).is_some(),
                        Direction::Vertical => self.get_letter(pos_x + 1, pos_y).is_some(),
                    };
                    if up_occupied || down_occupied {
                        assert(self.has_perp_neighbor(pos_x as int, pos_y as int, mv.direction));
                        let ps = self.perp_score(pos_x, pos_y, mv.direction(), &t);
                        cross = cross + ps;
                    } else {
                        assert(!self.has_perp_neighbor(pos_x as int, pos_y as int, mv.direction));
                    }
                    tidx = tidx + 1;
                },
            }
            pos_x = pos_x + offset_x;
            pos_y = pos_y + offset_y;
        }
        proof {
            self.lemma_primary_bound(*mv, removed@, len);
            self.lemma_multiplier_bound(*mv, len);
            self.lemma_cross_upto_bound(*mv, removed@, len);
            lemma_pow3_mono(self.needed_upto(*mv, len).len() as int, 7);
            lemma_pow3_values();
            assert(prim * mult <= 11475 * 2187) by (nonlinear_arith)
                requires
                    0 <= prim as int <= 11475,
                    0 <= mult as int <= 2187,
            ;
        }
        prim * mult + cross
    }

    /// The prefix the player must supply only grows along the path.
    pub proof fn lemma_needed_mono(self, mv: Move, j: int, k: int)
        requires
            j <= k,
        ensures
            self.needed_upto(mv, j).len() <= self.needed_upto(mv, k).len(),
        decreases k - j,
    {
        if j < k {
            self.lemma_needed_mono(mv, j, k - 1);
        }
    }

    /// The bonuses of cell (`x`, `y`), as `(letter, word)`.
    pub fn get_bonuses(&self, x: u8, y: u8) -> (r: (LetterBonus, WordBonus))
        requires
            self.wf(),
            x < 15,
            y < 15,
        ensures
            r.0 == self.spot_at(x as int, y as int).bonus_letter,
            r.1 == self.spot_at(x as int, y as int).bonus_word,
    {
        self.get_spot(x, y).get_bonuses()
    }
}

/// Third power: the largest word multiplier `k` filled cells can yield.
pub open spec fn pow3(n: int) -> int
    decreases n,
{
    if n <= 0 {
        1
    } else {
        3 * pow3(n - 1)
    }
}

proof fn lemma_pow3_mono(a: int, b: int)
    requires
        a <= b,
    ensures
        pow3(a) <= pow3(b),
        1 <= pow3(a),
    decreases b - a,
{
    if a < b {
        lemma_pow3_mono(a, b - 1);
    } else if a == b {
        lemma_pow3_mono_pos(a);
    }
}

proof fn lemma_pow3_mono_pos(a: int)
    ensures
        1 <= pow3(a),
    decreases a,
{
    if a > 0 {
        lemma_pow3_mono_pos(a - 1);
    }
}

proof fn lemma_pow3_values()
    ensures
        pow3(6) == 729,
        pow3(7) == 2187,
{
    reveal_with_fuel(pow3, 9);
}

/// The value a tile contributes to a sum, as executable code.
fn tile_points(t: &Tile) -> (v: u32)
    ensures
        v as int == tile_value(*t),
{
    if t.wildcard {
        0
    } else {
        t.points as u32
    }
}

/// Every position of a fitting move's path lies on the board.
pub proof fn lemma_path_on_board(mv: Move, k: int)
    requires
        move_fits(mv),
        0 <= k < mv.word@.len(),
    ensures
        on_board(path_x(mv, k), path_y(mv, k)),
{
    match mv.direction {
        Direction::Horizontal => {
            assert(path_x(mv, k) == mv.x + k);
            assert(path_y(mv, k) == mv.y);
        },
        Direction::Vertical => {
            assert(path_x(mv, k) == mv.x);
            assert(path_y(mv, k) == mv.y + k);
        },
    }
}

/// Sum of the values the tiles contribute (a wildcard contributes 0).
pub open spec fn tile_values_sum(tiles: Seq<Tile>) -> int
    decreases tiles.len(),
{
    if tiles.len() == 0 {
        0
    } else {
        tile_values_sum(tiles.drop_last()) + tile_value(tiles.last())
    }
}

/// Score baseline: on a path of empty cells carrying no bonus and with no
/// occupied perpendicular neighbor, a move scores exactly the sum of the
/// placed tiles' values.
pub proof fn lemma_score_baseline(b: Board, mv: Move, removed: Seq<Tile>)
    requires
        b.wf(),
        move_fits(mv),
        removed.len() == mv.word@.len(),
        forall|k: int|
            0 <= k < mv.word@.len() ==> {
                let x = #[trigger] path_x(mv, k);
                let y = path_y(mv, k);
                &&& b.tile_at(x, y) is None
                &&& b.spot_at(x, y).bonus_letter == LetterBonus::Plain
                &&& b.spot_at(x, y).bonus_word == WordBonus::Plain
                &&& !b.has_perp_neighbor(x, y, mv.direction)
            },
    ensures
        b.score_spec(mv, removed) == tile_values_sum(removed),
{
    let n = mv.word@.len() as int;
    lemma_score_baseline_rec(b, mv, removed, n);
    assert(removed.subrange(0, n) =~= removed);
}

proof fn lemma_score_baseline_rec(b: Board, mv: Move, removed: Seq<Tile>, k: int)
    requires
        b.wf(),
        move_fits(mv),
        removed.len() == mv.word@.len(),
        0 <= k <= mv.word@.len(),
        forall|m: int|
            0 <= m < mv.word@.len() ==> {
                let x = #[trigger] path_x(mv, m);
                let y = path_y(mv, m);
                &&& b.tile_at(x, y) is None
                &&& b.spot_at(x, y).bonus_letter == LetterBonus::Plain
                &&& b.spot_at(x, y).bonus_word == WordBonus::Plain
                &&& !b.has_perp_neighbor(x, y, mv.direction)
            },
    ensures
        b.needed_upto(mv, k).len() == k,
        b.primary_upto(mv, removed, k) == tile_values_sum(removed.subrange(0, k)),
        b.multiplier_upto(mv, k) == 1,
        b.cross_upto(mv, removed, k) == 0,
    decreases k,
{
    if k > 0 {
        lemma_score_baseline_rec(b, mv, removed, k - 1);
        assert(removed.subrange(0, k).drop_last() =~= removed.subrange(0, k - 1));
        assert(removed.subrange(0, k).last() == removed[k - 1]);
    }
}

/// Placement bounds: a move whose word would extend past the last column
/// (horizontal) or the last row (vertical) is rejected by `can_place`,
/// whatever its letters and whatever the board holds.
pub proof fn lemma_placement_bounds(b: Board, mv: Move)
    requires
        match mv.direction {
            Direction::Horizontal => mv.x + mv.word@.len() > 15,
            Direction::Vertical => mv.y + mv.word@.len() > 15,
        },
    ensures
        !b.can_place_spec(mv),
{
}

/// Overlap consistency: a move whose path crosses an occupied cell with a
/// mismatching letter is rejected, while a matching letter is no obstacle
/// and contributes nothing to the letters the player must supply.
pub proof fn lemma_overlap_consistency(b: Board, mv: Move, k: int)
    requires
        b.wf(),
        move_fits(mv),
        0 <= k < mv.word@.len(),
        b.letter_at(path_x(mv, k), path_y(mv, k)) is Some,
    ensures
        b.letter_at(path_x(mv, k), path_y(mv, k)) != Some(mv.word@[k]) ==> !b.can_place_spec(mv),
        b.needed_upto(mv, k + 1) == b.needed_upto(mv, k),
{
}

/// Wildcard binding: when a cell holds the tile a move placed there, a
/// wildcard among the supplied tiles shows the path's character as its
/// bound letter — reading the cell yields that letter, never the
/// placeholder.  Reads do not change the board, so every later read of
/// the same cell yields the same letter.
pub proof fn lemma_wildcard_binding(b: Board, mv: Move, t: Tile, k: int)
    requires
        b.wf(),
        move_fits(mv),
        0 <= k < mv.word@.len(),
        b@[cell_index(path_x(mv, k), path_y(mv, k))].tile == Some(bind_tile(t, mv.word@[k])),
        t.wildcard,
    ensures
        b.letter_at(path_x(mv, k), path_y(mv, k)) == Some(mv.word@[k]),
{
    lemma_path_on_board(mv, k);
}

/// Two distinct positions of a move's path lie on distinct cells.
pub proof fn lemma_path_injective(mv: Move, j: int, k: int)
    requires
        move_fits(mv),
        0 <= j < mv.word@.len(),
        0 <= k < mv.word@.len(),
        j != k,
    ensures
        cell_index(path_x(mv, j), path_y(mv, j)) != cell_index(path_x(mv, k), path_y(mv, k)),
{
}

/// The flat cell index is injective over on-board coordinates.
pub proof fn lemma_cell_index_injective(x1: int, y1: int, x2: int, y2: int)
    requires
        on_board(x1, y1),
        on_board(x2, y2),
        cell_index(x1, y1) == cell_index(x2, y2),
    ensures
        x1 == x2,
        y1 == y2,
{
}

} // verus!

use crate::flood::{
    done, empty_cell, flood_reveal, flood_spec, in_flood, lemma_flood_closed, regions_closed,
};
use crate::generate::{count_mines, generate_grid, generate_grid_safe, mined_grid, safe_room};
use crate::model::{
    col, counts_ok, flag_count, flag_pred, fresh_tile, in_grid, lemma_cell, lemma_count_bounds,
    lemma_count_same, lemma_count_update, lemma_count_zero, lemma_index, lemma_neighbour_numbered,
    lemma_similar, lemma_term_le_sum, mine_pred, mine_total, near, mines_around_upto, neighbour, off_x, off_y, revealed, row, similar, state_of, Tile,
    TileState,
};
use vstd::prelude::*;

verus! {

/// The playing field: a row-major grid of `width * height` tiles.
#[derive(Debug)]
pub struct Board {
    grid: Vec<Tile>,
    width: usize,
    height: usize,
    mine_count: u32,
    mines_left: i32,
}

impl View for Board {
    type V = Seq<Tile>;

    closed spec fn view(&self) -> Seq<Tile> {
        self.grid@
    }
}

/// 1 if (x, y) lies in the grid and is hidden and flagged, else 0.
pub open spec fn flag_at(g: Seq<Tile>, w: int, h: int, x: int, y: int) -> int {
    if in_grid(w, h, x, y) && g[y * w + x].hidden && g[y * w + x].flag {
        1
    } else {
        0
    }
}

/// Hidden flagged tiles among the first `k` neighbours of (x, y).
pub open spec fn flags_around_upto(g: Seq<Tile>, w: int, h: int, x: int, y: int, k: int) -> int
    decreases k,
{
    if k <= 0 {
        0
    } else {
        flags_around_upto(g, w, h, x, y, k - 1) + flag_at(
            g,
            w,
            h,
            x + off_x(k - 1),
            y + off_y(k - 1),
        )
    }
}

/// A chord on (x, y) is allowed: the tile is revealed, numbered, and has exactly as many
/// hidden flagged neighbours as its number.
pub open spec fn valid_chord(g: Seq<Tile>, w: int, h: int, x: int, y: int) -> bool {
    let t = g[y * w + x];
    !t.hidden && t.count != 0 && t.count == flags_around_upto(g, w, h, x, y, 8)
}

/// Digging the hidden (or empty) tile at index `s`: a flood fill from an empty tile,
/// otherwise that tile alone is revealed.
pub open spec fn dig_one(g: Seq<Tile>, w: int, s: int) -> Seq<Tile> {
    if !g[s].mine && g[s].count == 0 {
        flood_spec(g, w, s)
    } else {
        g.update(s, revealed(g[s]))
    }
}

/// The grid after a chord on (x, y) has dug its first `k` neighbours, and whether one of
/// those digs hit a mine (after which nothing more is dug).
pub open spec fn chord_upto(g: Seq<Tile>, w: int, h: int, x: int, y: int, k: int) -> (
    Seq<Tile>,
    bool,
)
    decreases k,
{
    if k <= 0 {
        (g, false)
    } else {
        let (g1, hit) = chord_upto(g, w, h, x, y, k - 1);
        let nx = x + off_x(k - 1);
        let ny = y + off_y(k - 1);
        let s = ny * w + nx;
        if hit {
            (g1, true)
        } else if in_grid(w, h, nx, ny) && g1[s].hidden && !g1[s].flag {
            (dig_one(g1, w, s), g1[s].mine)
        } else {
            (g1, false)
        }
    }
}

/// The grid after digging (x, y), and whether a mine was hit.
pub open spec fn dig_spec(g: Seq<Tile>, w: int, h: int, x: int, y: int) -> (Seq<Tile>, bool) {
    let s = y * w + x;
    let t = g[s];
    if t.flag {
        (g, false)
    } else if (!t.mine && t.count == 0) || t.hidden {
        (dig_one(g, w, s), t.mine)
    } else if valid_chord(g, w, h, x, y) {
        chord_upto(g, w, h, x, y, 8)
    } else {
        (g, false)
    }
}

/// The grid after toggling the flag on tile `s`, which only a hidden tile takes.
pub open spec fn flag_spec(g: Seq<Tile>, s: int) -> Seq<Tile> {
    if g[s].hidden {
        g.update(s, Tile { flag: !g[s].flag, ..g[s] })
    } else {
        g
    }
}

/// How `mines_left` moves when the flag on tile `s` is toggled.
pub open spec fn flag_delta(g: Seq<Tile>, s: int) -> int {
    if !g[s].hidden {
        0
    } else if g[s].flag {
        1
    } else {
        -1
    }
}

/// The tile at (x, y) lies within one step of (cx, cy).
pub open spec fn near_xy(x: int, y: int, cx: int, cy: int) -> bool {
    -1 <= x - cx <= 1 && -1 <= y - cy <= 1
}

/// The grid after hiding again every revealed mine within one step of (x, y).
pub open spec fn undo_spec(g: Seq<Tile>, w: int, x: int, y: int) -> Seq<Tile> {
    Seq::new(
        g.len(),
        |i: int|
            if near_xy(col(w, i), row(w, i), x, y) && !g[i].hidden && g[i].mine {
                Tile { hidden: true, ..g[i] }
            } else {
                g[i]
            },
    )
}

/// The game is won: no flags are owed and every tile is either a flagged mine or revealed.
pub open spec fn won(g: Seq<Tile>, mines_left: int) -> bool {
    mines_left == 0 && forall|i: int|
        0 <= i < g.len() ==> ((#[trigger] g[i]).mine && g[i].flag) || !g[i].hidden
}

/// Position of offset (dx, dy) in the numbering of neighbours.
pub open spec fn neighbour_number(dx: int, dy: int) -> int {
    if dx == -1 {
        dy + 1
    } else if dx == 0 {
        if dy == -1 {
            3
        } else {
            4
        }
    } else {
        dy + 6
    }
}

proof fn lemma_dig_one_closed(g: Seq<Tile>, w: int, h: int, s: int)
    requires
        0 < w,
        g.len() == w * h,
        regions_closed(g, w),
        0 <= s < g.len(),
    ensures
        regions_closed(dig_one(g, w, s), w),
{
    if !g[s].mine && g[s].count == 0 {
        lemma_flood_closed(g, w, h, s);
    } else {
        let f = dig_one(g, w, s);
        assert forall|a: int| #[trigger] empty_cell(f, a) && !f[a].hidden implies done(f, w, a) by {
            assert(a != s);
            assert(empty_cell(g, a));
            assert forall|b: int| 0 <= b < f.len() && near(w, a, b) implies !(#[trigger] f[b]).hidden by {
                assert(!g[b].hidden);
            }
        }
    }
}

/// Changing flags alone keeps revealed empty tiles surrounded.
proof fn lemma_flags_keep_closed(g1: Seq<Tile>, g2: Seq<Tile>, w: int)
    requires
        regions_closed(g1, w),
        g1.len() == g2.len(),
        forall|i: int|
            0 <= i < g1.len() ==> (#[trigger] g2[i]).hidden == g1[i].hidden && g2[i].mine
                == g1[i].mine && g2[i].count == g1[i].count,
    ensures
        regions_closed(g2, w),
{
    assert forall|a: int| #[trigger] empty_cell(g2, a) && !g2[a].hidden implies done(g2, w, a) by {
        assert(empty_cell(g1, a));
        assert forall|b: int| 0 <= b < g2.len() && near(w, a, b) implies !(#[trigger] g2[b]).hidden by {
            assert(!g1[b].hidden);
        }
    }
}

/// Hiding mines again near (x, y) keeps revealed empty tiles surrounded: no mine lies next
/// to an empty tile.
proof fn lemma_undo_closed(g: Seq<Tile>, w: int, h: int, x: int, y: int)
    requires
        0 < w,
        g.len() == w * h,
        counts_ok(g, w, h),
        regions_closed(g, w),
    ensures
        regions_closed(undo_spec(g, w, x, y), w),
{
    let f = undo_spec(g, w, x, y);
    assert forall|a: int| #[trigger] empty_cell(f, a) && !f[a].hidden implies done(f, w, a) by {
        assert(empty_cell(g, a));
        assert(!g[a].hidden);
        assert forall|b: int| 0 <= b < f.len() && near(w, a, b) implies !(#[trigger] f[b]).hidden by {
            assert(!g[b].hidden);
            if g[b].mine {
                lemma_cell(w, h, a);
                lemma_cell(w, h, b);
                if col(w, b) == col(w, a) && row(w, b) == row(w, a) {
                    assert(a == b);
                }
                let k = lemma_neighbour_numbered(col(w, a), row(w, a), col(w, b), row(w, b));
                lemma_term_le_sum(g, w, h, col(w, a), row(w, a), k, 8);
                assert(g[a].count == mines_around_upto(g, w, h, col(w, a), row(w, a), 8));
            }
        }
    }
}

proof fn lemma_dig_one_similar(g: Seq<Tile>, w: int, s: int)
    requires
        0 <= s < g.len(),
    ensures
        similar(g, dig_one(g, w, s)),
{
}

impl Board {
    /// Well-formedness: the grid has `width * height` tiles of which exactly `mine_count`
    /// are mines, `mines_left` is the mine count less the flags, every non-mine tile holds
    /// its true count, and every revealed empty tile has all its neighbours revealed.
    pub open spec fn wf(&self) -> bool {
        &&& self@.len() == self.width() * self.height()
        &&& self.width() * self.height() <= i32::MAX
        &&& self.mine_count() < self.width() * self.height()
        &&& mine_total(self@) == self.mine_count()
        &&& self.mines_left() == self.mine_count() - flag_count(self@)
        &&& counts_ok(self@, self.width() as int, self.height() as int)
        &&& regions_closed(self@, self.width() as int)
    }

    /// Index of (x, y) in the grid.
    pub open spec fn index(&self, x: int, y: int) -> int {
        y * self.width() + x
    }

    pub closed spec fn spec_width(&self) -> usize {
        self.width
    }

    pub closed spec fn spec_height(&self) -> usize {
        self.height
    }

    pub closed spec fn spec_mine_count(&self) -> u32 {
        self.mine_count
    }

    pub closed spec fn spec_mines_left(&self) -> i32 {
        self.mines_left
    }

    /// Number of columns.
    #[verifier::when_used_as_spec(spec_width)]
    pub fn width(&self) -> (r: usize)
        ensures
            r == self.spec_width(),
    {
        self.width
    }

    /// Number of rows.
    #[verifier::when_used_as_spec(spec_height)]
    pub fn height(&self) -> (r: usize)
        ensures
            r == self.spec_height(),
    {
        self.height
    }

    /// Number of mines the board is played with.
    #[verifier::when_used_as_spec(spec_mine_count)]
    pub fn mine_count(&self) -> (r: u32)
        ensures
            r == self.spec_mine_count(),
    {
        self.mine_count
    }

    /// Mines less flags placed; negative when more flags than mines are placed.
    #[verifier::when_used_as_spec(spec_mines_left)]
    pub fn mines_left(&self) -> (r: i32)
        ensures
            r == self.spec_mines_left(),
    {
        self.mines_left
    }

    /// A board generated blind: `mine_count` mines placed at random, every tile hidden and
    /// unflagged, each non-mine tile holding its count of neighbouring mines. The first dig
    /// places the mines again, away from the dug cell (see `first_dig`).
    pub fn new(width: usize, height: usize, mine_count: u32) -> (b: Board)
        requires
            (mine_count as int) < width * height,
            width * height <= i32::MAX,
        ensures
            b.wf(),
            b.width() == width,
            b.height() == height,
            b.mine_count() == mine_count,
            b.mines_left() == mine_count,
            mine_total(b@) == mine_count,
            forall|i: int| 0 <= i < b@.len() ==> (#[trigger] b@[i]).hidden && !b@[i].flag,
    {
        let grid = generate_grid(width, height, mine_count);
        let b = Board { grid, width, height, mine_count, mines_left: mine_count as i32 };
        proof {
            assert forall|j: int| 0 <= j < grid@.len() implies !flag_pred()(#[trigger] grid@[j]) by {}
            lemma_count_zero(grid@, flag_pred());
        }
        b
    }

    /// What the player sees of the tile at (x, y).
    pub fn check(&self, x: usize, y: usize) -> (r: TileState)
        requires
            self.wf(),
            x < self.width(),
            y < self.height(),
        ensures
            r == state_of(self@[self.index(x as int, y as int)]),
    {
        proof {
            lemma_index(self.width as int, self.height as int, x as int, y as int);
        }
        TileState::new(&self.grid[y * self.width + x])
    }
}

impl Board {
    /// Toggles the flag on a hidden tile and moves `mines_left` the other way; a revealed
    /// tile is left alone.
    pub fn flag(&mut self, x: usize, y: usize)
        requires
            old(self).wf(),
            x < old(self).width(),
            y < old(self).height(),
        ensures
            final(self).wf(),
            final(self).width() == old(self).width(),
            final(self).height() == old(self).height(),
            final(self).mine_count() == old(self).mine_count(),
            final(self)@ == flag_spec(old(self)@, old(self).index(x as int, y as int)),
            final(self).mines_left() == old(self).mines_left() + flag_delta(
                old(self)@,
                old(self).index(x as int, y as int),
            ),
    {
        proof {
            lemma_index(self.width as int, self.height as int, x as int, y as int);
        }
        let s = y * self.width + x;
        let t = self.grid[s];
        if t.hidden {
            let ghost g0 = self.grid@;
            let nt = Tile { flag: !t.flag, ..t };
            self.grid.set(s, nt);
            proof {
                lemma_count_update(g0, s as int, nt, flag_pred());
                lemma_count_update(g0, s as int, nt, mine_pred());
                assert forall|i: int| 0 <= i < g0.len() implies (#[trigger] self.grid@[i]).hidden
                    == g0[i].hidden && self.grid@[i].mine == g0[i].mine && self.grid@[i].count
                    == g0[i].count by {
                    if i != s {
                        assert(self.grid@[i] == g0[i]);
                    }
                }
                lemma_flags_keep_closed(g0, self.grid@, self.width as int);
                lemma_count_bounds(self.grid@, flag_pred());
                lemma_count_bounds(g0, flag_pred());
                assert forall|i: int| 0 <= i < self.grid@.len() && !(#[trigger] self.grid@[i]).mine implies self.grid@[i].count
                    == mines_around_upto(self.grid@, self.width as int, self.height as int, col(self.width as int, i), row(self.width as int, i), 8) by {
                    crate::model::lemma_around_same_mines(
                        g0,
                        self.grid@,
                        self.width as int,
                        self.height as int,
                        col(self.width as int, i),
                        row(self.width as int, i),
                        8,
                    );
                    if i != s {
                        assert(self.grid@[i] == g0[i]);
                    }
                }
            }
            if t.flag {
                self.mines_left = self.mines_left + 1;
            } else {
                self.mines_left = self.mines_left - 1;
            }
        }
    }

    /// Whether the game is won: `mines_left` is zero and every tile is a flagged mine or
    /// revealed.
    pub fn game_won(&self) -> (r: bool)
        requires
            self.wf(),
        ensures
            r == won(self@, self.mines_left() as int),
    {
        if self.mines_left != 0 {
            return false;
        }
        let mut i: usize = 0;
        while i < self.grid.len()
            invariant
                i <= self.grid@.len(),
                forall|j: int| 0 <= j < i ==> ((#[trigger] self.grid@[j]).mine && self.grid@[j].flag) || !self.grid@[j].hidden,
            decreases self.grid@.len() - i,
        {
            let t = self.grid[i];
            if !((t.mine && t.flag) || !t.hidden) {
                return false;
            }
            i = i + 1;
        }
        true
    }

    /// Whether a chord on (x, y) is allowed: the tile is revealed and numbered and has
    /// exactly that many hidden flagged neighbours.
    pub fn is_valid_chord(&self, x: usize, y: usize) -> (r: bool)
        requires
            self.wf(),
            x < self.width(),
            y < self.height(),
        ensures
            r == valid_chord(self@, self.width() as int, self.height() as int, x as int, y as int),
    {
        proof {
            lemma_index(self.width as int, self.height as int, x as int, y as int);
        }
        let t = self.grid[y * self.width + x];
        if t.count == 0 || t.hidden {
            return false;
        }
        let mut cnt: usize = 0;
        let mut k: usize = 0;
        while k < 8
            invariant
                self.wf(),
                x < self.width,
                y < self.height,
                k <= 8,
                cnt <= k,
                cnt as int == flags_around_upto(self@, self.width as int, self.height as int, x as int, y as int, k as int),
            decreases 8 - k,
        {
            match neighbour(self.width, self.height, x, y, k) {
                Some(j) => {
                    proof {
                        lemma_index(
                            self.width as int,
                            self.height as int,
                            x + off_x(k as int),
                            y + off_y(k as int),
                        );
                    }
                    if self.grid[j].hidden && self.grid[j].flag {
                        cnt = cnt + 1;
                    }
                },
                None => {},
            }
            k = k + 1;
        }
        t.count as usize == cnt
    }
}

impl Board {
    /// The two boards have the same dimensions, mine count and `mines_left`.
    pub open spec fn same_frame(&self, other: &Board) -> bool {
        &&& self.width() == other.width()
        &&& self.height() == other.height()
        &&& self.mine_count() == other.mine_count()
        &&& self.mines_left() == other.mines_left()
    }

    /// Digs the tile at (x, y), which is hidden or empty: flood fill from an empty tile,
    /// otherwise that tile alone is revealed; fails when it holds a mine.
    fn dig_one_at(&mut self, x: usize, y: usize) -> (r: Result<(), ()>)
        requires
            old(self).wf(),
            x < old(self).width(),
            y < old(self).height(),
        ensures
            final(self).wf(),
            final(self).same_frame(old(self)),
            final(self)@ == dig_one(
                old(self)@,
                old(self).width() as int,
                old(self).index(x as int, y as int),
            ),
            r.is_err() == old(self)@[old(self).index(x as int, y as int)].mine,
    {
        proof {
            lemma_index(self.width as int, self.height as int, x as int, y as int);
        }
        let ghost g0 = self.grid@;
        let s = y * self.width + x;
        let t = self.grid[s];
        if !t.mine && t.count == 0 {
            flood_reveal(&mut self.grid, self.width, self.height, x, y);
            proof {
                lemma_dig_one_similar(g0, self.width as int, s as int);
                lemma_dig_one_closed(g0, self.width as int, self.height as int, s as int);
                lemma_similar(g0, self.grid@, self.width as int, self.height as int);
            }
            Ok(())
        } else {
            self.grid.set(s, Tile { hidden: false, ..t });
            proof {
                lemma_dig_one_similar(g0, self.width as int, s as int);
                lemma_dig_one_closed(g0, self.width as int, self.height as int, s as int);
                lemma_similar(g0, self.grid@, self.width as int, self.height as int);
            }
            if t.mine {
                Err(())
            } else {
                Ok(())
            }
        }
    }

    /// Digs every hidden, unflagged neighbour of (x, y) in turn, stopping at the first
    /// that holds a mine.
    fn chord(&mut self, x: usize, y: usize) -> (r: Result<(), ()>)
        requires
            old(self).wf(),
            x < old(self).width(),
            y < old(self).height(),
        ensures
            final(self).wf(),
            final(self).same_frame(old(self)),
            (final(self)@, r.is_err()) == chord_upto(
                old(self)@,
                old(self).width() as int,
                old(self).height() as int,
                x as int,
                y as int,
                8,
            ),
    {
        let ghost g0 = self.grid@;
        let ghost b0 = *self;
        let mut k: usize = 0;
        while k < 8
            invariant
                self.wf(),
                self.same_frame(&b0),
                b0.same_frame(old(self)),
                g0 == old(self)@,
                x < self.width,
                y < self.height,
                k <= 8,
                self@ == chord_upto(g0, self.width as int, self.height as int, x as int, y as int, k as int).0,
                !chord_upto(g0, self.width as int, self.height as int, x as int, y as int, k as int).1,
            decreases 8 - k,
        {
            match neighbour(self.width, self.height, x, y, k) {
                Some(j) => {
                    proof {
                        lemma_index(
                            self.width as int,
                            self.height as int,
                            x + off_x(k as int),
                            y + off_y(k as int),
                        );
                    }
                    if self.grid[j].hidden && !self.grid[j].flag {
                        let ghost g1 = self.grid@;
                        let r = self.dig_one_at(j % self.width, j / self.width);
                        proof {
                            assert(j % self.width == x + off_x(k as int));
                            assert(j / self.width == y + off_y(k as int));
                            assert(chord_upto(g0, self.width as int, self.height as int, x as int, y as int, k + 1) == (
                            self@, g1[j as int].mine));
                        }
                        if r.is_err() {
                            proof {
                                lemma_chord_stops(
                                    g0,
                                    self.width as int,
                                    self.height as int,
                                    x as int,
                                    y as int,
                                    k as int + 1,
                                    8,
                                );
                            }
                            return Err(());
                        }
                    }
                },
                None => {},
            }
            k = k + 1;
        }
        Ok(())
    }

    /// Digs (x, y). A flagged tile is left alone. An empty tile starts a flood fill; a
    /// hidden tile is revealed, and a mine there makes the dig fail. On a revealed
    /// numbered tile with as many flagged neighbours as its number, every other hidden
    /// neighbour is dug in turn, stopping at the first mine.
    pub fn dig(&mut self, x: usize, y: usize) -> (r: Result<(), ()>)
        requires
            old(self).wf(),
            x < old(self).width(),
            y < old(self).height(),
        ensures
            final(self).wf(),
            final(self).same_frame(old(self)),
            (final(self)@, r.is_err()) == dig_spec(
                old(self)@,
                old(self).width() as int,
                old(self).height() as int,
                x as int,
                y as int,
            ),
    {
        proof {
            lemma_index(self.width as int, self.height as int, x as int, y as int);
        }
        let t = self.grid[y * self.width + x];
        if t.flag {
            return Ok(());
        }
        if (!t.mine && t.count == 0) || t.hidden {
            return self.dig_one_at(x, y);
        }
        if self.is_valid_chord(x, y) {
            return self.chord(x, y);
        }
        Ok(())
    }
}

/// Tile `i` has already been looked at by `undo` on (x, y) after `k` of the eight
/// neighbours: it is the centre or one of those neighbours.
pub open spec fn undo_covered(w: int, x: int, y: int, k: int, i: int) -> bool {
    near_xy(col(w, i), row(w, i), x, y) && ((col(w, i) == x && row(w, i) == y) || neighbour_number(
        col(w, i) - x,
        row(w, i) - y,
    ) < k)
}

impl Board {
    /// Hides again every revealed mine within one step of (x, y), so that play can go on
    /// after a dig there hit a mine.
    pub fn undo(&mut self, x: usize, y: usize)
        requires
            old(self).wf(),
            x < old(self).width(),
            y < old(self).height(),
        ensures
            final(self).wf(),
            final(self).same_frame(old(self)),
            final(self)@ == undo_spec(old(self)@, old(self).width() as int, x as int, y as int),
    {
        let ghost g0 = self.grid@;
        let ghost b0 = *self;
        let ghost wi = self.width as int;
        proof {
            lemma_index(self.width as int, self.height as int, x as int, y as int);
        }
        let s = y * self.width + x;
        let t = self.grid[s];
        if !t.hidden && t.mine {
            self.grid.set(s, Tile { hidden: true, ..t });
        }
        proof {
            assert forall|i: int| 0 <= i < g0.len() implies self@[i] == (if undo_covered(wi, x as int, y as int, 0, i) && !g0[i].hidden && g0[i].mine {
                Tile { hidden: true, ..g0[i] }
            } else {
                g0[i]
            }) by {
                lemma_cell(wi, self.height as int, i);
            }
        }
        let mut k: usize = 0;
        while k < 8
            invariant
                self.same_frame(&b0),
                b0.same_frame(old(self)),
                g0 == old(self)@,
                old(self).wf(),
                wi == self.width,
                x < self.width,
                y < self.height,
                k <= 8,
                self@.len() == g0.len(),
                forall|i: int|
                    0 <= i < g0.len() ==> #[trigger] self@[i] == (if undo_covered(wi, x as int, y as int, k as int, i) && !g0[i].hidden && g0[i].mine {
                        Tile { hidden: true, ..g0[i] }
                    } else {
                        g0[i]
                    }),
            decreases 8 - k,
        {
            match neighbour(self.width, self.height, x, y, k) {
                Some(j) => {
                    proof {
                        lemma_index(
                            self.width as int,
                            self.height as int,
                            x + off_x(k as int),
                            y + off_y(k as int),
                        );
                        assert(!undo_covered(wi, x as int, y as int, k as int, j as int));
                    }
                    let tj = self.grid[j];
                    if !tj.hidden && tj.mine {
                        self.grid.set(j, Tile { hidden: true, ..tj });
                    }
                    proof {
                        assert forall|i: int| 0 <= i < g0.len() implies #[trigger] self@[i] == (if undo_covered(wi, x as int, y as int, k + 1, i) && !g0[i].hidden && g0[i].mine {
                            Tile { hidden: true, ..g0[i] }
                        } else {
                            g0[i]
                        }) by {
                            lemma_cell(wi, self.height as int, i);
                            if i != j && undo_covered(wi, x as int, y as int, k + 1, i) && !undo_covered(wi, x as int, y as int, k as int, i) {
                                assert(i == row(wi, i) * wi + col(wi, i));
                            }
                        }
                    }
                },
                None => {
                    proof {
                        assert forall|i: int| 0 <= i < g0.len() implies #[trigger] self@[i] == (if undo_covered(wi, x as int, y as int, k + 1, i) && !g0[i].hidden && g0[i].mine {
                            Tile { hidden: true, ..g0[i] }
                        } else {
                            g0[i]
                        }) by {
                            lemma_cell(wi, self.height as int, i);
                        }
                    }
                },
            }
            k = k + 1;
        }
        proof {
            assert(self@ =~= undo_spec(g0, wi, x as int, y as int));
            assert(similar(g0, self@));
            lemma_similar(g0, self@, wi, self.height as int);
            lemma_undo_closed(g0, wi, self.height as int, x as int, y as int);
        }
    }

    /// Places the mines now that the first cell to dig is known, keeping every cell within
    /// the safety radius of (x, y) clear, and digs (x, y). Returns `false`, leaving the
    /// board as it was, when fewer than `mine_count` cells lie outside that radius.
    pub fn first_dig(&mut self, x: usize, y: usize) -> (placed: bool)
        requires
            old(self).wf(),
            x < old(self).width(),
            y < old(self).height(),
        ensures
            final(self).wf(),
            final(self).width() == old(self).width(),
            final(self).height() == old(self).height(),
            final(self).mine_count() == old(self).mine_count(),
            placed == (old(self).mine_count() <= safe_room(
                old(self).width() as int,
                old(self).height() as int,
                x as int,
                y as int,
            )),
            !placed ==> final(self)@ == old(self)@ && final(self).mines_left()
                == old(self).mines_left(),
            placed ==> final(self).mines_left() == final(self).mine_count(),
            placed ==> exists|g: Seq<Tile>|
                mined_grid(
                    g,
                    old(self).width() as int,
                    old(self).height() as int,
                    old(self).mine_count() as int,
                    x as int,
                    y as int,
                ) && #[trigger] dig_spec(
                    g,
                    old(self).width() as int,
                    old(self).height() as int,
                    x as int,
                    y as int,
                ) == (final(self)@, false),
            placed ==> {
                let t = final(self)@[old(self).index(x as int, y as int)];
                !t.hidden && !t.mine
            },
    {
        proof {
            lemma_index(self.width as int, self.height as int, x as int, y as int);
        }
        match generate_grid_safe(self.width, self.height, self.mine_count, x, y) {
            None => false,
            Some(g) => {
                let ghost gg = g@;
                self.grid = g;
                self.mines_left = self.mine_count as i32;
                proof {
                    lemma_count_zero(gg, flag_pred());
                    let s = y * self.width + x;
                    assert(!gg[s].mine) by {
                        assert(crate::generate::too_close(x as int, y as int, x as int, y as int));
                    }
                }
                let r = self.dig(x, y);
                proof {
                    let s = y * self.width + x;
                    if !gg[s].mine && gg[s].count == 0 {
                        assert(in_flood(gg, self.width as int, s, s));
                    }
                    assert(dig_spec(gg, self.width as int, self.height as int, x as int, y as int) == (self@, false));
                }
                true
            },
        }
    }
}

/// (x, y) is among the first `k` cells of `cells`.
pub open spec fn listed(cells: Seq<(usize, usize)>, k: int, x: int, y: int) -> bool {
    exists|j: int| 0 <= j < k && #[trigger] cells[j].0 == x && cells[j].1 == y
}

impl Board {
    /// A board of hidden tiles with mines on exactly the listed cells (a cell may be listed
    /// more than once) and every other tile holding its count of neighbouring mines.
    pub fn with_mines(width: usize, height: usize, mines: &Vec<(usize, usize)>) -> (b: Board)
        requires
            width * height <= i32::MAX,
            mines@.len() < width * height,
            forall|j: int|
                0 <= j < mines@.len() ==> (#[trigger] mines@[j]).0 < width && mines@[j].1 < height,
        ensures
            b.wf(),
            b.width() == width,
            b.height() == height,
            b.mine_count() == mine_total(b@),
            b.mines_left() == b.mine_count(),
            forall|i: int|
                0 <= i < width * height ==> (#[trigger] b@[i]).hidden && !b@[i].flag && (b@[i].mine
                    <==> listed(
                    mines@,
                    mines@.len() as int,
                    col(width as int, i),
                    row(width as int, i),
                )),
    {
        let n = width * height;
        let ghost wi = width as int;
        let mut grid: Vec<Tile> = Vec::new();
        let mut i: usize = 0;
        while i < n
            invariant
                i <= n,
                grid@.len() == i,
                forall|j: int| 0 <= j < i ==> #[trigger] grid@[j] == fresh_tile(false),
            decreases n - i,
        {
            grid.push(Tile::new(false));
            i = i + 1;
        }
        proof {
            lemma_count_zero(grid@, mine_pred());
        }
        let mut placed: u32 = 0;
        let mut k: usize = 0;
        while k < mines.len()
            invariant
                n == width * height,
                n <= i32::MAX,
                mines@.len() < n,
                forall|j: int|
                    0 <= j < mines@.len() ==> (#[trigger] mines@[j]).0 < width && mines@[j].1 < height,
                grid@.len() == n,
                k <= mines@.len(),
                placed <= k,
                placed == mine_total(grid@),
                forall|j: int|
                    0 <= j < n ==> (#[trigger] grid@[j]).hidden && !grid@[j].flag && grid@[j].count == 0
                        && (grid@[j].mine <==> listed(mines@, k as int, col(wi, j), row(wi, j))),
                wi == width,
            decreases mines@.len() - k,
        {
            let (mx, my) = mines[k];
            proof {
                lemma_index(wi, height as int, mx as int, my as int);
            }
            let c = my * width + mx;
            if !grid[c].mine {
                let ghost gb = grid@;
                grid.set(c, Tile::new(true));
                proof {
                    lemma_count_update(gb, c as int, fresh_tile(true), mine_pred());
                }
                placed = placed + 1;
            }
            proof {
                assert forall|j: int| 0 <= j < n implies (#[trigger] grid@[j]).hidden && !grid@[j].flag
                    && grid@[j].count == 0 && (grid@[j].mine <==> listed(mines@, k + 1, col(wi, j), row(wi, j))) by {
                    lemma_cell(wi, height as int, j);
                    if listed(mines@, k + 1, col(wi, j), row(wi, j)) && !listed(mines@, k as int, col(wi, j), row(wi, j)) {
                        let l = choose|l: int| 0 <= l < k + 1 && #[trigger] mines@[l].0 == col(wi, j) && mines@[l].1 == row(wi, j);
                        assert(l == k);
                        assert(j == c);
                    }
                    if j == c {
                        assert(mines@[k as int].0 == col(wi, j) && mines@[k as int].1 == row(wi, j));
                    }
                    if listed(mines@, k as int, col(wi, j), row(wi, j)) {
                        let l = choose|l: int| 0 <= l < k && #[trigger] mines@[l].0 == col(wi, j) && mines@[l].1 == row(wi, j);
                        assert(mines@[l].0 == col(wi, j));
                    }
                }
            }
            k = k + 1;
        }
        let ghost gm = grid@;
        count_mines(&mut grid, width, height);
        let b = Board { grid, width, height, mine_count: placed, mines_left: placed as i32 };
        proof {
            lemma_count_same(grid@, gm, mine_pred());
            assert forall|j: int| 0 <= j < grid@.len() implies !flag_pred()(#[trigger] grid@[j]) by {}
            lemma_count_zero(grid@, flag_pred());
        }
        b
    }
}

impl Default for Board {
    /// A 20 by 20 board with 50 mines.
    fn default() -> (b: Board)
        ensures
            b.wf(),
            b.width() == 20,
            b.height() == 20,
            b.mine_count() == 50,
    {
        Board::new(20, 20, 50)
    }
}

proof fn lemma_chord_stops(g: Seq<Tile>, w: int, h: int, x: int, y: int, k: int, n: int)
    requires
        0 <= k <= n,
        chord_upto(g, w, h, x, y, k).1,
    ensures
        chord_upto(g, w, h, x, y, n) == chord_upto(g, w, h, x, y, k),
    decreases n - k,
{
    if k < n {
        lemma_chord_stops(g, w, h, x, y, k, n - 1);
    }
}

/// Without mines on the grid, no tile has a neighbouring mine.
pub proof fn lemma_no_mines_around(g: Seq<Tile>, w: int, h: int, x: int, y: int, k: int)
    requires
        g.len() == w * h,
        forall|j: int| 0 <= j < g.len() ==> !(#[trigger] g[j]).mine,
    ensures
        mines_around_upto(g, w, h, x, y, k) == 0,
    decreases k,
{
    if k > 0 {
        lemma_no_mines_around(g, w, h, x, y, k - 1);
        let nx = x + off_x(k - 1);
        let ny = y + off_y(k - 1);
        if in_grid(w, h, nx, ny) {
            lemma_index(w, h, nx, ny);
        }
    }
}

} // verus!

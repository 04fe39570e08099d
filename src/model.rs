use vstd::arithmetic::div_mod::lemma_fundamental_div_mod_converse;
use vstd::prelude::*;

verus! {

/// One cell of the grid.
#[derive(Clone, Copy, Debug, PartialEq, Eq)]
pub struct Tile {
    pub hidden: bool,
    pub flag: bool,
    pub mine: bool,
    /// Number of mines among the Chebyshev neighbours; meaningful only for non-mines.
    pub count: u8,
}

impl Tile {
    pub fn new(mine: bool) -> (t: Tile)
        ensures
            t == fresh_tile(mine),
    {
        Tile { hidden: true, flag: false, mine, count: 0 }
    }
}

/// What a player can see of a tile.
#[derive(Clone, Copy, Debug, PartialEq, Eq)]
pub enum TileState {
    Hidden,
    Flagged,
    Empty,
    Mine,
    Count(u8),
}

impl TileState {
    pub fn new(tile: &Tile) -> (s: TileState)
        ensures
            s == state_of(*tile),
    {
        if tile.hidden {
            if tile.flag {
                TileState::Flagged
            } else {
                TileState::Hidden
            }
        } else if tile.mine {
            TileState::Mine
        } else if tile.count == 0 {
            TileState::Empty
        } else {
            TileState::Count(tile.count)
        }
    }
}

pub open spec fn fresh_tile(mine: bool) -> Tile {
    Tile { hidden: true, flag: false, mine, count: 0 }
}

pub open spec fn state_of(t: Tile) -> TileState {
    if t.hidden {
        if t.flag {
            TileState::Flagged
        } else {
            TileState::Hidden
        }
    } else if t.mine {
        TileState::Mine
    } else if t.count == 0 {
        TileState::Empty
    } else {
        TileState::Count(t.count)
    }
}

pub open spec fn revealed(t: Tile) -> Tile {
    Tile { hidden: false, ..t }
}

/// Column of the cell stored at index `i` of a row-major grid of width `w`.
pub open spec fn col(w: int, i: int) -> int {
    i % w
}

/// Row of the cell stored at index `i` of a row-major grid of width `w`.
pub open spec fn row(w: int, i: int) -> int {
    i / w
}

pub open spec fn in_grid(w: int, h: int, x: int, y: int) -> bool {
    0 <= x < w && 0 <= y < h
}

/// Horizontal offset of the `k`-th neighbour, `k` in `0..8`.
pub open spec fn off_x(k: int) -> int {
    if k < 3 {
        -1
    } else if k < 5 {
        0
    } else {
        1
    }
}

/// Vertical offset of the `k`-th neighbour, `k` in `0..8`.
pub open spec fn off_y(k: int) -> int {
    if k == 0 || k == 3 || k == 5 {
        -1
    } else if k == 1 || k == 6 {
        0
    } else {
        1
    }
}

/// Two cells (given by index) are at Chebyshev distance at most one.
pub open spec fn near(w: int, a: int, b: int) -> bool {
    -1 <= col(w, a) - col(w, b) <= 1 && -1 <= row(w, a) - row(w, b) <= 1
}

/// 1 if (x, y) lies in the grid and holds a mine, else 0.
pub open spec fn mine_at(g: Seq<Tile>, w: int, h: int, x: int, y: int) -> int {
    if in_grid(w, h, x, y) && g[y * w + x].mine {
        1
    } else {
        0
    }
}

/// Mines among the first `k` neighbours of (x, y).
pub open spec fn mines_around_upto(g: Seq<Tile>, w: int, h: int, x: int, y: int, k: int) -> int
    decreases k,
{
    if k <= 0 {
        0
    } else {
        mines_around_upto(g, w, h, x, y, k - 1) + mine_at(
            g,
            w,
            h,
            x + off_x(k - 1),
            y + off_y(k - 1),
        )
    }
}

/// Mines among the (up to) eight Chebyshev neighbours of (x, y).
pub open spec fn mines_around(g: Seq<Tile>, w: int, h: int, x: int, y: int) -> int {
    mines_around_upto(g, w, h, x, y, 8)
}

/// Every non-mine tile holds the true count of its neighbouring mines.
pub open spec fn counts_ok(g: Seq<Tile>, w: int, h: int) -> bool {
    forall|i: int|
        0 <= i < g.len() && !(#[trigger] g[i]).mine ==> g[i].count == mines_around(
            g,
            w,
            h,
            col(w, i),
            row(w, i),
        )
}

/// Number of tiles of `g` that satisfy `p`.
pub open spec fn count_where(g: Seq<Tile>, p: spec_fn(Tile) -> bool) -> int
    decreases g.len(),
{
    if g.len() == 0 {
        0
    } else {
        count_where(g.drop_last(), p) + if p(g.last()) {
            1int
        } else {
            0
        }
    }
}

pub open spec fn flag_pred() -> spec_fn(Tile) -> bool {
    |t: Tile| t.flag
}

pub open spec fn mine_pred() -> spec_fn(Tile) -> bool {
    |t: Tile| t.mine
}

pub open spec fn hidden_pred() -> spec_fn(Tile) -> bool {
    |t: Tile| t.hidden
}

pub open spec fn flag_count(g: Seq<Tile>) -> int {
    count_where(g, flag_pred())
}

pub open spec fn mine_total(g: Seq<Tile>) -> int {
    count_where(g, mine_pred())
}

pub open spec fn hidden_count(g: Seq<Tile>) -> int {
    count_where(g, hidden_pred())
}

/// The two tiles differ at most in whether they are hidden.
pub open spec fn same_but_hidden(a: Tile, b: Tile) -> bool {
    a.flag == b.flag && a.mine == b.mine && a.count == b.count
}

pub proof fn lemma_count_bounds(g: Seq<Tile>, p: spec_fn(Tile) -> bool)
    ensures
        0 <= count_where(g, p) <= g.len(),
    decreases g.len(),
{
    if g.len() > 0 {
        lemma_count_bounds(g.drop_last(), p);
    }
}

/// Replacing one tile changes a count by the difference of the two tiles' contributions.
pub proof fn lemma_count_update(g: Seq<Tile>, i: int, t: Tile, p: spec_fn(Tile) -> bool)
    requires
        0 <= i < g.len(),
    ensures
        count_where(g.update(i, t), p) == count_where(g, p) - (if p(g[i]) {
            1int
        } else {
            0
        }) + (if p(t) {
            1int
        } else {
            0
        }),
    decreases g.len(),
{
    let u = g.update(i, t);
    if i == g.len() - 1 {
        assert(u.drop_last() =~= g.drop_last());
    } else {
        assert(u.drop_last() =~= g.drop_last().update(i, t));
        lemma_count_update(g.drop_last(), i, t, p);
    }
}

/// Two grids that agree on `p` everywhere have the same count.
pub proof fn lemma_count_same(g1: Seq<Tile>, g2: Seq<Tile>, p: spec_fn(Tile) -> bool)
    requires
        g1.len() == g2.len(),
        forall|i: int| 0 <= i < g1.len() ==> p(#[trigger] g1[i]) == p(g2[i]),
    ensures
        count_where(g1, p) == count_where(g2, p),
    decreases g1.len(),
{
    if g1.len() > 0 {
        assert forall|i: int| 0 <= i < g1.drop_last().len() implies p(
            #[trigger] g1.drop_last()[i],
        ) == p(g2.drop_last()[i]) by {
            assert(g1.drop_last()[i] == g1[i]);
        }
        lemma_count_same(g1.drop_last(), g2.drop_last(), p);
        assert(p(g1.last()) == p(g2.last()));
    }
}

/// The cell at (x, y) of a grid of width `w` is stored at index `y * w + x`, and back.
pub proof fn lemma_index(w: int, h: int, x: int, y: int)
    requires
        in_grid(w, h, x, y),
    ensures
        0 <= y * w + x < w * h,
        col(w, y * w + x) == x,
        row(w, y * w + x) == y,
{
    lemma_fundamental_div_mod_converse(y * w + x, w, y, x);
    assert(0 <= y * w + x < w * h) by (nonlinear_arith)
        requires
            0 <= x < w,
            0 <= y < h,
    ;
}

/// An index of the grid names a cell of it.
pub proof fn lemma_cell(w: int, h: int, i: int)
    requires
        0 < w,
        0 <= i < w * h,
    ensures
        in_grid(w, h, col(w, i), row(w, i)),
        row(w, i) * w + col(w, i) == i,
{
    vstd::arithmetic::div_mod::lemma_fundamental_div_mod(i, w);
    vstd::arithmetic::div_mod::lemma_mod_bound(i, w);
    vstd::arithmetic::div_mod::lemma_div_pos_is_pos(i, w);
    vstd::arithmetic::mul::lemma_mul_is_commutative(w, i / w);
    assert(i / w < h) by (nonlinear_arith)
        requires
            i == w * (i / w) + i % w,
            0 <= i % w,
            i < w * h,
            0 < w,
    ;
}

/// Every cell at Chebyshev distance one from (x, y) is one of the eight numbered neighbours.
pub proof fn lemma_neighbour_numbered(x: int, y: int, nx: int, ny: int) -> (k: int)
    requires
        -1 <= nx - x <= 1,
        -1 <= ny - y <= 1,
        !(nx == x && ny == y),
    ensures
        0 <= k < 8,
        nx == x + off_x(k),
        ny == y + off_y(k),
{
    let dx = nx - x;
    let dy = ny - y;
    if dx == -1 {
        if dy == -1 {
            0
        } else if dy == 0 {
            1
        } else {
            2
        }
    } else if dx == 0 {
        if dy == -1 {
            3
        } else {
            4
        }
    } else {
        if dy == -1 {
            5
        } else if dy == 0 {
            6
        } else {
            7
        }
    }
}

/// The `k`-th neighbour of (x, y), as an index, where it lies in the grid.
pub fn neighbour(w: usize, h: usize, x: usize, y: usize, k: usize) -> (r: Option<usize>)
    requires
        x < w,
        y < h,
        k < 8,
        w * h <= usize::MAX,
    ensures
        r.is_some() == in_grid(w as int, h as int, x + off_x(k as int), y + off_y(k as int)),
        r.is_some() ==> r.unwrap() == (y + off_y(k as int)) * w + (x + off_x(k as int)),
{
    let xs: usize = if k < 3 {
        0
    } else if k < 5 {
        1
    } else {
        2
    };
    let ys: usize = if k == 0 || k == 3 || k == 5 {
        0
    } else if k == 1 || k == 6 {
        1
    } else {
        2
    };
    if (xs == 0 && x == 0) || (xs == 2 && x + 1 >= w) || (ys == 0 && y == 0) || (ys == 2 && y + 1
        >= h) {
        None
    } else {
        let nx = x + xs - 1;
        let ny = y + ys - 1;
        proof {
            lemma_index(w as int, h as int, nx as int, ny as int);
        }
        Some(ny * w + nx)
    }
}

pub proof fn lemma_around_same_mines(
    g1: Seq<Tile>,
    g2: Seq<Tile>,
    w: int,
    h: int,
    x: int,
    y: int,
    k: int,
)
    requires
        g1.len() == g2.len() == w * h,
        forall|i: int| 0 <= i < g1.len() ==> (#[trigger] g1[i]).mine == g2[i].mine,
    ensures
        mines_around_upto(g1, w, h, x, y, k) == mines_around_upto(g2, w, h, x, y, k),
    decreases k,
{
    if k > 0 {
        lemma_around_same_mines(g1, g2, w, h, x, y, k - 1);
        let nx = x + off_x(k - 1);
        let ny = y + off_y(k - 1);
        if in_grid(w, h, nx, ny) {
            lemma_index(w, h, nx, ny);
            assert(g1[ny * w + nx].mine == g2[ny * w + nx].mine);
        }
        assert(mine_at(g1, w, h, nx, ny) == mine_at(g2, w, h, nx, ny));
    }
}

/// A count over a grid where no tile satisfies `p` is zero.
pub proof fn lemma_count_zero(g: Seq<Tile>, p: spec_fn(Tile) -> bool)
    requires
        forall|j: int| 0 <= j < g.len() ==> !p(#[trigger] g[j]),
    ensures
        count_where(g, p) == 0,
    decreases g.len(),
{
    if g.len() > 0 {
        assert forall|j: int| 0 <= j < g.drop_last().len() implies !p(#[trigger] g.drop_last()[j]) by {
            assert(g.drop_last()[j] == g[j]);
        }
        lemma_count_zero(g.drop_last(), p);
    }
}

/// The grids have the same length and differ at most in which tiles are hidden.
pub open spec fn similar(g1: Seq<Tile>, g2: Seq<Tile>) -> bool {
    g1.len() == g2.len() && forall|i: int|
        0 <= i < g1.len() ==> same_but_hidden(#[trigger] g1[i], g2[i])
}

/// Revealing or hiding tiles keeps the counts right and the number of flags.
pub proof fn lemma_similar(g1: Seq<Tile>, g2: Seq<Tile>, w: int, h: int)
    requires
        similar(g1, g2),
        g1.len() == w * h,
        counts_ok(g1, w, h),
    ensures
        counts_ok(g2, w, h),
        flag_count(g2) == flag_count(g1),
        mine_total(g2) == mine_total(g1),
{
    assert forall|i: int| 0 <= i < g2.len() && !(#[trigger] g2[i]).mine implies g2[i].count
        == mines_around(g2, w, h, col(w, i), row(w, i)) by {
        assert(same_but_hidden(g1[i], g2[i]));
        lemma_around_same_mines(g1, g2, w, h, col(w, i), row(w, i), 8);
    }
    assert forall|i: int| 0 <= i < g1.len() implies flag_pred()(#[trigger] g1[i]) == flag_pred()(g2[i]) by {
        assert(same_but_hidden(g1[i], g2[i]));
    }
    lemma_count_same(g1, g2, flag_pred());
    assert forall|i: int| 0 <= i < g1.len() implies mine_pred()(#[trigger] g1[i]) == mine_pred()(g2[i]) by {
        assert(same_but_hidden(g1[i], g2[i]));
    }
    lemma_count_same(g1, g2, mine_pred());
}

/// Each neighbour counts towards the sum.
pub proof fn lemma_term_le_sum(g: Seq<Tile>, w: int, h: int, x: int, y: int, k: int, n: int)
    requires
        0 <= k < n,
    ensures
        0 <= mine_at(g, w, h, x + off_x(k), y + off_y(k)) <= mines_around_upto(g, w, h, x, y, n),
    decreases n,
{
    lemma_sum_nonneg(g, w, h, x, y, n - 1);
    if k < n - 1 {
        lemma_term_le_sum(g, w, h, x, y, k, n - 1);
    }
}

pub proof fn lemma_sum_nonneg(g: Seq<Tile>, w: int, h: int, x: int, y: int, n: int)
    ensures
        0 <= mines_around_upto(g, w, h, x, y, n),
    decreases n,
{
    if n > 0 {
        lemma_sum_nonneg(g, w, h, x, y, n - 1);
    }
}

} // verus!

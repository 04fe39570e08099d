use crate::model::{
    col, counts_ok, fresh_tile, lemma_around_same_mines, lemma_cell, lemma_count_same,
    lemma_count_update, lemma_count_zero, lemma_index, mine_pred, mine_total, mines_around,
    mines_around_upto, neighbour, off_x, off_y, row, Tile,
};
use vstd::prelude::*;

verus! {

/// Squared distance from the first dug cell within which no mine is placed.
pub const SAFETY_RADIUS_SQ: usize = 4;

/// (x, y) lies within the safety radius of (sx, sy).
pub open spec fn too_close(x: int, y: int, sx: int, sy: int) -> bool {
    (x - sx) * (x - sx) + (y - sy) * (y - sy) <= SAFETY_RADIUS_SQ
}

/// The indices below `n` of a grid of width `w` that lie outside the safety radius of
/// (sx, sy), in increasing order.
pub open spec fn safe_cells_upto(w: int, sx: int, sy: int, n: int) -> Seq<int>
    decreases n,
{
    if n <= 0 {
        Seq::empty()
    } else if too_close(col(w, n - 1), row(w, n - 1), sx, sy) {
        safe_cells_upto(w, sx, sy, n - 1)
    } else {
        safe_cells_upto(w, sx, sy, n - 1).push(n - 1)
    }
}

/// How many cells of a `w` by `h` grid may hold a mine when (sx, sy) must stay clear.
pub open spec fn safe_room(w: int, h: int, sx: int, sy: int) -> int {
    safe_cells_upto(w, sx, sy, w * h).len() as int
}

/// A freshly generated grid: `w * h` hidden, unflagged tiles of which exactly `m` are
/// mines, none within the safety radius of (sx, sy), every other tile holding its count
/// of neighbouring mines.
pub open spec fn mined_grid(g: Seq<Tile>, w: int, h: int, m: int, sx: int, sy: int) -> bool {
    &&& g.len() == w * h
    &&& mine_total(g) == m
    &&& forall|i: int| 0 <= i < g.len() ==> (#[trigger] g[i]).hidden && !g[i].flag
    &&& forall|i: int|
        0 <= i < g.len() && (#[trigger] g[i]).mine ==> !too_close(col(w, i), row(w, i), sx, sy)
    &&& counts_ok(g, w, h)
}

/// Relies on rand::Rng::gen_range over rand::thread_rng: a number drawn from `0..n`
/// (it panics on an empty range, which `requires` rules out).
#[verifier::external_body]
fn random_below(n: usize) -> (r: usize)
    requires
        n > 0,
    ensures
        r < n,
{
    rand::Rng::gen_range(&mut rand::thread_rng(), 0..n)
}

/// Whether (x, y) lies within the safety radius of (sx, sy).
pub fn mine_too_close(x: usize, y: usize, sx: usize, sy: usize) -> (r: bool)
    ensures
        r == too_close(x as int, y as int, sx as int, sy as int),
{
    let dx: usize = if x >= sx {
        x - sx
    } else {
        sx - x
    };
    let dy: usize = if y >= sy {
        y - sy
    } else {
        sy - y
    };
    proof {
        assert((x - sx) * (x - sx) == dx * dx) by (nonlinear_arith)
            requires
                dx == x - sx || dx == sx - x,
        ;
        assert((y - sy) * (y - sy) == dy * dy) by (nonlinear_arith)
            requires
                dy == y - sy || dy == sy - y,
        ;
    }
    if dx > 2 || dy > 2 {
        proof {
            assert(dx * dx + dy * dy > 4) by (nonlinear_arith)
                requires
                    dx > 2 || dy > 2,
            ;
        }
        false
    } else {
        proof {
            assert(dx * dx <= 4 && dy * dy <= 4) by (nonlinear_arith)
                requires
                    dx <= 2 && dy <= 2,
            ;
        }
        dx * dx + dy * dy <= SAFETY_RADIUS_SQ
    }
}

/// Number of mines among the neighbours of (x, y).
pub fn count_around(g: &Vec<Tile>, w: usize, h: usize, x: usize, y: usize) -> (r: u8)
    requires
        g@.len() == w * h,
        w * h <= usize::MAX,
        x < w,
        y < h,
    ensures
        r as int == mines_around(g@, w as int, h as int, x as int, y as int),
        r <= 8,
{
    let mut cnt: u8 = 0;
    let mut k: usize = 0;
    while k < 8
        invariant
            g@.len() == w * h,
            w * h <= usize::MAX,
            x < w,
            y < h,
            k <= 8,
            cnt <= k,
            cnt as int == mines_around_upto(g@, w as int, h as int, x as int, y as int, k as int),
        decreases 8 - k,
    {
        match neighbour(w, h, x, y, k) {
            Some(j) => {
                proof {
                    lemma_index(w as int, h as int, x + off_x(k as int), y + off_y(k as int));
                }
                if g[j].mine {
                    cnt = cnt + 1;
                }
            },
            None => {},
        }
        k = k + 1;
    }
    cnt
}

/// Writes into every non-mine tile the number of its neighbouring mines.
pub fn count_mines(grid: &mut Vec<Tile>, w: usize, h: usize)
    requires
        old(grid)@.len() == w * h,
        w * h <= usize::MAX,
    ensures
        final(grid)@.len() == w * h,
        forall|j: int|
            0 <= j < w * h ==> (#[trigger] final(grid)@[j]).mine == old(grid)@[j].mine
                && final(grid)@[j].hidden == old(grid)@[j].hidden && final(grid)@[j].flag
                == old(grid)@[j].flag,
        forall|j: int|
            0 <= j < w * h && (#[trigger] final(grid)@[j]).mine ==> final(grid)@[j].count
                == old(grid)@[j].count,
        counts_ok(final(grid)@, w as int, h as int),
{
    let ghost gm = grid@;
    let ghost wi = w as int;
    let n = w * h;
    let mut i: usize = 0;
    while i < n
        invariant
            n == w * h,
            w * h <= usize::MAX,
            grid@.len() == n,
            gm.len() == n,
            gm == old(grid)@,
            i <= n,
            forall|j: int|
                0 <= j < n ==> (#[trigger] grid@[j]).mine == gm[j].mine && grid@[j].hidden
                    == gm[j].hidden && grid@[j].flag == gm[j].flag,
            forall|j: int|
                0 <= j < n && (#[trigger] grid@[j]).mine ==> grid@[j].count == gm[j].count,
            forall|j: int|
                0 <= j < i && !(#[trigger] grid@[j]).mine ==> grid@[j].count == mines_around(
                    gm,
                    wi,
                    h as int,
                    col(wi, j),
                    row(wi, j),
                ),
            wi == w,
        decreases n - i,
    {
        if !grid[i].mine {
            proof {
                lemma_cell(wi, h as int, i as int);
                lemma_around_same_mines(
                    grid@,
                    gm,
                    wi,
                    h as int,
                    col(wi, i as int),
                    row(wi, i as int),
                    8,
                );
            }
            let cnt = count_around(&grid, w, h, i % w, i / w);
            let t = Tile { count: cnt, ..grid[i] };
            grid.set(i, t);
        }
        i = i + 1;
    }
    proof {
        assert forall|j: int|
            0 <= j < grid@.len() && !(#[trigger] grid@[j]).mine implies grid@[j].count
                == mines_around(grid@, wi, h as int, col(wi, j), row(wi, j)) by {
            lemma_around_same_mines(grid@, gm, wi, h as int, col(wi, j), row(wi, j), 8);
        }
    }
}

proof fn lemma_safe_cells(w: int, sx: int, sy: int, n: int)
    requires
        n >= 0,
    ensures
        forall|j: int|
            0 <= j < safe_cells_upto(w, sx, sy, n).len() ==> 0 <= #[trigger] safe_cells_upto(
                w,
                sx,
                sy,
                n,
            )[j] < n && !too_close(
                col(w, safe_cells_upto(w, sx, sy, n)[j]),
                row(w, safe_cells_upto(w, sx, sy, n)[j]),
                sx,
                sy,
            ),
        forall|j: int, l: int|
            0 <= j < l < safe_cells_upto(w, sx, sy, n).len() ==> #[trigger] safe_cells_upto(
                w,
                sx,
                sy,
                n,
            )[j] < #[trigger] safe_cells_upto(w, sx, sy, n)[l],
    decreases n,
{
    if n > 0 {
        lemma_safe_cells(w, sx, sy, n - 1);
        let p = safe_cells_upto(w, sx, sy, n - 1);
        let q = safe_cells_upto(w, sx, sy, n);
        if !too_close(col(w, n - 1), row(w, n - 1), sx, sy) {
            assert(q == p.push(n - 1));
            assert forall|j: int| 0 <= j < p.len() implies q[j] == p[j] by {}
        }
    }
}

/// A fresh grid of `w` by `h` hidden tiles with `m` mines placed uniformly at random
/// outside the safety radius of (sx, sy), each non-mine tile holding its count of
/// neighbouring mines; `None` when fewer than `m` cells lie outside that radius.
pub fn generate_grid_safe(w: usize, h: usize, m: u32, sx: usize, sy: usize) -> (r: Option<
    Vec<Tile>,
>)
    requires
        w * h <= usize::MAX,
    ensures
        r.is_some() == (m <= safe_room(w as int, h as int, sx as int, sy as int)),
        r.is_some() ==> mined_grid(r.unwrap()@, w as int, h as int, m as int, sx as int, sy as int),
{
    let n = w * h;
    let ghost wi = w as int;
    let mut cand: Vec<usize> = Vec::new();
    let mut i: usize = 0;
    while i < n
        invariant
            n == w * h,
            w * h <= usize::MAX,
            i <= n,
            cand@.len() == safe_cells_upto(wi, sx as int, sy as int, i as int).len(),
            forall|j: int|
                0 <= j < cand@.len() ==> #[trigger] cand@[j] as int == safe_cells_upto(
                    wi,
                    sx as int,
                    sy as int,
                    i as int,
                )[j],
            wi == w,
        decreases n - i,
    {
        if w > 0 {
            proof {
                lemma_cell(wi, h as int, i as int);
            }
            if !mine_too_close(i % w, i / w, sx, sy) {
                cand.push(i);
            }
        }
        i = i + 1;
    }
    if (cand.len() as u64) < (m as u64) {
        return None;
    }
    proof {
        lemma_safe_cells(wi, sx as int, sy as int, n as int);
    }
    let ghost c0 = cand@;
    let grid = place_mines(w, h, m, cand);
    proof {
        assert forall|i: int|
            0 <= i < grid@.len() && (#[trigger] grid@[i]).mine implies !too_close(
            col(wi, i),
            row(wi, i),
            sx as int,
            sy as int,
        ) by {
            let j = choose|j: int| 0 <= j < c0.len() && c0[j] == i as usize;
        }
    }
    Some(grid)
}

/// A fresh grid of `w` by `h` hidden tiles with `m` mines placed uniformly at random,
/// each non-mine tile holding its count of neighbouring mines.
pub fn generate_grid(w: usize, h: usize, m: u32) -> (g: Vec<Tile>)
    requires
        w * h <= usize::MAX,
        m <= w * h,
    ensures
        g@.len() == w * h,
        mine_total(g@) == m,
        forall|i: int| 0 <= i < g@.len() ==> (#[trigger] g@[i]).hidden && !g@[i].flag,
        counts_ok(g@, w as int, h as int),
{
    let n = w * h;
    let mut cand: Vec<usize> = Vec::new();
    let mut i: usize = 0;
    while i < n
        invariant
            i <= n,
            cand@.len() == i,
            forall|j: int| 0 <= j < i ==> #[trigger] cand@[j] == j,
        decreases n - i,
    {
        cand.push(i);
        i = i + 1;
    }
    place_mines(w, h, m, cand)
}

/// A grid of `w` by `h` hidden, unflagged tiles with `m` mines, each drawn uniformly from
/// the candidate cells not drawn yet, and every other tile holding its count of
/// neighbouring mines.
fn place_mines(w: usize, h: usize, m: u32, cand: Vec<usize>) -> (g: Vec<Tile>)
    requires
        w * h <= usize::MAX,
        m <= cand@.len(),
        forall|j: int| 0 <= j < cand@.len() ==> #[trigger] cand@[j] < w * h,
        forall|j: int, l: int|
            0 <= j < cand@.len() && 0 <= l < cand@.len() && j != l ==> #[trigger] cand@[j]
                != #[trigger] cand@[l],
    ensures
        g@.len() == w * h,
        mine_total(g@) == m,
        forall|i: int| 0 <= i < g@.len() ==> (#[trigger] g@[i]).hidden && !g@[i].flag,
        forall|i: int| 0 <= i < g@.len() && (#[trigger] g@[i]).mine ==> cand@.contains(i as usize),
        counts_ok(g@, w as int, h as int),
{
    let n = w * h;
    let mut cand = cand;
    let mut grid: Vec<Tile> = Vec::new();
    let mut i: usize = 0;
    while i < n
        invariant
            i <= n,
            grid@.len() == i,
            forall|j: int| 0 <= j < i ==> #[trigger] grid@[j] == fresh_tile(false),
        decreases n - i,
    {
        grid.push(Tile::new(false));
        i = i + 1;
    }
    proof {
        lemma_count_zero(grid@, mine_pred());
    }
    let ghost room = cand@.len();
    let ghost cand0 = cand@;
    let mut placed: u32 = 0;
    while placed < m
        invariant
            n == w * h,
            w * h <= usize::MAX,
            grid@.len() == n,
            placed <= m,
            m <= room,
            cand@.len() + placed == room,
            mine_total(grid@) == placed,
            forall|j: int| 0 <= j < cand@.len() ==> #[trigger] cand@[j] < n,
            forall|j: int| 0 <= j < cand@.len() ==> !grid@[#[trigger] cand@[j] as int].mine,
            forall|j: int| 0 <= j < cand@.len() ==> cand0.contains(#[trigger] cand@[j]),
            forall|j: int, l: int|
                0 <= j < cand@.len() && 0 <= l < cand@.len() && j != l ==> #[trigger] cand@[j]
                    != #[trigger] cand@[l],
            forall|j: int|
                0 <= j < n ==> (#[trigger] grid@[j]).hidden && !grid@[j].flag && grid@[j].count
                    == 0,
            forall|j: int| 0 <= j < n && (#[trigger] grid@[j]).mine ==> cand0.contains(j as usize),
        decreases m - placed,
    {
        let r = random_below(cand.len());
        let ghost cb = cand@;
        let c = cand.swap_remove(r);
        let ghost gb = grid@;
        grid.set(c, Tile::new(true));
        proof {
            lemma_count_update(gb, c as int, fresh_tile(true), mine_pred());
            assert forall|j: int| 0 <= j < cand@.len() implies #[trigger] cand@[j] != c && (
            j != r ==> cand@[j] == cb[j]) && (j == r ==> cand@[j] == cb[cb.len() - 1]) by {
                if j == r {
                    assert(cand@[j] == cb[cb.len() - 1]);
                } else {
                    assert(cand@[j] == cb[j]);
                }
            }
            assert forall|j: int, l: int|
                0 <= j < cand@.len() && 0 <= l < cand@.len() && j != l implies #[trigger] cand@[j]
                    != #[trigger] cand@[l] by {
                let j0 = if j == r {
                    cb.len() - 1
                } else {
                    j
                };
                let l0 = if l == r {
                    cb.len() - 1
                } else {
                    l
                };
                assert(cand@[j] == cb[j0]);
                assert(cand@[l] == cb[l0]);
            }
            assert forall|j: int| 0 <= j < cand@.len() implies !grid@[#[trigger] cand@[j] as int].mine by {
                let j0 = if j == r {
                    cb.len() - 1
                } else {
                    j
                };
                assert(cand@[j] == cb[j0]);
            }
            assert forall|j: int| 0 <= j < cand@.len() implies cand0.contains(#[trigger] cand@[j]) by {
                let j0 = if j == r {
                    cb.len() - 1
                } else {
                    j
                };
                assert(cand@[j] == cb[j0]);
                assert(cb.contains(cb[j0]));
            }
            assert(cb.contains(c));
        }
        placed = placed + 1;
    }
    let ghost gm = grid@;
    count_mines(&mut grid, w, h);
    proof {
        lemma_count_same(grid@, gm, mine_pred());
    }
    grid
}

} // verus!

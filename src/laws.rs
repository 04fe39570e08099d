use crate::board::{dig_spec, flag_delta, flag_spec, lemma_no_mines_around, valid_chord, won, Board};
use crate::flood::{done, empty_cell, flood_spec, in_flood, is_path, open_cell, reachable, regions_closed};
use crate::model::{
    col, count_where, counts_ok, flag_count, flag_pred, in_grid, lemma_cell, lemma_count_update,
    lemma_index, lemma_neighbour_numbered, lemma_term_le_sum, mine_pred, mine_total, mines_around_upto, near,
    revealed, row, state_of, Tile, TileState,
};
use vstd::prelude::*;

verus! {

/// Checking a tile twice, with nothing done to the board in between, gives the same
/// answer: what `check` returns is determined by the board alone.
pub proof fn check_is_idempotent(b: Board, x: usize, y: usize, r1: TileState, r2: TileState)
    requires
        b.wf(),
        x < b.width(),
        y < b.height(),
        r1 == state_of(b@[b.index(x as int, y as int)]),
        r2 == state_of(b@[b.index(x as int, y as int)]),
    ensures
        r1 == r2,
{
}

/// A chord is never valid on a hidden tile, nor on a tile with no neighbouring mine.
pub proof fn chord_needs_revealed_number(g: Seq<Tile>, w: int, h: int, x: int, y: int)
    requires
        g.len() == w * h,
        in_grid(w, h, x, y),
    ensures
        g[y * w + x].hidden ==> !valid_chord(g, w, h, x, y),
        g[y * w + x].count == 0 ==> !valid_chord(g, w, h, x, y),
{
}

/// Digging an unflagged tile with no neighbouring mine reveals exactly the tile, the
/// connected region of hidden empty tiles around it, and the numbered border of that
/// region; nothing else changes, no mine is revealed and the dig succeeds.
pub proof fn dig_empty_reveals_region(g: Seq<Tile>, w: int, h: int, x: int, y: int)
    requires
        g.len() == w * h,
        in_grid(w, h, x, y),
        counts_ok(g, w, h),
        !g[y * w + x].flag,
        !g[y * w + x].mine,
        g[y * w + x].count == 0,
    ensures
        !dig_spec(g, w, h, x, y).1,
        dig_spec(g, w, h, x, y).0.len() == g.len(),
        forall|t: int|
            0 <= t < g.len() ==> (#[trigger] dig_spec(g, w, h, x, y).0[t]).hidden == (g[t].hidden
                && !in_flood(g, w, y * w + x, t)),
        forall|t: int|
            0 <= t < g.len() ==> #[trigger] dig_spec(g, w, h, x, y).0[t] == (if in_flood(
                g,
                w,
                y * w + x,
                t,
            ) {
                revealed(g[t])
            } else {
                g[t]
            }),
        forall|t: int| #[trigger] in_flood(g, w, y * w + x, t) ==> !g[t].mine,
{
    lemma_index(w, h, x, y);
    let s = y * w + x;
    assert(dig_spec(g, w, h, x, y).0 == flood_spec(g, w, s));
    assert forall|t: int| #[trigger] in_flood(g, w, s, t) implies !g[t].mine by {
        if t != s {
            let e = choose|e: int| #[trigger] reachable(g, w, s, e) && near(w, e, t);
            let p = choose|p: Seq<int>|
                #[trigger] is_path(g, w, p) && p.len() > 0 && p[0] == s && p.last() == e;
            assert(open_cell(g, p[p.len() - 1]));
            if t != e {
                lemma_cell(w, h, e);
                lemma_cell(w, h, t);
                if col(w, t) == col(w, e) && row(w, t) == row(w, e) {
                    assert(t == e);
                }
                let k = lemma_neighbour_numbered(col(w, e), row(w, e), col(w, t), row(w, t));
                lemma_term_le_sum(g, w, h, col(w, e), row(w, e), k, 8);
                assert(g[e].count == mines_around_upto(g, w, h, col(w, e), row(w, e), 8));
            }
        }
    }
}

/// Flagging the same tile twice gives back the grid and the count of mines left.
pub proof fn flag_twice_restores(g: Seq<Tile>, s: int)
    requires
        0 <= s < g.len(),
    ensures
        flag_spec(flag_spec(g, s), s) == g,
        flag_delta(g, s) + flag_delta(flag_spec(g, s), s) == 0,
{
    if g[s].hidden {
        assert(flag_spec(flag_spec(g, s), s) =~= g);
    }
}

proof fn lemma_reach_all(g: Seq<Tile>, w: int, h: int, s: int, t: int)
    requires
        0 < w,
        g.len() == w * h,
        0 <= s < g.len(),
        0 <= t < g.len(),
        forall|i: int| 0 <= i < g.len() ==> open_cell(g, i),
    ensures
        reachable(g, w, s, t),
    decreases (if col(w, t) >= col(w, s) {
        col(w, t) - col(w, s)
    } else {
        col(w, s) - col(w, t)
    }) + (if row(w, t) >= row(w, s) {
        row(w, t) - row(w, s)
    } else {
        row(w, s) - row(w, t)
    }),
{
    lemma_cell(w, h, s);
    lemma_cell(w, h, t);
    if col(w, t) == col(w, s) && row(w, t) == row(w, s) {
        let p = seq![s];
        assert(is_path(g, w, p));
    } else {
        let cx = if col(w, t) > col(w, s) {
            col(w, t) - 1
        } else if col(w, t) < col(w, s) {
            col(w, t) + 1
        } else {
            col(w, t)
        };
        let cy = if cx != col(w, t) {
            row(w, t)
        } else if row(w, t) > row(w, s) {
            row(w, t) - 1
        } else {
            row(w, t) + 1
        };
        lemma_index(w, h, cx, cy);
        let u = cy * w + cx;
        lemma_reach_all(g, w, h, s, u);
        let p = choose|p: Seq<int>| #[trigger] is_path(g, w, p) && p.len() > 0 && p[0] == s && p.last() == u;
        let q = p.push(t);
        assert forall|j: int| 0 <= j < q.len() implies open_cell(g, #[trigger] q[j]) by {
            if j < p.len() {
                assert(q[j] == p[j]);
            }
        }
        assert forall|j: int| 0 <= j < q.len() - 1 implies near(w, #[trigger] q[j], q[j + 1]) by {
            assert(q[j] == p[j]);
            if j < p.len() - 1 {
                assert(q[j + 1] == p[j + 1]);
            }
        }
        assert(is_path(g, w, q));
    }
}

/// On a grid with no mines and every tile hidden and unflagged, a single dig anywhere
/// succeeds and reveals every tile, which wins the game.
pub proof fn dig_without_mines_reveals_all(g: Seq<Tile>, w: int, h: int, x: int, y: int)
    requires
        g.len() == w * h,
        in_grid(w, h, x, y),
        counts_ok(g, w, h),
        forall|i: int| 0 <= i < g.len() ==> !(#[trigger] g[i]).mine && g[i].hidden && !g[i].flag,
    ensures
        !dig_spec(g, w, h, x, y).1,
        forall|i: int| 0 <= i < g.len() ==> !(#[trigger] dig_spec(g, w, h, x, y).0[i]).hidden,
        won(dig_spec(g, w, h, x, y).0, 0),
{
    lemma_index(w, h, x, y);
    let s = y * w + x;
    assert forall|i: int| 0 <= i < g.len() implies open_cell(g, i) by {
        lemma_no_mines_around(g, w, h, col(w, i), row(w, i), 8);
    }
    assert(dig_spec(g, w, h, x, y).0 == flood_spec(g, w, s));
    assert forall|i: int| 0 <= i < g.len() implies !(#[trigger] dig_spec(g, w, h, x, y).0[i]).hidden by {
        lemma_reach_all(g, w, h, s, i);
        lemma_cell(w, h, i);
        assert(near(w, i, i));
        assert(in_flood(g, w, s, i));
    }
}

proof fn lemma_same_count(g: Seq<Tile>)
    requires
        forall|i: int| 0 <= i < g.len() ==> (#[trigger] g[i]).flag == g[i].mine,
    ensures
        flag_count(g) == mine_total(g),
    decreases g.len(),
{
    if g.len() > 0 {
        let d = g.drop_last();
        assert forall|i: int| 0 <= i < d.len() implies (#[trigger] d[i]).flag == d[i].mine by {
            assert(d[i] == g[i]);
        }
        lemma_same_count(d);
        assert(count_where(g, flag_pred()) == count_where(d, flag_pred()) + if g.last().flag {
            1int
        } else {
            0
        });
        assert(count_where(g, mine_pred()) == count_where(d, mine_pred()) + if g.last().mine {
            1int
        } else {
            0
        });
    }
}

/// With every mine flagged and every other tile revealed and unflagged, the count of
/// mines left is zero and the game is won.
pub proof fn flags_on_mines_and_reveals_win(g: Seq<Tile>, mine_count: int)
    requires
        mine_total(g) == mine_count,
        forall|i: int| 0 <= i < g.len() && (#[trigger] g[i]).mine ==> g[i].flag,
        forall|i: int| 0 <= i < g.len() && !(#[trigger] g[i]).mine ==> !g[i].hidden && !g[i].flag,
    ensures
        mine_count - flag_count(g) == 0,
        won(g, mine_count - flag_count(g)),
{
    lemma_same_count(g);
}

/// With every mine flagged and one extra flag on a hidden tile without a mine, the count
/// of mines left is negative and the game is not won.
pub proof fn extra_flag_prevents_win(g: Seq<Tile>, mine_count: int, e: int)
    requires
        mine_total(g) == mine_count,
        0 <= e < g.len(),
        !g[e].mine,
        g[e].hidden,
        g[e].flag,
        forall|i: int| 0 <= i < g.len() && (#[trigger] g[i]).mine ==> g[i].flag,
        forall|i: int| 0 <= i < g.len() && i != e && !(#[trigger] g[i]).mine ==> !g[i].flag,
    ensures
        mine_count - flag_count(g) == -1,
        !won(g, mine_count - flag_count(g)),
{
    let u = g.update(e, Tile { flag: false, ..g[e] });
    assert forall|i: int| 0 <= i < u.len() implies (#[trigger] u[i]).flag == u[i].mine by {}
    lemma_same_count(u);
    lemma_count_update(g, e, Tile { flag: false, ..g[e] }, flag_pred());
    lemma_count_update(g, e, Tile { flag: false, ..g[e] }, mine_pred());
}

/// Digging a hidden, unflagged mine reports the hit and leaves that mine revealed, with
/// every other tile as it was.
pub proof fn dig_on_mine_hits(g: Seq<Tile>, w: int, h: int, x: int, y: int)
    requires
        g.len() == w * h,
        in_grid(w, h, x, y),
        g[y * w + x].mine,
        g[y * w + x].hidden,
        !g[y * w + x].flag,
    ensures
        dig_spec(g, w, h, x, y).1,
        dig_spec(g, w, h, x, y).0 == g.update(y * w + x, revealed(g[y * w + x])),
        !dig_spec(g, w, h, x, y).0[y * w + x].hidden,
        dig_spec(g, w, h, x, y).0[y * w + x].mine,
{
    lemma_index(w, h, x, y);
}

/// `p` is a chain of empty tiles, each within one step of the next.
pub open spec fn is_empty_path(g: Seq<Tile>, w: int, p: Seq<int>) -> bool {
    &&& forall|j: int| 0 <= j < p.len() ==> empty_cell(g, #[trigger] p[j])
    &&& forall|j: int| 0 <= j < p.len() - 1 ==> near(w, #[trigger] p[j], p[j + 1])
}

/// `t` lies in the connected region of empty tiles that holds `s`.
pub open spec fn in_region(g: Seq<Tile>, w: int, s: int, t: int) -> bool {
    exists|p: Seq<int>| #[trigger] is_empty_path(g, w, p) && p.len() > 0 && p[0] == s && p.last() == t
}

proof fn lemma_tail_revealed(g: Seq<Tile>, w: int, p: Seq<int>, k: int)
    requires
        regions_closed(g, w),
        is_empty_path(g, w, p),
        0 <= k < p.len(),
        !g[p[k]].hidden,
    ensures
        !g[p.last()].hidden,
    decreases p.len() - k,
{
    if k < p.len() - 1 {
        assert(empty_cell(g, p[k]));
        assert(empty_cell(g, p[k + 1]));
        assert(near(w, p[k], p[k + 1]));
        assert(!g[p[k + 1]].hidden);
        lemma_tail_revealed(g, w, p, k + 1);
    }
}

/// On a board where every revealed empty tile already has its neighbours revealed,
/// digging an unflagged empty tile reveals exactly the connected region of empty tiles
/// that holds it, together with the border of that region: a tile is revealed afterwards
/// if and only if it was before or lies within one step of that region.
pub proof fn dig_empty_reveals_whole_region(g: Seq<Tile>, w: int, h: int, x: int, y: int)
    requires
        g.len() == w * h,
        in_grid(w, h, x, y),
        counts_ok(g, w, h),
        regions_closed(g, w),
        !g[y * w + x].flag,
        !g[y * w + x].mine,
        g[y * w + x].count == 0,
    ensures
        !dig_spec(g, w, h, x, y).1,
        forall|t: int|
            0 <= t < g.len() ==> (!(#[trigger] dig_spec(g, w, h, x, y).0[t]).hidden <==> (
            !g[t].hidden || exists|e: int| #[trigger] in_region(g, w, y * w + x, e) && near(w, e, t))),
{
    lemma_index(w, h, x, y);
    let s = y * w + x;
    dig_empty_reveals_region(g, w, h, x, y);
    let after = dig_spec(g, w, h, x, y).0;
    assert forall|t: int| 0 <= t < g.len() implies (!(#[trigger] after[t]).hidden <==> (!g[t].hidden
        || exists|e: int| #[trigger] in_region(g, w, s, e) && near(w, e, t))) by {
        if !after[t].hidden && g[t].hidden {
            assert(in_flood(g, w, s, t));
            if t == s {
                let p = seq![s];
                assert(is_empty_path(g, w, p));
                lemma_cell(w, h, s);
                assert(in_region(g, w, s, s) && near(w, s, t));
            } else {
                let e = choose|e: int| #[trigger] reachable(g, w, s, e) && near(w, e, t);
                let p = choose|p: Seq<int>|
                    #[trigger] is_path(g, w, p) && p.len() > 0 && p[0] == s && p.last() == e;
                assert forall|j: int| 0 <= j < p.len() implies empty_cell(g, #[trigger] p[j]) by {
                    assert(open_cell(g, p[j]));
                }
                assert(is_empty_path(g, w, p));
                assert(in_region(g, w, s, e));
            }
        }
        if g[t].hidden && exists|e: int| #[trigger] in_region(g, w, s, e) && near(w, e, t) {
            let e = choose|e: int| #[trigger] in_region(g, w, s, e) && near(w, e, t);
            let p = choose|p: Seq<int>|
                #[trigger] is_empty_path(g, w, p) && p.len() > 0 && p[0] == s && p.last() == e;
            if exists|k: int| 0 <= k < p.len() && !g[#[trigger] p[k]].hidden {
                let k = choose|k: int| 0 <= k < p.len() && !g[#[trigger] p[k]].hidden;
                lemma_tail_revealed(g, w, p, k);
                assert(empty_cell(g, p[p.len() - 1]));
                assert(!g[t].hidden);
            } else {
                assert forall|j: int| 0 <= j < p.len() implies open_cell(g, #[trigger] p[j]) by {
                    assert(empty_cell(g, p[j]));
                }
                assert(is_path(g, w, p));
                assert(reachable(g, w, s, e));
                assert(in_flood(g, w, s, t));
            }
        }
    }
}

/// On any well-formed board, digging an unflagged empty tile reveals exactly its connected
/// region of empty tiles and that region's border, and succeeds.
pub proof fn dig_on_board_reveals_region(b: Board, x: usize, y: usize)
    requires
        b.wf(),
        x < b.width(),
        y < b.height(),
        !b@[b.index(x as int, y as int)].flag,
        !b@[b.index(x as int, y as int)].mine,
        b@[b.index(x as int, y as int)].count == 0,
    ensures
        ({
            let (g, hit) = dig_spec(b@, b.width() as int, b.height() as int, x as int, y as int);
            &&& !hit
            &&& forall|t: int|
                0 <= t < b@.len() ==> (!(#[trigger] g[t]).hidden <==> (!b@[t].hidden || exists|e: int|
                    #[trigger] in_region(b@, b.width() as int, b.index(x as int, y as int), e)
                        && near(b.width() as int, e, t)))
        }),
{
    dig_empty_reveals_whole_region(b@, b.width() as int, b.height() as int, x as int, y as int);
}

} // verus!

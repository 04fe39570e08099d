use crate::model::{
    col, hidden_count, hidden_pred, in_grid, lemma_cell, lemma_count_bounds, lemma_count_update,
    lemma_index, lemma_neighbour_numbered, near, neighbour, off_x, off_y, revealed, row,
    same_but_hidden, Tile,
};
use vstd::prelude::*;

verus! {

/// A hidden, mine-free tile with no neighbouring mine: revealing it expands the fill.
pub open spec fn open_cell(g: Seq<Tile>, i: int) -> bool {
    0 <= i < g.len() && g[i].hidden && !g[i].mine && g[i].count == 0
}

/// `p` is a chain of open cells, each within one step of the next.
pub open spec fn is_path(g: Seq<Tile>, w: int, p: Seq<int>) -> bool {
    &&& forall|j: int| 0 <= j < p.len() ==> open_cell(g, #[trigger] p[j])
    &&& forall|j: int| 0 <= j < p.len() - 1 ==> near(w, #[trigger] p[j], p[j + 1])
}

/// `t` lies in the connected open region that contains `s`.
pub open spec fn reachable(g: Seq<Tile>, w: int, s: int, t: int) -> bool {
    exists|p: Seq<int>| #[trigger] is_path(g, w, p) && p.len() > 0 && p[0] == s && p.last() == t
}

/// `t` is revealed by a flood fill started at `s`: `s` itself, the open region that holds
/// `s`, and the border of that region.
pub open spec fn in_flood(g: Seq<Tile>, w: int, s: int, t: int) -> bool {
    0 <= t < g.len() && (t == s || exists|e: int| #[trigger] reachable(g, w, s, e) && near(w, e, t))
}

/// The grid after a flood fill started at `s`.
pub open spec fn flood_spec(g: Seq<Tile>, w: int, s: int) -> Seq<Tile> {
    Seq::new(g.len(), |i: int| if in_flood(g, w, s, i) { revealed(g[i]) } else { g[i] })
}

/// Every cell within one step of `a` is revealed.
pub open spec fn done(g: Seq<Tile>, w: int, a: int) -> bool {
    forall|b: int| 0 <= b < g.len() && near(w, a, b) ==> !(#[trigger] g[b]).hidden
}

/// A tile without a mine and without a neighbouring mine, hidden or not.
pub open spec fn empty_cell(g: Seq<Tile>, i: int) -> bool {
    0 <= i < g.len() && !g[i].mine && g[i].count == 0
}

/// Every revealed empty tile has all its neighbours revealed, as after any sequence of
/// digs on a fresh board.
pub open spec fn regions_closed(g: Seq<Tile>, w: int) -> bool {
    forall|a: int| #[trigger] empty_cell(g, a) && !g[a].hidden ==> done(g, w, a)
}

/// Flood fill keeps every revealed empty tile surrounded by revealed tiles.
pub proof fn lemma_flood_closed(g: Seq<Tile>, w: int, h: int, s: int)
    requires
        0 < w,
        g.len() == w * h,
        regions_closed(g, w),
        0 <= s < g.len(),
        !g[s].mine,
        g[s].count == 0,
    ensures
        regions_closed(flood_spec(g, w, s), w),
{
    let f = flood_spec(g, w, s);
    assert forall|a: int| #[trigger] empty_cell(f, a) && !f[a].hidden implies done(f, w, a) by {
        assert(empty_cell(g, a));
        if !g[a].hidden {
            assert forall|b: int| 0 <= b < f.len() && near(w, a, b) implies !(#[trigger] f[b]).hidden by {
                assert(!g[b].hidden);
            }
        } else {
            assert(in_flood(g, w, s, a));
            assert(open_cell(g, a));
            if a == s {
                assert(is_path(g, w, seq![s]));
            } else {
                let e = choose|e: int| #[trigger] reachable(g, w, s, e) && near(w, e, a);
                let p = choose|p: Seq<int>|
                    #[trigger] is_path(g, w, p) && p.len() > 0 && p[0] == s && p.last() == e;
                let q = p.push(a);
                assert forall|j: int| 0 <= j < q.len() implies open_cell(g, #[trigger] q[j]) by {
                    if j < p.len() {
                        assert(q[j] == p[j]);
                    }
                }
                assert forall|j: int| 0 <= j < q.len() - 1 implies near(w, #[trigger] q[j], q[j + 1]) by {
                    assert(q[j] == p[j]);
                    if j < p.len() - 1 {
                        assert(q[j + 1] == p[j + 1]);
                    }
                }
                assert(is_path(g, w, q));
            }
            assert(reachable(g, w, s, a));
            assert forall|b: int| 0 <= b < f.len() && near(w, a, b) implies !(#[trigger] f[b]).hidden by {
                assert(in_flood(g, w, s, b));
            }
        }
    }
}

proof fn lemma_path_revealed(g0: Seq<Tile>, g: Seq<Tile>, w: int, p: Seq<int>)
    requires
        g.len() == g0.len(),
        is_path(g0, w, p),
        p.len() > 0,
        !g[p[0]].hidden,
        forall|a: int| #[trigger] open_cell(g0, a) && !g[a].hidden ==> done(g, w, a),
    ensures
        forall|j: int| 0 <= j < p.len() ==> !g[#[trigger] p[j]].hidden,
    decreases p.len(),
{
    if p.len() > 1 {
        let q = p.drop_last();
        assert(is_path(g0, w, q)) by {
            assert forall|j: int| 0 <= j < q.len() implies open_cell(g0, #[trigger] q[j]) by {
                assert(q[j] == p[j]);
            }
            assert forall|j: int| 0 <= j < q.len() - 1 implies near(w, #[trigger] q[j], q[j + 1]) by {
                assert(q[j] == p[j] && q[j + 1] == p[j + 1]);
            }
        }
        lemma_path_revealed(g0, g, w, q);
        let n = p.len() - 2;
        assert(q[n] == p[n]);
        assert(open_cell(g0, p[n]));
        assert(near(w, p[n], p[n + 1]));
        assert(!g[p[n + 1]].hidden);
        assert forall|j: int| 0 <= j < p.len() implies !g[#[trigger] p[j]].hidden by {
            if j < p.len() - 1 {
                assert(q[j] == p[j]);
            }
        }
    }
}

/// Reveals the tile at (x, y) and, while the revealed tiles are open, their neighbours,
/// using an explicit work list.
pub fn flood_reveal(grid: &mut Vec<Tile>, w: usize, h: usize, x: usize, y: usize)
    requires
        old(grid)@.len() == w * h,
        w * h <= usize::MAX,
        x < w,
        y < h,
        !old(grid)@[y * w + x].mine,
        old(grid)@[y * w + x].count == 0,
    ensures
        final(grid)@ == flood_spec(old(grid)@, w as int, y * w + x),
{
    proof {
        lemma_index(w as int, h as int, x as int, y as int);
    }
    let s = y * w + x;
    let ghost g0 = grid@;
    let ghost wi = w as int;
    if !grid[s].hidden {
        proof {
            assert forall|e: int| !reachable(g0, wi, s as int, e) by {
                if reachable(g0, wi, s as int, e) {
                    let p = choose|p: Seq<int>|
                        #[trigger] is_path(g0, wi, p) && p.len() > 0 && p[0] == s && p.last() == e;
                    assert(open_cell(g0, p[0]));
                }
            }
            assert(grid@ =~= flood_spec(g0, wi, s as int));
        }
        return ;
    }
    let t = revealed_tile(grid[s]);
    grid.set(s, t);
    let mut stack: Vec<usize> = Vec::new();
    stack.push(s);
    proof {
        let p0 = seq![s as int];
        assert(is_path(g0, wi, p0));
        assert(reachable(g0, wi, s as int, s as int));
        lemma_count_update(g0, s as int, t, hidden_pred());
        lemma_count_bounds(grid@, hidden_pred());
        assert(stack@[0] == s);
        assert forall|a: int|
            #[trigger] open_cell(g0, a) && !grid@[a].hidden && !stack@.contains(a as usize)
                implies done(grid@, wi, a) by {
            if a != s {
                assert(grid@[a] == g0[a]);
            }
        }
    }
    while stack.len() > 0
        invariant
            0 < w,
            w * h <= usize::MAX,
            grid@.len() == g0.len() == w * h,
            0 <= s < w * h,
            open_cell(g0, s as int),
            !grid@[s as int].hidden,
            forall|i: int| 0 <= i < g0.len() ==> same_but_hidden(#[trigger] grid@[i], g0[i]),
            forall|i: int| 0 <= i < g0.len() && (#[trigger] grid@[i]).hidden ==> g0[i].hidden,
            forall|i: int|
                0 <= i < g0.len() && !(#[trigger] grid@[i]).hidden && g0[i].hidden ==> in_flood(
                    g0,
                    wi,
                    s as int,
                    i,
                ),
            forall|j: int|
                0 <= j < stack.len() ==> 0 <= #[trigger] stack@[j] < g0.len() && reachable(
                    g0,
                    wi,
                    s as int,
                    stack@[j] as int,
                ),
            forall|a: int|
                #[trigger] open_cell(g0, a) && !grid@[a].hidden && !stack@.contains(a as usize)
                    ==> done(grid@, wi, a),
            forall|j: int| 0 <= j < stack.len() ==> !grid@[#[trigger] stack@[j] as int].hidden,
            wi == w,
        decreases 2 * hidden_count(grid@) + stack.len(),
    {
        let ghost st0 = stack@;
        let ghost m0 = 2 * hidden_count(grid@) + stack.len();
        let c = stack.pop().unwrap();
        proof {
            assert(st0[st0.len() - 1] == c);
            assert(stack@ =~= st0.drop_last());
            assert(!grid@[c as int].hidden);
            assert forall|j: int| 0 <= j < stack.len() implies !grid@[#[trigger] stack@[j] as int].hidden by {
                assert(stack@[j] == st0[j]);
            }
            assert(reachable(g0, wi, s as int, c as int));
            lemma_cell(wi, h as int, c as int);
            assert forall|a: int|
                #[trigger] open_cell(g0, a) && !grid@[a].hidden && !stack@.contains(a as usize) && a
                    != c implies done(grid@, wi, a) by {
                if !st0.contains(a as usize) {
                } else {
                    let j = choose|j: int| 0 <= j < st0.len() && st0[j] == a as usize;
                    if j < st0.len() - 1 {
                        assert(stack@[j] == a as usize);
                    }
                }
            }
        }
        let cx = c % w;
        let cy = c / w;
        let mut k: usize = 0;
        while k < 8
            invariant
                0 < w,
                w * h <= usize::MAX,
                grid@.len() == g0.len() == w * h,
                0 <= s < w * h,
                open_cell(g0, s as int),
                !grid@[s as int].hidden,
                forall|i: int| 0 <= i < g0.len() ==> same_but_hidden(#[trigger] grid@[i], g0[i]),
                forall|i: int| 0 <= i < g0.len() && (#[trigger] grid@[i]).hidden ==> g0[i].hidden,
                forall|i: int|
                    0 <= i < g0.len() && !(#[trigger] grid@[i]).hidden && g0[i].hidden
                        ==> in_flood(g0, wi, s as int, i),
                forall|j: int|
                    0 <= j < stack.len() ==> 0 <= #[trigger] stack@[j] < g0.len() && reachable(
                        g0,
                        wi,
                        s as int,
                        stack@[j] as int,
                    ),
                forall|j: int| 0 <= j < stack.len() ==> !grid@[#[trigger] stack@[j] as int].hidden,
                forall|a: int|
                    #[trigger] open_cell(g0, a) && !grid@[a].hidden && !stack@.contains(a as usize)
                        && a != c ==> done(grid@, wi, a),
                wi == w,
                0 <= c < g0.len(),
                reachable(g0, wi, s as int, c as int),
                !grid@[c as int].hidden,
                cx == col(wi, c as int),
                cy == row(wi, c as int),
                cx < w,
                cy < h,
                k <= 8,
                forall|k2: int|
                    0 <= k2 < k && in_grid(wi, h as int, cx + off_x(k2), cy + off_y(k2))
                        ==> !grid@[(cy + off_y(k2)) * wi + (cx + off_x(k2))].hidden,
                2 * hidden_count(grid@) + stack.len() < m0,
            decreases 8 - k,
        {
            let ghost gi = grid@;
            match neighbour(w, h, cx, cy, k) {
                Some(j) => {
                    proof {
                        lemma_index(wi, h as int, cx + off_x(k as int), cy + off_y(k as int));
                    }
                    if grid[j].hidden {
                        let ghost gb = grid@;
                        let tj = revealed_tile(grid[j]);
                        grid.set(j, tj);
                        proof {
                            lemma_count_update(gb, j as int, tj, hidden_pred());
                            lemma_count_bounds(grid@, hidden_pred());
                            lemma_index(
                                wi,
                                h as int,
                                cx + off_x(k as int),
                                cy + off_y(k as int),
                            );
                            assert(near(wi, c as int, j as int));
                            assert(in_flood(g0, wi, s as int, j as int));
                            assert forall|a: int|
                                #[trigger] open_cell(g0, a) && !grid@[a].hidden
                                    && !stack@.contains(a as usize) && a != c && a != j implies done(
                                grid@,
                                wi,
                                a,
                            ) by {
                                assert(!gb[a].hidden);
                                assert forall|b: int|
                                    0 <= b < grid@.len() && near(wi, a, b) implies !(
                                    #[trigger] grid@[b]).hidden by {
                                    assert(!gb[b].hidden);
                                }
                            }
                        }
                        if !tj.mine && tj.count == 0 {
                            proof {
                                let pc = choose|p: Seq<int>|
                                    #[trigger] is_path(g0, wi, p) && p.len() > 0 && p[0] == s
                                        && p.last() == c;
                                let pj = pc.push(j as int);
                                assert(open_cell(g0, j as int));
                                assert forall|i: int| 0 <= i < pj.len() implies open_cell(
                                    g0,
                                    #[trigger] pj[i],
                                ) by {
                                    if i < pc.len() {
                                        assert(pj[i] == pc[i]);
                                    }
                                }
                                assert forall|i: int| 0 <= i < pj.len() - 1 implies near(
                                    wi,
                                    #[trigger] pj[i],
                                    pj[i + 1],
                                ) by {
                                    assert(pj[i] == pc[i]);
                                    if i < pc.len() - 1 {
                                        assert(pj[i + 1] == pc[i + 1]);
                                    }
                                }
                                assert(is_path(g0, wi, pj));
                                assert(reachable(g0, wi, s as int, j as int));
                            }
                            let ghost sb = stack@;
                            stack.push(j);
                            proof {
                                assert(stack@[stack@.len() - 1] == j);
                                assert(stack@.contains(j));
                                assert forall|i: int| 0 <= i < stack.len() implies !grid@[#[trigger] stack@[i] as int].hidden by {
                                    if i < stack.len() - 1 {
                                        assert(stack@[i] == sb[i]);
                                    }
                                }
                                assert forall|a: int|
                                    #[trigger] open_cell(g0, a) && !grid@[a].hidden
                                        && !stack@.contains(a as usize) && a != c implies done(
                                    grid@,
                                    wi,
                                    a,
                                ) by {
                                    if a != j {
                                        assert(stack@.drop_last() =~= sb);
                                        if sb.contains(a as usize) {
                                            let i = choose|i: int| 0 <= i < sb.len() && sb[i] == a as usize;
                                            assert(stack@[i] == a as usize);
                                        }
                                    }
                                }
                            }
                        }
                    }
                },
                None => {},
            }
            proof {
                assert forall|k2: int|
                    0 <= k2 < k + 1 && in_grid(wi, h as int, cx + off_x(k2), cy + off_y(k2))
                        implies !grid@[(cy + off_y(k2)) * wi + (cx + off_x(k2))].hidden by {
                    lemma_index(wi, h as int, cx + off_x(k2), cy + off_y(k2));
                    let i = (cy + off_y(k2)) * wi + (cx + off_x(k2));
                    if k2 < k {
                        assert(!gi[i].hidden);
                    }
                }
            }
            k += 1;
        }
        proof {
            lemma_count_bounds(grid@, hidden_pred());
            assert forall|b: int| 0 <= b < grid@.len() && near(wi, c as int, b) implies !(
            #[trigger] grid@[b]).hidden by {
                if b != c {
                    lemma_cell(wi, h as int, b);
                    if col(wi, b) == cx && row(wi, b) == cy {
                        assert(b == c);
                    }
                    let k2 = lemma_neighbour_numbered(cx as int, cy as int, col(wi, b), row(wi, b));
                    assert(in_grid(wi, h as int, cx + off_x(k2), cy + off_y(k2)));
                }
            }
        }
    }
    proof {
        assert forall|i: int| 0 <= i < g0.len() implies grid@[i] == (if in_flood(
            g0,
            wi,
            s as int,
            i,
        ) {
            revealed(g0[i])
        } else {
            g0[i]
        }) by {
            if in_flood(g0, wi, s as int, i) && i != s {
                let e = choose|e: int| #[trigger] reachable(g0, wi, s as int, e) && near(wi, e, i);
                let p = choose|p: Seq<int>|
                    #[trigger] is_path(g0, wi, p) && p.len() > 0 && p[0] == s && p.last() == e;
                lemma_path_revealed(g0, grid@, wi, p);
                assert(!grid@[p[p.len() - 1]].hidden);
                assert(open_cell(g0, p[p.len() - 1]));
            }
        }
        assert(grid@ =~= flood_spec(g0, wi, s as int));
    }
}

fn revealed_tile(t: Tile) -> (r: Tile)
    ensures
        r == revealed(t),
{
    Tile { hidden: false, ..t }
}

} // verus!

use crate::board::Board;
use crate::model::{state_of, TileState};
use vstd::prelude::*;

verus! {

/// The character that shows a tile in a state.
pub open spec fn glyph(s: TileState) -> char {
    match s {
        TileState::Hidden => '◼',
        TileState::Flagged => '◄',
        TileState::Mine => '◉',
        TileState::Empty => ' ',
        TileState::Count(n) => digit(n),
    }
}

/// The decimal digit for a count of neighbouring mines (at most eight).
pub open spec fn digit(n: u8) -> char {
    if n == 1 {
        '1'
    } else if n == 2 {
        '2'
    } else if n == 3 {
        '3'
    } else if n == 4 {
        '4'
    } else if n == 5 {
        '5'
    } else if n == 6 {
        '6'
    } else if n == 7 {
        '7'
    } else if n == 8 {
        '8'
    } else {
        '9'
    }
}

/// The first `k` tiles of row `y`, separated by single spaces.
pub open spec fn row_text(g: Seq<crate::model::Tile>, w: int, y: int, k: int) -> Seq<char>
    decreases k,
{
    if k <= 0 {
        Seq::empty()
    } else if k == 1 {
        seq![glyph(state_of(g[y * w]))]
    } else {
        row_text(g, w, y, k - 1).push(' ').push(glyph(state_of(g[y * w + k - 1])))
    }
}

/// The first `n` rows, each ended by a newline.
pub open spec fn rows_text(g: Seq<crate::model::Tile>, w: int, n: int) -> Seq<char>
    decreases n,
{
    if n <= 0 {
        Seq::empty()
    } else {
        rows_text(g, w, n - 1) + row_text(g, w, n - 1, w).push('\n')
    }
}

/// Relies on String::push: appends one character.
#[verifier::external_body]
fn push_char(s: &mut String, c: char)
    ensures
        final(s)@ == old(s)@.push(c),
{
    s.push(c)
}

fn glyph_of(s: TileState) -> (c: char)
    ensures
        c == glyph(s),
{
    match s {
        TileState::Hidden => '◼',
        TileState::Flagged => '◄',
        TileState::Mine => '◉',
        TileState::Empty => ' ',
        TileState::Count(n) => {
            if n == 1 {
                '1'
            } else if n == 2 {
                '2'
            } else if n == 3 {
                '3'
            } else if n == 4 {
                '4'
            } else if n == 5 {
                '5'
            } else if n == 6 {
                '6'
            } else if n == 7 {
                '7'
            } else if n == 8 {
                '8'
            } else {
                '9'
            }
        },
    }
}

impl Board {
    /// The board as text: one line per row, the tiles of a row separated by spaces.
    pub fn to_text(&self) -> (r: String)
        requires
            self.wf(),
        ensures
            r@ == rows_text(self@, self.width() as int, self.height() as int),
    {
        let w = self.width();
        let h = self.height();
        let mut s = String::new();
        let mut y: usize = 0;
        while y < h
            invariant
                self.wf(),
                w == self.width(),
                h == self.height(),
                y <= h,
                s@ == rows_text(self@, w as int, y as int),
            decreases h - y,
        {
            let ghost before = s@;
            let mut x: usize = 0;
            while x < w
                invariant
                    self.wf(),
                    w == self.width(),
                    h == self.height(),
                    y < h,
                    x <= w,
                    s@ == before + row_text(self@, w as int, y as int, x as int),
                decreases w - x,
            {
                if x > 0 {
                    push_char(&mut s, ' ');
                }
                let c = glyph_of(self.check(x, y));
                push_char(&mut s, c);
                proof {
                    if x == 0 {
                        assert(row_text(self@, w as int, y as int, 1) == seq![glyph(state_of(self@[y * w + 0]))]);
                    }
                    assert(s@ =~= before + row_text(self@, w as int, y as int, x + 1));
                }
                x = x + 1;
            }
            push_char(&mut s, '\n');
            proof {
                assert(s@ =~= rows_text(self@, w as int, y + 1));
            }
            y = y + 1;
        }
        s
    }
}

} // verus!

//! The search: first-fit placement of every piece, growing the board until all fit.
use vstd::prelude::*;
use crate::grid::{blank, fits, put, Grid};
use crate::mask::view_of;
use crate::packing::{board_packed, labels_distinct, lemma_attempt_packed, lemma_attempt_succeeds};
use crate::tetrimino::Tetrimino;

verus! {

/// The largest board side the search grows to: one more would not fit the
/// cell count in `u32`.
pub const MAX_SIDE: u32 = 65535;

/// The number of candidate origins along an axis of extent `n` for a piece of
/// extent `e`: all that keep the piece on the board, or just 0 when it is
/// longer than the board.
pub open spec fn span(n: int, e: int) -> int {
    if n < e { 1 } else { n - e + 1 }
}

/// The first origin, in row-major order from (x, y), at which `t` fits.
pub open spec fn scan(cells: Seq<char>, w: int, h: int, t: Tetrimino, y: int, x: int) -> Option<(int, int)>
    decreases span(h, t.height as int) - y, span(w, t.width as int) - x,
{
    if y < 0 || x < 0 || y >= span(h, t.height as int) {
        None
    } else if x >= span(w, t.width as int) {
        scan(cells, w, h, t, y + 1, 0)
    } else if fits(cells, w, h, x, y, view_of(t.shape)) {
        Some((x, y))
    } else {
        scan(cells, w, h, t, y, x + 1)
    }
}

/// Places `pieces[k..]` in order, each at its first fitting origin on a square
/// board of side `s`: whether all of them found one, and the board when the
/// pass ended (at the first piece that fits nowhere, if any).
pub open spec fn pass_from(cells: Seq<char>, s: int, pieces: Seq<Tetrimino>, k: int) -> (bool, Seq<char>)
    decreases pieces.len() - k,
{
    if k < 0 || k >= pieces.len() {
        (true, cells)
    } else {
        match scan(cells, s, s, pieces[k], 0, 0) {
            None => (false, cells),
            Some(o) => pass_from(
                put(cells, s, o.0, o.1, view_of(pieces[k].shape), pieces[k].char), s, pieces, k + 1),
        }
    }
}

/// One attempt on an empty board of side `s`.
pub open spec fn attempt(pieces: Seq<Tetrimino>, s: int) -> (bool, Seq<char>) {
    pass_from(blank(s * s), s, pieces, 0)
}

/// The search that starts at side `s0` ends at side `s` with `cells`: the
/// attempt at every smaller side from `s0` on failed, and `s` is the first
/// side whose attempt succeeded (or the largest side), `cells` its board.
pub open spec fn solved_at(pieces: Seq<Tetrimino>, s0: int, s: int, cells: Seq<char>) -> bool {
    &&& s0 <= s <= MAX_SIDE
    &&& forall|t: int| s0 <= t < s ==> !(#[trigger] attempt(pieces, t)).0
    &&& attempt(pieces, s).1 == cells
    &&& (attempt(pieces, s).0 || s == MAX_SIDE)
}

/// The side of the first board tried for `n` pieces: the least side of at
/// least 2 whose area holds 4 cells per piece.
pub open spec fn initial_side(n: int, s: int) -> bool {
    &&& s >= 2
    &&& s * s >= 4 * n
    &&& (s == 2 || (s - 1) * (s - 1) < 4 * n)
}

/// Places `t` at its first fitting origin, in row-major order.
fn place_first(grid: &mut Grid, t: &Tetrimino) -> (r: bool)
    requires
        old(grid).wf(),
    ensures
        final(grid).width == old(grid).width,
        final(grid).height == old(grid).height,
        final(grid).wf(),
        r == scan(old(grid).cells@, old(grid).width as int, old(grid).height as int, *t, 0, 0) is Some,
        r ==> ({
            let o = scan(old(grid).cells@, old(grid).width as int, old(grid).height as int, *t, 0, 0)->Some_0;
            final(grid).cells@ == put(old(grid).cells@, old(grid).width as int, o.0, o.1, view_of(t.shape), t.char)
        }),
        !r ==> final(grid).cells@ == old(grid).cells@,
{
    let ghost cells = grid.cells@;
    let ghost w = grid.width as int;
    let ghost h = grid.height as int;
    let ny: u64 = if grid.height < t.height { 1 } else { (grid.height - t.height) as u64 + 1 };
    let nx: u64 = if grid.width < t.width { 1 } else { (grid.width - t.width) as u64 + 1 };
    let mut y: u64 = 0;
    while y < ny
        invariant
            grid.wf(),
            grid.cells@ == cells,
            grid.width == w,
            grid.height == h,
            cells == old(grid).cells@,
            w == old(grid).width,
            h == old(grid).height,
            ny == span(h, t.height as int),
            nx == span(w, t.width as int),
            y <= ny,
            scan(cells, w, h, *t, 0, 0) == scan(cells, w, h, *t, y as int, 0),
        decreases ny - y,
    {
        let mut x: u64 = 0;
        while x < nx
            invariant
                grid.wf(),
                grid.cells@ == cells,
                grid.width == w,
                grid.height == h,
                cells == old(grid).cells@,
                w == old(grid).width,
                h == old(grid).height,
                ny == span(h, t.height as int),
                nx == span(w, t.width as int),
                y < ny,
                x <= nx,
                scan(cells, w, h, *t, 0, 0) == scan(cells, w, h, *t, y as int, x as int),
            decreases nx - x,
        {
            match grid.insert(x as u32, y as u32, t) {
                Ok(_) => {
                    return true;
                },
                Err(_) => {},
            }
            x += 1;
        }
        y += 1;
    }
    false
}

/// At most 26 pieces, each a normalized four-cell piece, with distinct labels
/// other than the empty cell.
pub open spec fn valid_pieces(pieces: Seq<Tetrimino>) -> bool {
    &&& pieces.len() <= 26
    &&& forall|j: int| 0 <= j < pieces.len() ==> (#[trigger] pieces[j]).wf()
    &&& labels_distinct(pieces)
}

/// The search is deterministic: the same pieces and the same first side end
/// at the same side with the same board.
pub proof fn lemma_solved_at_unique(
    pieces: Seq<Tetrimino>,
    s0: int,
    s1: int,
    c1: Seq<char>,
    s2: int,
    c2: Seq<char>,
)
    requires
        solved_at(pieces, s0, s1, c1),
        solved_at(pieces, s0, s2, c2),
    ensures
        s1 == s2,
        c1 == c2,
{
    if s1 < s2 {
        assert(!attempt(pieces, s1).0);
    } else if s2 < s1 {
        assert(!attempt(pieces, s2).0);
    }
}

pub struct Fillit {
    pub tetriminos: Vec<Tetrimino>,
    pub grid: Grid,
}

impl Fillit {
    /// A session for `tetriminos` on an empty board of the first side tried.
    pub fn new(tetriminos: Vec<Tetrimino>) -> (r: Self)
        requires
            tetriminos@.len() <= 26,
        ensures
            r.tetriminos@ == tetriminos@,
            r.grid.width == r.grid.height,
            initial_side(tetriminos@.len() as int, r.grid.width as int),
            r.grid.cells@ == blank(r.grid.width * r.grid.height),
            r.grid.wf(),
    {
        let mut size: u32 = 2;
        let n: u32 = tetriminos.len() as u32 * 4;
        loop
            invariant
                2 <= size <= 11,
                n == 4 * tetriminos@.len(),
                n <= 104,
                size == 2 || (size - 1) * (size - 1) < n,
            ensures
                2 <= size <= 11,
                size * size >= n,
                size == 2 || (size - 1) * (size - 1) < n,
            decreases 11 - size,
        {
            assert(size * size <= 121) by (nonlinear_arith)
                requires 2 <= size <= 11;
            if size * size >= n {
                break;
            }
            assert(size < 11) by (nonlinear_arith)
                requires size * size < n, n <= 104, size >= 2;
            size += 1;
        }
        assert(size * size <= 121) by (nonlinear_arith)
            requires 2 <= size <= 11;
        Self { tetriminos, grid: Grid::new(size, size) }
    }

    /// One pass: places every piece in order, each at its first fitting origin.
    fn place_all(&mut self) -> (r: bool)
        requires
            old(self).grid.wf(),
            old(self).grid.width == old(self).grid.height,
        ensures
            final(self).tetriminos@ == old(self).tetriminos@,
            final(self).grid.width == old(self).grid.width,
            final(self).grid.height == old(self).grid.height,
            final(self).grid.wf(),
            pass_from(old(self).grid.cells@, old(self).grid.width as int, old(self).tetriminos@, 0)
                == (r, final(self).grid.cells@),
    {
        let ghost start = self.grid.cells@;
        let ghost s = self.grid.width as int;
        let ghost pieces = self.tetriminos@;
        let mut k: usize = 0;
        while k < self.tetriminos.len()
            invariant
                self.tetriminos@ == pieces,
                pieces == old(self).tetriminos@,
                start == old(self).grid.cells@,
                s == old(self).grid.width,
                s == old(self).grid.height,
                self.grid.wf(),
                self.grid.width == s,
                self.grid.height == s,
                k <= pieces.len(),
                pass_from(start, s, pieces, 0) == pass_from(self.grid.cells@, s, pieces, k as int),
                k == pieces.len() ==> pass_from(self.grid.cells@, s, pieces, k as int) == (true, self.grid.cells@),
            decreases pieces.len() - k,
        {
            if !place_first(&mut self.grid, &self.tetriminos[k]) {
                return false;
            }
            k += 1;
        }
        true
    }

    /// Places every piece, growing the board by one row and one column and
    /// starting over from an empty board whenever one does not fit.
    pub fn solve(&mut self)
        requires
            old(self).grid.wf(),
            old(self).grid.width == old(self).grid.height,
            old(self).grid.width <= MAX_SIDE,
            old(self).grid.cells@ == blank(old(self).grid.width * old(self).grid.height),
        ensures
            final(self).tetriminos@ == old(self).tetriminos@,
            final(self).grid.wf(),
            final(self).grid.width == final(self).grid.height,
            final(self).grid.width >= old(self).grid.width,
            solved_at(old(self).tetriminos@, old(self).grid.width as int, final(self).grid.width as int,
                final(self).grid.cells@),
            valid_pieces(old(self).tetriminos@) ==> attempt(old(self).tetriminos@, final(self).grid.width as int).0,
            valid_pieces(old(self).tetriminos@) && old(self).grid.width >= 1
                ==> board_packed(final(self).grid.cells@, final(self).grid.width as int, old(self).tetriminos@),
    {
        let ghost s0 = self.grid.width as int;
        let ghost pieces = self.tetriminos@;
        let mut placed = self.place_all();
        while !placed && self.grid.width < MAX_SIDE
            invariant
                self.tetriminos@ == pieces,
                self.grid.wf(),
                self.grid.width == self.grid.height,
                s0 <= self.grid.width <= MAX_SIDE,
                forall|t: int| s0 <= t < self.grid.width ==> !(#[trigger] attempt(pieces, t)).0,
                attempt(pieces, self.grid.width as int) == (placed, self.grid.cells@),
            decreases MAX_SIDE - self.grid.width,
        {
            assert((self.grid.width + 1) * (self.grid.height + 1) <= 65535 * 65535) by (nonlinear_arith)
                requires self.grid.width < 65535, self.grid.width == self.grid.height;
            self.grid.grow(1);
            placed = self.place_all();
        }
        proof {
            if valid_pieces(pieces) && !placed {
                lemma_attempt_succeeds(pieces, MAX_SIDE as int);
            }
            if valid_pieces(pieces) && s0 >= 1 {
                lemma_attempt_packed(pieces, self.grid.width as int);
            }
        }
    }
}

} // verus!

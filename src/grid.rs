//! A rectangular board of labelled cells, stored row by row.
use vstd::prelude::*;
use vstd::arithmetic::div_mod::{lemma_fundamental_div_mod, lemma_fundamental_div_mod_converse};
use crate::mask::view_of;
use crate::tetrimino::Tetrimino;

verus! {

/// The character of an empty cell.
pub const EMPTY: char = ' ';

/// The cell that a board of row length `w` keeps at (x, y): it is found by
/// its position `y * w + x` alone, and a position past the end reads as '?'.
pub open spec fn at(cells: Seq<char>, w: int, x: int, y: int) -> char {
    let idx = y * w + x;
    if 0 <= idx < cells.len() { cells[idx] } else { '?' }
}

/// `n` empty cells.
pub open spec fn blank(n: int) -> Seq<char> {
    Seq::new(n as nat, |i: int| ' ')
}

/// The mask `m` with its top-left corner at (x, y) occupies (px, py).
pub open spec fn covers(m: Seq<Seq<u8>>, x: int, y: int, px: int, py: int) -> bool {
    x <= px < x + 4 && y <= py < y + 4 && m[py - y][px - x] == 1
}

/// (x, y) lies on a board of `w` by `h` cells and is empty.
pub open spec fn free_at(cells: Seq<char>, w: int, h: int, x: int, y: int) -> bool {
    0 <= x < w && 0 <= y < h && at(cells, w, x, y) == ' '
}

/// Every occupied cell of `m`, with its top-left corner at (x, y), lies on the
/// board and is empty.
pub open spec fn fits(cells: Seq<char>, w: int, h: int, x: int, y: int, m: Seq<Seq<u8>>) -> bool {
    forall|i: int, j: int| 0 <= i < 4 && 0 <= j < 4 && m[i][j] == 1 ==> #[trigger] free_at(cells, w, h, x + j, y + i)
}

/// The cells with `label` written where `m`, at (x, y), covers a cell of the board.
pub open spec fn put(cells: Seq<char>, w: int, x: int, y: int, m: Seq<Seq<u8>>, label: char) -> Seq<char> {
    Seq::new(cells.len(), |p: int| if covers(m, x, y, p % w, p / w) { label } else { cells[p] })
}

/// Covered by `m` at (x, y), among the mask cells that come before row `i`, column `j`.
pub open spec fn covers_before(m: Seq<Seq<u8>>, x: int, y: int, px: int, py: int, i: int, j: int) -> bool {
    covers(m, x, y, px, py) && (py - y < i || (py - y == i && px - x < j))
}

pub proof fn lemma_position(w: int, h: int, x: int, y: int)
    requires
        0 <= x < w,
        0 <= y < h,
    ensures
        (y * w + x) % w == x,
        (y * w + x) / w == y,
        0 <= y * w + x < w * h,
{
    lemma_fundamental_div_mod_converse(y * w + x, w, y, x);
    assert(y * w + x < w * h) by (nonlinear_arith)
        requires 0 <= x < w, 0 <= y < h;
    assert(0 <= y * w) by (nonlinear_arith)
        requires 0 <= x < w, 0 <= y;
}

pub proof fn lemma_coordinates(w: int, h: int, p: int)
    requires
        0 < w,
        0 <= p < w * h,
    ensures
        0 <= p % w < w,
        0 <= p / w < h,
        p == (p / w) * w + p % w,
{
    lemma_fundamental_div_mod(p, w);
    assert(0 <= p % w < w) by (nonlinear_arith)
        requires 0 < w;
    assert(p / w < h) by (nonlinear_arith)
        requires 0 < w, 0 <= p < w * h, p == w * (p / w) + (p % w), 0 <= p % w < w;
    assert(0 <= p / w) by (nonlinear_arith)
        requires 0 < w, 0 <= p;
    assert(p == (p / w) * w + p % w) by (nonlinear_arith)
        requires p == w * (p / w) + (p % w);
}

pub struct Grid {
    pub width: u32,
    pub height: u32,
    pub cells: Vec<char>,
}

impl Grid {
    /// One cell per square, and a cell count that fits in `u32`.
    pub open spec fn wf(&self) -> bool {
        &&& self.cells@.len() == self.width * self.height
        &&& self.width * self.height <= u32::MAX
    }

    pub open spec fn cell_at(&self, x: int, y: int) -> char {
        at(self.cells@, self.width as int, x, y)
    }

    /// An empty board of `width` by `height` cells.
    pub fn new(width: u32, height: u32) -> (r: Grid)
        requires
            width * height <= u32::MAX,
        ensures
            r.width == width,
            r.height == height,
            r.cells@ == blank(width * height),
            r.wf(),
    {
        let n: u32 = width * height;
        let mut cells: Vec<char> = Vec::new();
        let mut k: u32 = 0;
        while k < n
            invariant
                k <= n,
                cells@ == blank(k as int),
            decreases n - k,
        {
            cells.push(EMPTY);
            k += 1;
            assert(cells@ =~= blank(k as int));
        }
        Grid { width, height, cells }
    }

    fn probe(&self, x: u64, y: u64) -> (r: char)
        ensures
            r == self.cell_at(x as int, y as int),
    {
        assert(y as int * self.width as int <= 0xFFFF_FFFF_FFFF_FFFF * 0xFFFF_FFFF) by (nonlinear_arith)
            requires y <= 0xFFFF_FFFF_FFFF_FFFFu64, self.width <= 0xFFFF_FFFFu32;
        let idx: u128 = y as u128 * self.width as u128 + x as u128;
        if idx >= self.cells.len() as u128 {
            return '?';
        }
        self.cells[idx as usize]
    }

    /// The cell at (x, y), read by its position `y * width + x`; '?' past the end.
    pub fn get(&self, x: u32, y: u32) -> (r: char)
        ensures
            r == self.cell_at(x as int, y as int),
    {
        self.probe(x as u64, y as u64)
    }

    /// Writes `c` at (x, y) when the cell lies on the board and is empty;
    /// otherwise leaves the board as it is.
    pub fn set(&mut self, x: u32, y: u32, c: char)
        ensures
            final(self).width == old(self).width,
            final(self).height == old(self).height,
            final(self).cells@ == (if x < old(self).width && y < old(self).height
                && old(self).cell_at(x as int, y as int) == EMPTY {
                old(self).cells@.update(y * old(self).width + x, c)
            } else {
                old(self).cells@
            }),
    {
        if self.get(x, y) != EMPTY {
            return;
        }
        if x < self.width && y < self.height {
            assert(y as int * self.width as int <= 0xFFFF_FFFF * 0xFFFF_FFFF) by (nonlinear_arith)
                requires y <= 0xFFFF_FFFFu32, self.width <= 0xFFFF_FFFFu32;
            let idx: u64 = y as u64 * self.width as u64 + x as u64;
            assert(idx as int == y as int * self.width as int + x as int);
            let n: usize = self.cells.len();
            assert(idx < n);
            let k: usize = idx as usize;
            self.cells.set(k, c);
        }
    }

    /// Adds `size` columns and `size` rows, and empties every cell.
    pub fn grow(&mut self, size: u32)
        requires
            (old(self).width + size) * (old(self).height + size) <= u32::MAX,
        ensures
            final(self).width == old(self).width + size,
            final(self).height == old(self).height + size,
            final(self).cells@ == blank(final(self).width * final(self).height),
            final(self).wf(),
    {
        assert((self.width + size) <= (self.width + size) * (self.height + size)
            || self.height + size == 0) by (nonlinear_arith);
        assert((self.height + size) <= (self.width + size) * (self.height + size)
            || self.width + size == 0) by (nonlinear_arith);
        *self = Grid::new(self.width + size, self.height + size);
    }

    /// Whether each occupied cell of `tetrimino`, with its top-left corner at
    /// (x, y), lies on the board and is empty.
    pub fn can_insert(&self, x: u32, y: u32, tetrimino: &Tetrimino) -> (r: bool)
        ensures
            r == fits(self.cells@, self.width as int, self.height as int, x as int, y as int, view_of(tetrimino.shape)),
    {
        let ghost m = view_of(tetrimino.shape);
        let mut i: usize = 0;
        while i < 4
            invariant
                i <= 4,
                m == view_of(tetrimino.shape),
                forall|a: int, b: int| 0 <= a < i && 0 <= b < 4 && m[a][b] == 1
                    ==> #[trigger] free_at(self.cells@, self.width as int, self.height as int, x + b, y + a),
            decreases 4 - i,
        {
            let row = tetrimino.shape[i];
            assert(row@ == m[i as int]);
            let mut j: usize = 0;
            while j < 4
                invariant
                    i < 4,
                    j <= 4,
                    m == view_of(tetrimino.shape),
                    row@ == m[i as int],
                    forall|a: int, b: int| 0 <= a < i && 0 <= b < 4 && m[a][b] == 1
                        ==> #[trigger] free_at(self.cells@, self.width as int, self.height as int, x + b, y + a),
                    forall|b: int| 0 <= b < j && m[i as int][b] == 1
                        ==> #[trigger] free_at(self.cells@, self.width as int, self.height as int, x + b, y + i),
                decreases 4 - j,
            {
                if row[j] == 1 {
                    let px: u64 = x as u64 + j as u64;
                    let py: u64 = y as u64 + i as u64;
                    if px >= self.width as u64 || py >= self.height as u64 || self.probe(px, py) != EMPTY {
                        assert(!free_at(self.cells@, self.width as int, self.height as int, x + j, y + i));
                        assert(row@[j as int] == m[i as int][j as int]);
                        return false;
                    }
                }
                j += 1;
            }
            i += 1;
        }
        true
    }

    /// Writes the label of `tetrimino` on each board cell that it covers with
    /// its top-left corner at (x, y), when `can_insert` allows it; otherwise
    /// refuses and leaves the board as it is.
    pub fn insert(&mut self, x: u32, y: u32, tetrimino: &Tetrimino) -> (r: Result<bool, &'static str>)
        requires
            old(self).wf(),
        ensures
            final(self).width == old(self).width,
            final(self).height == old(self).height,
            final(self).wf(),
            r is Ok <==> fits(old(self).cells@, old(self).width as int, old(self).height as int, x as int, y as int, view_of(tetrimino.shape)),
            r is Ok ==> r == Ok::<bool, &'static str>(true) && final(self).cells@ == put(old(self).cells@,
                old(self).width as int, x as int, y as int, view_of(tetrimino.shape), tetrimino.char),
            r is Err ==> r == Err::<bool, &'static str>("Cannot place the tetrimino")
                && final(self).cells@ == old(self).cells@,
    {
        if !self.can_insert(x, y, tetrimino) {
            return Err("Cannot place the tetrimino");
        }
        let ghost m = view_of(tetrimino.shape);
        let ghost old_cells = self.cells@;
        let ghost w = self.width as int;
        let ghost h = self.height as int;
        let ghost label = tetrimino.char;
        assert(self.cells@ =~= Seq::new(old_cells.len(), |p: int|
            if covers_before(m, x as int, y as int, p % w, p / w, 0, 0) { label } else { old_cells[p] }));
        let mut i: usize = 0;
        while i < 4
            invariant
                i <= 4,
                m == view_of(tetrimino.shape),
                label == tetrimino.char,
                w == self.width,
                h == self.height,
                self.wf(),
                old_cells.len() == w * h,
                fits(old_cells, w, h, x as int, y as int, m),
                self.cells@ == Seq::new(old_cells.len(), |p: int|
                    if covers_before(m, x as int, y as int, p % w, p / w, i as int, 0) { label } else { old_cells[p] }),
            decreases 4 - i,
        {
            let row = tetrimino.shape[i];
            assert(row@ == m[i as int]);
            let mut j: usize = 0;
            while j < 4
                invariant
                    i < 4,
                    j <= 4,
                    row@ == m[i as int],
                    m == view_of(tetrimino.shape),
                    label == tetrimino.char,
                    w == self.width,
                    h == self.height,
                    self.wf(),
                    old_cells.len() == w * h,
                    fits(old_cells, w, h, x as int, y as int, m),
                    self.cells@ == Seq::new(old_cells.len(), |p: int|
                        if covers_before(m, x as int, y as int, p % w, p / w, i as int, j as int) { label } else { old_cells[p] }),
                decreases 4 - j,
            {
                let ghost before = self.cells@;
                let ghost next = Seq::new(old_cells.len(), |p: int|
                    if covers_before(m, x as int, y as int, p % w, p / w, i as int, j + 1) { label } else { old_cells[p] });
                let px: u64 = x as u64 + j as u64;
                let py: u64 = y as u64 + i as u64;
                if row[j] == 1 && px < self.width as u64 && py < self.height as u64 {
                    let ghost target = py * w + px;
                    proof {
                        lemma_position(w, h, px as int, py as int);
                        assert(free_at(old_cells, w, h, x + j, y + i));
                    }
                    assert(before[target] == old_cells[target]);
                    if self.get(px as u32, py as u32) == EMPTY {
                        self.set(px as u32, py as u32, tetrimino.char);
                    }
                    assert forall|p: int| 0 <= p < old_cells.len() implies #[trigger] self.cells@[p] == next[p] by {
                        lemma_coordinates(w, h, p);
                        if p % w == px && p / w == py {
                            assert(p == target);
                        }
                    }
                    assert(self.cells@ =~= next);
                } else {
                    assert forall|p: int| 0 <= p < old_cells.len() implies #[trigger] self.cells@[p] == next[p] by {
                        lemma_coordinates(w, h, p);
                    }
                    assert(self.cells@ =~= next);
                }
                j += 1;
            }
            assert(self.cells@ =~= Seq::new(old_cells.len(), |p: int|
                if covers_before(m, x as int, y as int, p % w, p / w, i + 1, 0) { label } else { old_cells[p] }));
            i += 1;
        }
        assert(self.cells@ =~= put(old_cells, w, x as int, y as int, m, label));
        Ok(true)
    }
}

} // verus!

//! What a successful attempt leaves on the board: four cells per label.
use vstd::prelude::*;
use crate::fillit::{attempt, pass_from, scan, span};
use crate::grid::{at, blank, covers, fits, free_at, lemma_coordinates, lemma_position, put};
use crate::mask::{cols_used, height_of, is_mask, ones, rows_used, view_of, width_of};
use crate::tetrimino::Tetrimino;

verus! {

/// How many cells of `s` hold `c`.
pub open spec fn count_in(s: Seq<char>, c: char) -> int
    decreases s.len(),
{
    if s.len() == 0 {
        0
    } else {
        count_in(s.drop_last(), c) + (if s.last() == c { 1int } else { 0int })
    }
}

/// The occupied cells among the first `k` of `m` in row-major order.
pub open spec fn ones_upto(m: Seq<Seq<u8>>, k: int) -> int
    decreases k,
{
    if k <= 0 {
        0
    } else {
        ones_upto(m, k - 1) + (if m[(k - 1) / 4][(k - 1) % 4] == 1 { 1int } else { 0int })
    }
}

/// `put` restricted to the first `k` cells of the mask in row-major order.
pub open spec fn put_upto(cells: Seq<char>, w: int, x: int, y: int, m: Seq<Seq<u8>>, c: char, k: int) -> Seq<char> {
    Seq::new(cells.len(), |p: int|
        if covers(m, x, y, p % w, p / w) && (p / w - y) * 4 + (p % w - x) < k { c } else { cells[p] })
}

proof fn lemma_count_update(s: Seq<char>, p: int, v: char, d: char)
    requires
        0 <= p < s.len(),
    ensures
        count_in(s.update(p, v), d) == count_in(s, d) - (if s[p] == d { 1int } else { 0int })
            + (if v == d { 1int } else { 0int }),
    decreases s.len(),
{
    let u = s.update(p, v);
    if p == s.len() - 1 {
        assert(u.drop_last() =~= s.drop_last());
    } else {
        assert(u.drop_last() =~= s.drop_last().update(p, v));
        lemma_count_update(s.drop_last(), p, v, d);
    }
}

proof fn lemma_count_blank(n: int, d: char)
    requires
        n >= 0,
    ensures
        count_in(blank(n), d) == (if d == ' ' { n } else { 0 }),
    decreases n,
{
    if n > 0 {
        assert(blank(n).drop_last() =~= blank(n - 1));
        lemma_count_blank(n - 1, d);
    }
}

proof fn lemma_ones_upto_all(m: Seq<Seq<u8>>)
    ensures
        ones_upto(m, 16) == ones(m),
{
    assert(ones_upto(m, 1) == ones_upto(m, 0) + (if m[0][0] == 1 { 1int } else { 0int }));
    assert(ones_upto(m, 2) == ones_upto(m, 1) + (if m[0][1] == 1 { 1int } else { 0int }));
    assert(ones_upto(m, 3) == ones_upto(m, 2) + (if m[0][2] == 1 { 1int } else { 0int }));
    assert(ones_upto(m, 4) == ones_upto(m, 3) + (if m[0][3] == 1 { 1int } else { 0int }));
    assert(ones_upto(m, 5) == ones_upto(m, 4) + (if m[1][0] == 1 { 1int } else { 0int }));
    assert(ones_upto(m, 6) == ones_upto(m, 5) + (if m[1][1] == 1 { 1int } else { 0int }));
    assert(ones_upto(m, 7) == ones_upto(m, 6) + (if m[1][2] == 1 { 1int } else { 0int }));
    assert(ones_upto(m, 8) == ones_upto(m, 7) + (if m[1][3] == 1 { 1int } else { 0int }));
    assert(ones_upto(m, 9) == ones_upto(m, 8) + (if m[2][0] == 1 { 1int } else { 0int }));
    assert(ones_upto(m, 10) == ones_upto(m, 9) + (if m[2][1] == 1 { 1int } else { 0int }));
    assert(ones_upto(m, 11) == ones_upto(m, 10) + (if m[2][2] == 1 { 1int } else { 0int }));
    assert(ones_upto(m, 12) == ones_upto(m, 11) + (if m[2][3] == 1 { 1int } else { 0int }));
    assert(ones_upto(m, 13) == ones_upto(m, 12) + (if m[3][0] == 1 { 1int } else { 0int }));
    assert(ones_upto(m, 14) == ones_upto(m, 13) + (if m[3][1] == 1 { 1int } else { 0int }));
    assert(ones_upto(m, 15) == ones_upto(m, 14) + (if m[3][2] == 1 { 1int } else { 0int }));
    assert(ones_upto(m, 16) == ones_upto(m, 15) + (if m[3][3] == 1 { 1int } else { 0int }));
}

proof fn lemma_put_step(cells: Seq<char>, w: int, h: int, x: int, y: int, m: Seq<Seq<u8>>, c: char, k: int)
    requires
        0 <= k < 16,
        0 < w,
        cells.len() == w * h,
        0 <= x,
        0 <= y,
    ensures
        ({
            let i = k / 4;
            let j = k % 4;
            let target = (y + i) * w + x + j;
            if m[i][j] == 1 && x + j < w && y + i < h {
                &&& put_upto(cells, w, x, y, m, c, k + 1) == put_upto(cells, w, x, y, m, c, k).update(target, c)
                &&& put_upto(cells, w, x, y, m, c, k)[target] == cells[target]
                &&& 0 <= target < cells.len()
            } else {
                put_upto(cells, w, x, y, m, c, k + 1) == put_upto(cells, w, x, y, m, c, k)
            }
        }),
{
    let i = k / 4;
    let j = k % 4;
    let a = put_upto(cells, w, x, y, m, c, k);
    let b = put_upto(cells, w, x, y, m, c, k + 1);
    if m[i][j] == 1 && x + j < w && y + i < h {
        let target = (y + i) * w + x + j;
        lemma_position(w, h, x + j, y + i);
        assert forall|p: int| 0 <= p < cells.len() implies #[trigger] b[p] == a.update(target, c)[p] by {
            lemma_coordinates(w, h, p);
            if p % w == x + j && p / w == y + i {
                assert(p == target);
            }
        }
        assert(b =~= a.update(target, c));
    } else {
        assert forall|p: int| 0 <= p < cells.len() implies #[trigger] b[p] == a[p] by {
            lemma_coordinates(w, h, p);
        }
        assert(b =~= a);
    }
}

/// Putting a mask whose occupied cells all land on empty board cells writes
/// its label on exactly as many cells as the mask occupies, each taken from
/// the empty ones.
proof fn lemma_put_counts(cells: Seq<char>, w: int, h: int, x: int, y: int, m: Seq<Seq<u8>>, c: char, d: char, k: int)
    requires
        0 <= k <= 16,
        0 < w,
        cells.len() == w * h,
        0 <= x,
        0 <= y,
        c != ' ',
        fits(cells, w, h, x, y, m),
    ensures
        count_in(put_upto(cells, w, x, y, m, c, k), c) == count_in(cells, c) + ones_upto(m, k),
        count_in(put_upto(cells, w, x, y, m, c, k), ' ') == count_in(cells, ' ') - ones_upto(m, k),
        d != c && d != ' ' ==> count_in(put_upto(cells, w, x, y, m, c, k), d) == count_in(cells, d),
    decreases k,
{
    if k == 0 {
        assert(put_upto(cells, w, x, y, m, c, 0) =~= cells);
    } else {
        lemma_put_counts(cells, w, h, x, y, m, c, d, k - 1);
        lemma_put_step(cells, w, h, x, y, m, c, k - 1);
        let i = (k - 1) / 4;
        let j = (k - 1) % 4;
        if m[i][j] == 1 {
            assert(free_at(cells, w, h, x + j, y + i));
        }
        if m[i][j] == 1 && x + j < w && y + i < h {
            let target = (y + i) * w + x + j;
            let a = put_upto(cells, w, x, y, m, c, k - 1);
            lemma_count_update(a, target, c, c);
            lemma_count_update(a, target, c, ' ');
            lemma_count_update(a, target, c, d);
        }
    }
}

proof fn lemma_scan_found(cells: Seq<char>, w: int, h: int, t: Tetrimino, y: int, x: int)
    requires
        scan(cells, w, h, t, y, x) is Some,
    ensures
        ({
            let o = scan(cells, w, h, t, y, x)->Some_0;
            &&& fits(cells, w, h, o.0, o.1, view_of(t.shape))
            &&& 0 <= o.0 < span(w, t.width as int)
            &&& 0 <= o.1 < span(h, t.height as int)
        }),
    decreases span(h, t.height as int) - y, span(w, t.width as int) - x,
{
    if y < 0 || x < 0 || y >= span(h, t.height as int) {
    } else if x >= span(w, t.width as int) {
        lemma_scan_found(cells, w, h, t, y + 1, 0);
    } else if fits(cells, w, h, x, y, view_of(t.shape)) {
    } else {
        lemma_scan_found(cells, w, h, t, y, x + 1);
    }
}

/// The labels of the pieces differ from each other and from the empty cell.
pub open spec fn labels_distinct(pieces: Seq<Tetrimino>) -> bool {
    &&& forall|k: int| 0 <= k < pieces.len() ==> (#[trigger] pieces[k]).char != ' '
    &&& forall|a: int, b: int| 0 <= a < b < pieces.len() ==> (#[trigger] pieces[a]).char != (#[trigger] pieces[b]).char
}

/// The board after the first `k` pieces: four cells per placed label, none
/// for the others, every other cell empty.
pub open spec fn packed(cells: Seq<char>, s: int, pieces: Seq<Tetrimino>, k: int) -> bool {
    &&& cells.len() == s * s
    &&& forall|j: int| 0 <= j < k ==> count_in(cells, (#[trigger] pieces[j]).char) == 4
    &&& forall|j: int| k <= j < pieces.len() ==> count_in(cells, (#[trigger] pieces[j]).char) == 0
    &&& count_in(cells, ' ') == s * s - 4 * k
    &&& forall|p: int| 0 <= p < cells.len() ==> (#[trigger] cells[p] == ' '
        || exists|j: int| 0 <= j < k && cells[p] == (#[trigger] pieces[j]).char)
}

/// A board of side `s` on which every piece's label stands on exactly four
/// cells and every other cell is empty: `4 * pieces.len()` cells are taken, so
/// no two pieces share a cell.
pub open spec fn board_packed(cells: Seq<char>, s: int, pieces: Seq<Tetrimino>) -> bool {
    packed(cells, s, pieces, pieces.len() as int)
}

proof fn lemma_step_packed(cells: Seq<char>, s: int, pieces: Seq<Tetrimino>, k: int)
    requires
        0 < s,
        0 <= k < pieces.len(),
        forall|j: int| 0 <= j < pieces.len() ==> (#[trigger] pieces[j]).wf(),
        labels_distinct(pieces),
        packed(cells, s, pieces, k),
        scan(cells, s, s, pieces[k], 0, 0) is Some,
    ensures
        ({
            let o = scan(cells, s, s, pieces[k], 0, 0)->Some_0;
            packed(put(cells, s, o.0, o.1, view_of(pieces[k].shape), pieces[k].char), s, pieces, k + 1)
        }),
{
    let t = pieces[k];
    let m = view_of(t.shape);
    lemma_scan_found(cells, s, s, t, 0, 0);
    let o = scan(cells, s, s, t, 0, 0)->Some_0;
    let x = o.0;
    let y = o.1;
    let c = t.char;
    let next = put(cells, s, x, y, m, c);
    assert(put_upto(cells, s, x, y, m, c, 16) =~= next);
    lemma_ones_upto_all(m);
    lemma_put_counts(cells, s, s, x, y, m, c, ' ', 16);
    assert forall|j: int| 0 <= j < pieces.len() && j != k implies
        count_in(next, (#[trigger] pieces[j]).char) == count_in(cells, pieces[j].char) by {
        lemma_put_counts(cells, s, s, x, y, m, c, pieces[j].char, 16);
    }
    assert forall|p: int| 0 <= p < next.len() implies (#[trigger] next[p] == ' '
        || exists|j: int| 0 <= j < k + 1 && next[p] == (#[trigger] pieces[j]).char) by {
        if next[p] != cells[p] {
            assert(next[p] == pieces[k].char);
        }
    }
}

proof fn lemma_pass_packed(cells: Seq<char>, s: int, pieces: Seq<Tetrimino>, k: int)
    requires
        0 < s,
        0 <= k <= pieces.len(),
        forall|j: int| 0 <= j < pieces.len() ==> (#[trigger] pieces[j]).wf(),
        labels_distinct(pieces),
        packed(cells, s, pieces, k),
        pass_from(cells, s, pieces, k).0,
    ensures
        packed(pass_from(cells, s, pieces, k).1, s, pieces, pieces.len() as int),
    decreases pieces.len() - k,
{
    if k < pieces.len() {
        lemma_step_packed(cells, s, pieces, k);
        let o = scan(cells, s, s, pieces[k], 0, 0)->Some_0;
        lemma_pass_packed(put(cells, s, o.0, o.1, view_of(pieces[k].shape), pieces[k].char), s, pieces, k + 1);
    }
}

/// A successful attempt on a board of side `s` writes each piece's label on exactly four cells and leaves every
/// other cell empty: as many cells are taken as the pieces have, so no two
/// pieces share a cell.
pub proof fn lemma_attempt_packed(pieces: Seq<Tetrimino>, s: int)
    requires
        0 < s,
        forall|j: int| 0 <= j < pieces.len() ==> (#[trigger] pieces[j]).wf(),
        labels_distinct(pieces),
        attempt(pieces, s).0,
    ensures
        board_packed(attempt(pieces, s).1, s, pieces),
{
    assert(s * s >= 0) by (nonlinear_arith);
    let b = blank(s * s);
    lemma_count_blank(s * s, ' ');
    assert forall|j: int| 0 <= j < pieces.len() implies count_in(b, (#[trigger] pieces[j]).char) == 0 by {
        lemma_count_blank(s * s, pieces[j].char);
    }
    assert(packed(b, s, pieces, 0));
    lemma_pass_packed(b, s, pieces, 0);
}

proof fn lemma_count_concat(a: Seq<char>, b: Seq<char>, c: char)
    ensures
        count_in(a + b, c) == count_in(a, c) + count_in(b, c),
    decreases b.len(),
{
    if b.len() > 0 {
        assert((a + b).drop_last() =~= a + b.drop_last());
        lemma_count_concat(a, b.drop_last(), c);
    } else {
        assert(a + b =~= a);
    }
}

proof fn lemma_count_bound(a: Seq<char>, c: char)
    ensures
        0 <= count_in(a, c) <= a.len(),
        (exists|p: int| 0 <= p < a.len() && a[p] != c) ==> count_in(a, c) < a.len(),
    decreases a.len(),
{
    if a.len() > 0 {
        lemma_count_bound(a.drop_last(), c);
        if exists|p: int| 0 <= p < a.len() && a[p] != c {
            let p = choose|p: int| 0 <= p < a.len() && a[p] != c;
            if p < a.len() - 1 {
                assert(a.drop_last()[p] != c);
            }
        }
    }
}

/// Band `b` of `l` cells holds a cell that is not empty.
pub open spec fn band_taken(cells: Seq<char>, l: int, b: int) -> bool {
    exists|p: int| b * l <= p < b * l + l && #[trigger] cells[p] != ' '
}

/// Each of the first `q` bands of `l` cells holds a cell that is not empty.
pub open spec fn bands_taken(cells: Seq<char>, l: int, q: int) -> bool {
    forall|b: int| 0 <= b < q ==> #[trigger] band_taken(cells, l, b)
}

proof fn lemma_prefix_bound(cells: Seq<char>, l: int, q: int, b: int)
    requires
        0 < l,
        0 <= b <= q,
        q * l <= cells.len(),
        bands_taken(cells, l, q),
    ensures
        b * l <= cells.len(),
        count_in(cells.subrange(0, b * l), ' ') <= b * l - b,
    decreases b,
{
    assert(b * l <= q * l) by (nonlinear_arith)
        requires b <= q, 0 < l;
    if b == 0 {
        assert(b * l == 0) by (nonlinear_arith)
            requires b == 0;
        lemma_count_bound(cells.subrange(0, 0), ' ');
    } else {
        lemma_prefix_bound(cells, l, q, b - 1);
        assert((b - 1) * l + l == b * l) by (nonlinear_arith);
        let pre = cells.subrange(0, (b - 1) * l);
        let band = cells.subrange((b - 1) * l, b * l);
        assert(cells.subrange(0, b * l) =~= pre + band);
        lemma_count_concat(pre, band, ' ');
        assert(band_taken(cells, l, b - 1));
        let p = choose|p: int| (b - 1) * l <= p < (b - 1) * l + l && #[trigger] cells[p] != ' ';
        assert(band.len() == l);
        assert(band[p - (b - 1) * l] != ' ');
        lemma_count_bound(band, ' ');
        assert(count_in(band, ' ') <= l - 1);
        assert(count_in(pre, ' ') <= (b - 1) * l - (b - 1));
    }
}

/// Fewer taken cells than bands leaves a band of empty cells.
proof fn lemma_blank_band(cells: Seq<char>, l: int, q: int) -> (b: int)
    requires
        0 < l,
        0 <= q,
        q * l <= cells.len(),
        count_in(cells, ' ') > cells.len() - q,
    ensures
        0 <= b < q,
        forall|p: int| b * l <= p < b * l + l ==> #[trigger] cells[p] == ' ',
{
    if bands_taken(cells, l, q) {
        lemma_prefix_bound(cells, l, q, q);
        let pre = cells.subrange(0, q * l);
        let rest = cells.subrange(q * l, cells.len() as int);
        assert(cells =~= pre + rest);
        lemma_count_concat(pre, rest, ' ');
        lemma_count_bound(rest, ' ');
        assert(false);
        0
    } else {
        let b = choose|b: int| 0 <= b < q && !#[trigger] band_taken(cells, l, b);
        b
    }
}

proof fn lemma_scan_finds(cells: Seq<char>, w: int, h: int, t: Tetrimino, y: int, x: int, x0: int, y0: int)
    requires
        0 <= y,
        0 <= x,
        y < y0 || (y == y0 && x <= x0),
        0 <= x0 < span(w, t.width as int),
        0 <= y0 < span(h, t.height as int),
        fits(cells, w, h, x0, y0, view_of(t.shape)),
    ensures
        scan(cells, w, h, t, y, x) is Some,
    decreases span(h, t.height as int) - y, span(w, t.width as int) - x,
{
    if x >= span(w, t.width as int) {
        lemma_scan_finds(cells, w, h, t, y + 1, 0, x0, y0);
    } else if !fits(cells, w, h, x, y, view_of(t.shape)) {
        lemma_scan_finds(cells, w, h, t, y, x + 1, x0, y0);
    }
}

proof fn lemma_wf_extent(t: Tetrimino)
    requires
        t.wf(),
    ensures
        t.width <= 4,
        t.height <= 4,
{
    reveal_with_fuel(cols_used, 5);
    reveal_with_fuel(rows_used, 5);
}

proof fn lemma_pass_succeeds(cells: Seq<char>, s: int, pieces: Seq<Tetrimino>, k: int)
    requires
        4 <= s,
        16 * pieces.len() <= s,
        0 <= k <= pieces.len(),
        forall|j: int| 0 <= j < pieces.len() ==> (#[trigger] pieces[j]).wf(),
        labels_distinct(pieces),
        packed(cells, s, pieces, k),
    ensures
        pass_from(cells, s, pieces, k).0,
    decreases pieces.len() - k,
{
    if k < pieces.len() {
        let t = pieces[k];
        let m = view_of(t.shape);
        lemma_wf_extent(t);
        let q = s / 4;
        let l = 4 * s;
        assert(q * l <= s * s && 4 * k < q) by (nonlinear_arith)
            requires q == s / 4, l == 4 * s, 4 <= s, 16 * pieces.len() <= s, k < pieces.len(), 0 <= k;
        let b = lemma_blank_band(cells, l, q);
        assert(4 * b + 4 <= s) by (nonlinear_arith)
            requires q == s / 4, b < q, 0 <= b;
        assert forall|i: int, j: int| 0 <= i < 4 && 0 <= j < 4 && m[i][j] == 1
            implies #[trigger] free_at(cells, s, s, 0 + j, 4 * b + i) by {
            assert((4 * b + i) * s + j == b * l + (i * s + j)) by (nonlinear_arith)
                requires l == 4 * s;
            assert(0 <= i * s + j < l) by (nonlinear_arith)
                requires 0 <= i < 4, 0 <= j < 4, 4 <= s, l == 4 * s;
            assert(b * l + l <= s * s) by (nonlinear_arith)
                requires 4 * b + 4 <= s, l == 4 * s, 0 <= b;
        }
        lemma_scan_finds(cells, s, s, t, 0, 0, 0, 4 * b);
        lemma_step_packed(cells, s, pieces, k);
        let o = scan(cells, s, s, t, 0, 0)->Some_0;
        lemma_pass_succeeds(put(cells, s, o.0, o.1, m, t.char), s, pieces, k + 1);
    }
}

/// On a board of side at least 16 per piece (and at least 4), an attempt
/// places every valid piece: the growing search always ends in success.
pub proof fn lemma_attempt_succeeds(pieces: Seq<Tetrimino>, s: int)
    requires
        4 <= s,
        16 * pieces.len() <= s,
        forall|j: int| 0 <= j < pieces.len() ==> (#[trigger] pieces[j]).wf(),
        labels_distinct(pieces),
    ensures
        attempt(pieces, s).0,
{
    assert(s * s >= 0) by (nonlinear_arith);
    let b = blank(s * s);
    lemma_count_blank(s * s, ' ');
    assert forall|j: int| 0 <= j < pieces.len() implies count_in(b, (#[trigger] pieces[j]).char) == 0 by {
        lemma_count_blank(s * s, pieces[j].char);
    }
    assert(packed(b, s, pieces, 0));
    lemma_pass_succeeds(b, s, pieces, 0);
}

} // verus!

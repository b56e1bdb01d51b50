//! Four-by-four occupancy masks and their normalization.
use vstd::prelude::*;

verus! {

/// A mask as rows of cells: 1 marks an occupied cell, 0 an empty one.
pub open spec fn view_of(s: [[u8; 4]; 4]) -> Seq<Seq<u8>> {
    Seq::new(4, |r: int| s[r]@)
}

pub open spec fn is_mask(m: Seq<Seq<u8>>) -> bool {
    &&& m.len() == 4
    &&& forall|r: int| 0 <= r < 4 ==> #[trigger] m[r].len() == 4
    &&& forall|r: int, c: int| 0 <= r < 4 && 0 <= c < 4 ==> #[trigger] m[r][c] <= 1
}

pub open spec fn row_blank(m: Seq<Seq<u8>>, r: int) -> bool {
    forall|c: int| 0 <= c < 4 ==> #[trigger] m[r][c] == 0
}

pub open spec fn col_blank(m: Seq<Seq<u8>>, c: int) -> bool {
    forall|r: int| 0 <= r < 4 ==> #[trigger] m[r][c] == 0
}

/// The number of blank rows above the first occupied one.
pub open spec fn top_gap(m: Seq<Seq<u8>>) -> int {
    if !row_blank(m, 0) { 0 }
    else if !row_blank(m, 1) { 1 }
    else if !row_blank(m, 2) { 2 }
    else if !row_blank(m, 3) { 3 }
    else { 4 }
}

/// The number of blank columns left of the first occupied one.
pub open spec fn left_gap(m: Seq<Seq<u8>>) -> int {
    if !col_blank(m, 0) { 0 }
    else if !col_blank(m, 1) { 1 }
    else if !col_blank(m, 2) { 2 }
    else if !col_blank(m, 3) { 3 }
    else { 4 }
}

/// One more than the highest occupied index among the first `n` columns; 0 if they are blank.
pub open spec fn cols_used(m: Seq<Seq<u8>>, n: int) -> int
    decreases n,
{
    if n <= 0 { 0 } else if !col_blank(m, n - 1) { n } else { cols_used(m, n - 1) }
}

/// One more than the highest occupied index among the first `n` rows; 0 if they are blank.
pub open spec fn rows_used(m: Seq<Seq<u8>>, n: int) -> int
    decreases n,
{
    if n <= 0 { 0 } else if !row_blank(m, n - 1) { n } else { rows_used(m, n - 1) }
}

/// The width of the tight bounding box.
pub open spec fn width_of(m: Seq<Seq<u8>>) -> int {
    cols_used(m, 4)
}

/// The height of the tight bounding box.
pub open spec fn height_of(m: Seq<Seq<u8>>) -> int {
    rows_used(m, 4)
}

/// Rows moved up by `k`, blank rows filling the bottom.
pub open spec fn shifted_up(m: Seq<Seq<u8>>, k: int) -> Seq<Seq<u8>> {
    Seq::new(4, |r: int| if r + k < 4 { m[r + k] } else { seq![0u8, 0u8, 0u8, 0u8] })
}

/// Columns moved left by `k`, blank columns filling the right.
pub open spec fn shifted_left(m: Seq<Seq<u8>>, k: int) -> Seq<Seq<u8>> {
    Seq::new(4, |r: int| Seq::new(4, |c: int| if c + k < 4 { m[r][c + k] } else { 0u8 }))
}

/// The mask moved flush against the top edge, then against the left edge.
pub open spec fn normalized(m: Seq<Seq<u8>>) -> Seq<Seq<u8>> {
    let up = shifted_up(m, top_gap(m));
    shifted_left(up, left_gap(up))
}

pub open spec fn ones_in_row(m: Seq<Seq<u8>>, r: int) -> int {
    (if m[r][0] == 1 { 1int } else { 0int }) + (if m[r][1] == 1 { 1int } else { 0int })
        + (if m[r][2] == 1 { 1int } else { 0int }) + (if m[r][3] == 1 { 1int } else { 0int })
}

/// The number of occupied cells.
pub open spec fn ones(m: Seq<Seq<u8>>) -> int {
    ones_in_row(m, 0) + ones_in_row(m, 1) + ones_in_row(m, 2) + ones_in_row(m, 3)
}

pub(crate) fn row_is_blank(row: [u8; 4]) -> (r: bool)
    ensures
        r == (forall|c: int| 0 <= c < 4 ==> #[trigger] row@[c] == 0),
{
    row[0] == 0 && row[1] == 0 && row[2] == 0 && row[3] == 0
}

pub(crate) fn col_has_one(shape: &[[u8; 4]; 4], col: usize) -> (r: bool)
    requires
        col < 4,
        is_mask(view_of(*shape)),
    ensures
        r == !col_blank(view_of(*shape), col as int),
{
    let ghost m = view_of(*shape);
    assert(forall|r: int| 0 <= r < 4 ==> #[trigger] m[r] == shape[r]@);
    assert(m[0][col as int] <= 1 && m[1][col as int] <= 1 && m[2][col as int] <= 1
        && m[3][col as int] <= 1);
    shape[0][col] == 1 || shape[1][col] == 1 || shape[2][col] == 1 || shape[3][col] == 1
}


pub proof fn lemma_shifts_keep_mask(m: Seq<Seq<u8>>, k: int)
    requires
        is_mask(m),
        0 <= k <= 4,
    ensures
        is_mask(shifted_up(m, k)),
        is_mask(shifted_left(m, k)),
{
}

proof fn lemma_shift_up_keeps_ones(m: Seq<Seq<u8>>)
    requires
        is_mask(m),
    ensures
        ones(shifted_up(m, top_gap(m))) == ones(m),
        is_mask(shifted_up(m, top_gap(m))),
{
    let k = top_gap(m);
    let u = shifted_up(m, k);
    assert forall|r: int| 0 <= r < k implies ones_in_row(m, r) == 0 by {
        assert(row_blank(m, r));
        assert(m[r][0] == 0 && m[r][1] == 0 && m[r][2] == 0 && m[r][3] == 0);
    }
    assert forall|r: int| 0 <= r < 4 implies ones_in_row(u, r) == (if r + k < 4 { ones_in_row(m, r + k) } else { 0 }) by {
        if r + k < 4 {
            assert(u[r] == m[r + k]);
        } else {
            assert(u[r] == seq![0u8, 0u8, 0u8, 0u8]);
        }
    }
    lemma_shifts_keep_mask(m, k);
}

proof fn lemma_shift_left_keeps_ones(m: Seq<Seq<u8>>)
    requires
        is_mask(m),
    ensures
        ones(shifted_left(m, left_gap(m))) == ones(m),
        is_mask(shifted_left(m, left_gap(m))),
{
    let k = left_gap(m);
    let l = shifted_left(m, k);
    assert forall|c: int| 0 <= c < k implies col_blank(m, c) by {}
    assert forall|r: int| 0 <= r < 4 implies ones_in_row(l, r) == ones_in_row(m, r) by {
        assert(m[r][0] <= 1 && m[r][1] <= 1 && m[r][2] <= 1 && m[r][3] <= 1);
        assert(col_blank(m, 0) ==> m[r][0] == 0);
        assert(col_blank(m, 1) ==> m[r][1] == 0);
        assert(col_blank(m, 2) ==> m[r][2] == 0);
        assert(col_blank(m, 3) ==> m[r][3] == 0);
    }
    lemma_shifts_keep_mask(m, k);
}

/// Normalization keeps the number of occupied cells.
pub proof fn lemma_normalized_ones(m: Seq<Seq<u8>>)
    requires
        is_mask(m),
    ensures
        is_mask(normalized(m)),
        ones(normalized(m)) == ones(m),
{
    lemma_shift_up_keeps_ones(m);
    lemma_shift_left_keeps_ones(shifted_up(m, top_gap(m)));
}

/// A mask with occupied cells, once normalized, has an occupied first row and first column.
pub proof fn lemma_normalized_flush(m: Seq<Seq<u8>>)
    requires
        is_mask(m),
        ones(m) > 0,
    ensures
        top_gap(normalized(m)) == 0,
        left_gap(normalized(m)) == 0,
{
    lemma_normalized_ones(m);
    let k = top_gap(m);
    let u = shifted_up(m, k);
    let e = left_gap(u);
    let n = normalized(m);
    lemma_shift_up_keeps_ones(m);
    if k == 4 {
        assert(row_blank(m, 0) && row_blank(m, 1) && row_blank(m, 2) && row_blank(m, 3));
        assert(ones_in_row(m, 0) == 0 && ones_in_row(m, 1) == 0 && ones_in_row(m, 2) == 0
            && ones_in_row(m, 3) == 0);
        assert(false);
    }
    assert(!row_blank(u, 0));
    let c0 = choose|c: int| 0 <= c < 4 && u[0][c] != 0;
    assert(!col_blank(u, c0));
    assert(e <= c0);
    assert(n[0][c0 - e] == u[0][c0]);
    assert(!row_blank(n, 0));
    if e < 4 {
        assert(!col_blank(u, e));
        let r0 = choose|r: int| 0 <= r < 4 && u[r][e] != 0;
        assert(n[r0][0] == u[r0][e]);
        assert(!col_blank(n, 0));
    }
}

/// Normalizing a normalized mask changes nothing.
pub proof fn lemma_normalize_idempotent(m: Seq<Seq<u8>>)
    requires
        is_mask(m),
    ensures
        normalized(normalized(m)) == normalized(m),
{
    let n = normalized(m);
    lemma_normalized_ones(m);
    if ones(m) > 0 {
        lemma_normalized_flush(m);
        assert(shifted_up(n, 0) =~~= n);
        assert(shifted_left(n, 0) =~~= n);
    } else {
        assert forall|r: int, c: int| 0 <= r < 4 && 0 <= c < 4 implies n[r][c] == 0 by {
            assert(n[r][c] <= 1);
            assert(n[r][0] <= 1 && n[r][1] <= 1 && n[r][2] <= 1 && n[r][3] <= 1);
        }
        assert(top_gap(n) == 4);
        let u = shifted_up(n, 4);
        assert forall|c: int| 0 <= c < 4 implies col_blank(u, c) by {}
        assert(normalized(n) =~~= n);
    }
}

/// A mask with exactly four occupied cells keeps all four through normalization,
/// and its tight bounding box measures between one and four each way.
pub proof fn lemma_normalized_piece(m: Seq<Seq<u8>>)
    requires
        is_mask(m),
        ones(m) == 4,
    ensures
        ones(normalized(m)) == 4,
        1 <= width_of(normalized(m)) <= 4,
        1 <= height_of(normalized(m)) <= 4,
{
    lemma_normalized_ones(m);
    lemma_normalized_flush(m);
    let n = normalized(m);
    assert(!row_blank(n, 0));
    assert(!col_blank(n, 0));
    reveal_with_fuel(rows_used, 5);
    reveal_with_fuel(cols_used, 5);
}

} // verus!

//! A piece: a labelled, normalized mask.
use vstd::prelude::*;
use crate::error::FillitError;
use crate::mask::{
    col_blank, col_has_one, cols_used, height_of, is_mask, left_gap, lemma_normalized_flush,
    lemma_normalized_ones, lemma_shifts_keep_mask, normalized, ones, ones_in_row, row_blank,
    row_is_blank, rows_used, shifted_left, shifted_up, top_gap, view_of, width_of,
};
use crate::text::{chars_of, lines_of, split_lines};

verus! {

/// The characters of the pattern a row of a piece must match: `^[#.]{4}$`.
pub open spec fn row_pattern() -> Seq<char> {
    seq!['^', '[', '#', '.', ']', '{', '4', '}', '$']
}

/// Four characters, each '#' (occupied) or '.' (empty).
pub open spec fn is_row_text(l: Seq<char>) -> bool {
    l.len() == 4 && forall|k: int| 0 <= k < 4 ==> (#[trigger] l[k] == '#' || l[k] == '.')
}

/// The mask that four rows of text describe.
pub open spec fn mask_of_lines(ls: Seq<Seq<char>>) -> Seq<Seq<u8>> {
    Seq::new(4, |r: int| Seq::new(4, |c: int| if ls[r][c] == '#' { 1u8 } else { 0u8 }))
}

/// `t` is four rows of four '#' or '.' (blank lines aside) with exactly four '#'.
pub open spec fn shape_text_valid(t: Seq<char>) -> bool {
    let ls = lines_of(t);
    &&& ls.len() == 4
    &&& forall|r: int| 0 <= r < 4 ==> is_row_text(#[trigger] ls[r])
    &&& ones(mask_of_lines(ls)) == 4
}

/// `p` is the piece that the valid text `t` describes, labelled `label`.
pub open spec fn is_piece_of(p: Tetrimino, label: char, t: Seq<char>) -> bool {
    &&& p.char == label
    &&& view_of(p.shape) == normalized(mask_of_lines(lines_of(t)))
    &&& p.width == width_of(view_of(p.shape))
    &&& p.height == height_of(view_of(p.shape))
}

/// Relies on regex::Regex::new and regex::Regex::is_match: the pattern
/// `^[#.]{4}$` compiles, and a text matches it exactly when it is four
/// characters, each '#' or '.'.
#[verifier::external_body]
fn matches_row(pattern: &str, line: &Vec<char>) -> (r: bool)
    requires
        pattern@ == row_pattern(),
    ensures
        r == is_row_text(line@),
{
    let line: String = line.iter().collect();
    regex::Regex::new(pattern).unwrap().is_match(&line)
}

fn row_mask(line: &Vec<char>) -> (r: [u8; 4])
    requires
        line@.len() == 4,
    ensures
        forall|c: int| 0 <= c < 4 ==> #[trigger] r@[c] == (if line@[c] == '#' { 1u8 } else { 0u8 }),
{
    [
        if line[0] == '#' { 1 } else { 0 },
        if line[1] == '#' { 1 } else { 0 },
        if line[2] == '#' { 1 } else { 0 },
        if line[3] == '#' { 1 } else { 0 },
    ]
}

fn count_ones(shape: &[[u8; 4]; 4]) -> (r: u32)
    ensures
        r == ones(view_of(*shape)),
{
    let ghost m = view_of(*shape);
    assert(forall|r: int| 0 <= r < 4 ==> #[trigger] m[r] == shape[r]@);
    let mut n: u32 = 0;
    let mut r: usize = 0;
    while r < 4
        invariant
            r <= 4,
            m == view_of(*shape),
            forall|k: int| 0 <= k < 4 ==> #[trigger] m[k] == shape[k]@,
            n == (if r > 0 { ones_in_row(m, 0) } else { 0 }) + (if r > 1 { ones_in_row(m, 1) } else { 0 })
                + (if r > 2 { ones_in_row(m, 2) } else { 0 }) + (if r > 3 { ones_in_row(m, 3) } else { 0 }),
        decreases 4 - r,
    {
        let row = shape[r];
        assert(row@ == m[r as int]);
        let mut c: usize = 0;
        let ghost n0 = n;
        while c < 4
            invariant
                c <= 4,
                row@ == m[r as int],
                r < 4,
                n == n0 + (if c > 0 && row@[0] == 1 { 1int } else { 0 }) + (if c > 1 && row@[1] == 1 { 1int } else { 0 })
                    + (if c > 2 && row@[2] == 1 { 1int } else { 0 }) + (if c > 3 && row@[3] == 1 { 1int } else { 0 }),
                n0 <= 12,
            decreases 4 - c,
        {
            if row[c] == 1 {
                n += 1;
            }
            c += 1;
        }
        r += 1;
    }
    n
}

/// The mask of a valid piece is already normalized: normalizing it again,
/// as `from_shape` does, gives back the same mask.
pub proof fn lemma_piece_is_normalized(t: Tetrimino)
    requires
        t.wf(),
    ensures
        normalized(view_of(t.shape)) == view_of(t.shape),
{
    let m = view_of(t.shape);
    assert(shifted_up(m, 0) =~~= m);
    assert(shifted_left(m, 0) =~~= m);
}

pub struct Tetrimino {
    pub char: char,
    pub shape: [[u8; 4]; 4],
    pub width: u32,
    pub height: u32,
}

impl Tetrimino {
    /// A piece as placed: an exact four-cell mask flush against the top and
    /// left edges, with its tight bounding box.
    pub open spec fn wf(&self) -> bool {
        let m = view_of(self.shape);
        &&& is_mask(m)
        &&& ones(m) == 4
        &&& top_gap(m) == 0
        &&& left_gap(m) == 0
        &&& self.width == width_of(m)
        &&& self.height == height_of(m)
    }

    /// Reads a piece from four lines of four '#' or '.', and normalizes it.
    pub fn new(char: char, shape: String) -> (r: Result<Tetrimino, FillitError>)
        ensures
            r is Ok <==> shape_text_valid(shape@),
            r is Ok ==> is_piece_of(r->Ok_0, char, shape@) && r->Ok_0.wf(),
            r is Err ==> r == Err::<Tetrimino, FillitError>(FillitError::InvalidShape),
    {
        let text = chars_of(shape.as_str());
        Self::from_text(char, &text)
    }

    /// Reads a piece from the characters of its text, and normalizes it.
    pub fn from_text(char: char, text: &Vec<char>) -> (r: Result<Tetrimino, FillitError>)
        ensures
            r is Ok <==> shape_text_valid(text@),
            r is Ok ==> is_piece_of(r->Ok_0, char, text@) && r->Ok_0.wf(),
            r is Err ==> r == Err::<Tetrimino, FillitError>(FillitError::InvalidShape),
    {
        let lines = split_lines(text);
        let ghost ls = lines_of(text@);
        assert(forall|k: int| 0 <= k < lines@.len() ==> #[trigger] lines@[k]@ == ls[k]);
        if lines.len() != 4 {
            return Err(FillitError::InvalidShape);
        }
        let mut k: usize = 0;
        while k < 4
            invariant
                k <= 4,
                lines@.len() == 4,
                ls == lines_of(text@),
                forall|j: int| 0 <= j < 4 ==> #[trigger] lines@[j]@ == ls[j],
                forall|j: int| 0 <= j < k ==> is_row_text(#[trigger] ls[j]),
            decreases 4 - k,
        {
            let pattern: &str = "^[#.]{4}$";
            proof {
                reveal_strlit("^[#.]{4}$");
            }
            assert(pattern@ =~= row_pattern());
            if !matches_row(pattern, &lines[k]) {
                return Err(FillitError::InvalidShape);
            }
            k += 1;
        }
        let raw = [row_mask(&lines[0]), row_mask(&lines[1]), row_mask(&lines[2]), row_mask(&lines[3])];
        assert(view_of(raw) =~~= mask_of_lines(ls));
        if count_ones(&raw) != 4 {
            return Err(FillitError::InvalidShape);
        }
        Ok(Self::from_shape(char, raw))
    }

    /// Normalizes `shape` into a piece labelled `char`.
    pub fn from_shape(char: char, shape: [[u8; 4]; 4]) -> (r: Tetrimino)
        requires
            is_mask(view_of(shape)),
        ensures
            r.char == char,
            view_of(r.shape) == normalized(view_of(shape)),
            r.width == width_of(view_of(r.shape)),
            r.height == height_of(view_of(r.shape)),
            ones(view_of(shape)) == 4 ==> r.wf(),
    {
        let up = Self::move_to_top(shape);
        proof {
            lemma_shifts_keep_mask(view_of(shape), top_gap(view_of(shape)));
        }
        let left = Self::move_to_left(up);
        proof {
            lemma_normalized_ones(view_of(shape));
            if ones(view_of(shape)) == 4 {
                lemma_normalized_flush(view_of(shape));
            }
        }
        let (width, height) = Self::get_size(left);
        Tetrimino { char, shape: left, width, height }
    }

    /// Moves the rows of `shape` up past its leading blank rows.
    pub fn move_to_top(shape: [[u8; 4]; 4]) -> (r: [[u8; 4]; 4])
        requires
            is_mask(view_of(shape)),
        ensures
            view_of(r) == shifted_up(view_of(shape), top_gap(view_of(shape))),
    {
        let ghost m = view_of(shape);
        assert(forall|r: int| 0 <= r < 4 ==> #[trigger] m[r] == shape[r]@);
        let mut i: usize = 0;
        while i < 4
            invariant
                i <= 4,
                m == view_of(shape),
                forall|r: int| 0 <= r < 4 ==> #[trigger] m[r] == shape[r]@,
                forall|r: int| 0 <= r < i ==> row_blank(m, r),
            ensures
                i < 4 ==> !row_blank(m, i as int),
                forall|r: int| 0 <= r < i ==> row_blank(m, r),
            decreases 4 - i,
        {
            let row = shape[i];
            assert(row@ == m[i as int]);
            if !row_is_blank(row) {
                assert(!row_blank(m, i as int));
                break;
            }
            i += 1;
        }
        assert(i == top_gap(m));
        let blank: [u8; 4] = [0, 0, 0, 0];
        let r = [
            if i < 4 { shape[i] } else { blank },
            if i + 1 < 4 { shape[i + 1] } else { blank },
            if i + 2 < 4 { shape[i + 2] } else { blank },
            if i + 3 < 4 { shape[i + 3] } else { blank },
        ];
        assert(blank@ =~= seq![0u8, 0u8, 0u8, 0u8]);
        assert(view_of(r) =~= shifted_up(m, i as int));
        r
    }

    /// Moves the columns of `shape` left past its leading blank columns.
    pub fn move_to_left(shape: [[u8; 4]; 4]) -> (r: [[u8; 4]; 4])
        requires
            is_mask(view_of(shape)),
        ensures
            view_of(r) == shifted_left(view_of(shape), left_gap(view_of(shape))),
    {
        let ghost m = view_of(shape);
        assert(forall|r: int| 0 <= r < 4 ==> #[trigger] m[r] == shape[r]@);
        let mut e: usize = 0;
        while e < 4
            invariant
                e <= 4,
                m == view_of(shape),
                is_mask(m),
                forall|c: int| 0 <= c < e ==> col_blank(m, c),
            ensures
                e < 4 ==> !col_blank(m, e as int),
                forall|c: int| 0 <= c < e ==> col_blank(m, c),
            decreases 4 - e,
        {
            if col_has_one(&shape, e) {
                break;
            }
            e += 1;
        }
        assert(e == left_gap(m));
        let r = [
            Self::shift_row_left(shape[0], e),
            Self::shift_row_left(shape[1], e),
            Self::shift_row_left(shape[2], e),
            Self::shift_row_left(shape[3], e),
        ];
        assert(view_of(r) =~~= shifted_left(m, e as int));
        r
    }

    fn shift_row_left(row: [u8; 4], e: usize) -> (r: [u8; 4])
        requires
            e <= 4,
        ensures
            forall|c: int| 0 <= c < 4 ==> #[trigger] r@[c] == (if c + e < 4 { row@[c + e] } else { 0u8 }),
    {
        [
            if e < 4 { row[e] } else { 0 },
            if e + 1 < 4 { row[e + 1] } else { 0 },
            if e + 2 < 4 { row[e + 2] } else { 0 },
            if e + 3 < 4 { row[e + 3] } else { 0 },
        ]
    }

    /// The tight bounding box of `shape`: (width, height).
    pub fn get_size(shape: [[u8; 4]; 4]) -> (r: (u32, u32))
        requires
            is_mask(view_of(shape)),
        ensures
            r.0 == width_of(view_of(shape)),
            r.1 == height_of(view_of(shape)),
    {
        let ghost m = view_of(shape);
        assert(forall|r: int| 0 <= r < 4 ==> #[trigger] m[r] == shape[r]@);
        let mut width: u32 = 0;
        let mut height: u32 = 0;
        let mut k: usize = 0;
        while k < 4
            invariant
                k <= 4,
                m == view_of(shape),
                is_mask(m),
                forall|r: int| 0 <= r < 4 ==> #[trigger] m[r] == shape[r]@,
                width == cols_used(m, k as int),
                height == rows_used(m, k as int),
            decreases 4 - k,
        {
            if col_has_one(&shape, k) {
                width = k as u32 + 1;
            }
            let row = shape[k];
            assert(row@ == m[k as int]);
            if !row_is_blank(row) {
                assert(!row_blank(m, k as int));
                height = k as u32 + 1;
            } else {
                assert(row_blank(m, k as int));
            }
            k += 1;
        }
        (width, height)
    }

    /// The piece drawn as four lines of four cells, its label on occupied
    /// cells and '.' elsewhere, each line ended by a newline.
    pub open spec fn text(&self) -> Seq<char> {
        Seq::new(20, |k: int|
            if k % 5 == 4 { '\n' } else if self.shape[k / 5]@[k % 5] == 1 { self.char } else { '.' })
    }

    /// Draws the piece: see `text`.
    pub fn render(&self) -> (r: Vec<char>)
        ensures
            r@ == self.text(),
    {
        let mut r: Vec<char> = Vec::new();
        let mut i: usize = 0;
        while i < 4
            invariant
                i <= 4,
                r@ == self.text().take(5 * i as int),
            decreases 4 - i,
        {
            let row = self.shape[i];
            assert(row@ == self.shape[i as int]@);
            let mut j: usize = 0;
            while j < 4
                invariant
                    i < 4,
                    j <= 4,
                    row@ == self.shape[i as int]@,
                    r@ == self.text().take(5 * i + j),
                decreases 4 - j,
            {
                if row[j] == 1 {
                    r.push(self.char);
                } else {
                    r.push('.');
                }
                assert(r@ =~= self.text().take(5 * i + j + 1));
                j += 1;
            }
            r.push('\n');
            assert(r@ =~= self.text().take(5 * i + 5));
            i += 1;
        }
        assert(r@ =~= self.text());
        r
    }
}

} // verus!

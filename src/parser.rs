//! Reading a whole input: pieces separated by blank lines.
use vstd::prelude::*;
use crate::error::FillitError;
use crate::fillit::{initial_side, Fillit};
use crate::grid::blank;
use crate::tetrimino::{is_piece_of, shape_text_valid, Tetrimino};
use crate::text::{chars_of, groups_of, split_groups};

verus! {

/// The label of the piece at index `i`: 'A', 'B', ... in input order.
pub open spec fn label(i: int) -> char {
    ((65 + i) as u8) as char
}

/// Labels of different pieces differ, and none is the empty cell.
pub proof fn lemma_labels_distinct(a: int, b: int)
    requires
        0 <= a < 26,
        0 <= b < 26,
    ensures
        label(a) != ' ',
        label(a) != '.',
        a != b ==> label(a) != label(b),
{
    assert(label(a) as u32 == 65 + a);
    assert(label(b) as u32 == 65 + b);
}

/// The input holds between 1 and 26 groups.
pub open spec fn count_valid(t: Seq<char>) -> bool {
    1 <= groups_of(t).len() <= 26
}

/// Every group of the input describes a piece.
pub open spec fn shapes_valid(t: Seq<char>) -> bool {
    forall|k: int| 0 <= k < groups_of(t).len() ==> shape_text_valid(#[trigger] groups_of(t)[k])
}

/// `pieces` are the pieces of the groups of `t`, in order and labelled from 'A'.
pub open spec fn pieces_of(pieces: Seq<Tetrimino>, t: Seq<char>) -> bool {
    &&& pieces.len() == groups_of(t).len()
    &&& forall|k: int| 0 <= k < pieces.len() ==> #[trigger] is_piece_of(pieces[k], label(k), groups_of(t)[k])
    &&& forall|k: int| 0 <= k < pieces.len() ==> #[trigger] pieces[k].wf()
}

pub struct Parser {
    pub file_content: String,
}

impl Parser {
    pub fn new(file_content: String) -> (r: Self)
        ensures
            r.file_content@ == file_content@,
    {
        Self { file_content }
    }

    /// Reads the pieces and sets up a session on an empty board of the first
    /// side tried.
    pub fn parse_content(&self) -> (r: Result<Fillit, FillitError>)
        ensures
            !count_valid(self.file_content@) ==> r == Err::<Fillit, FillitError>(FillitError::InvalidPieceCount),
            count_valid(self.file_content@) && !shapes_valid(self.file_content@)
                ==> r == Err::<Fillit, FillitError>(FillitError::InvalidShape),
            r is Ok <==> count_valid(self.file_content@) && shapes_valid(self.file_content@),
            r is Ok ==> ({
                let f = r->Ok_0;
                &&& pieces_of(f.tetriminos@, self.file_content@)
                &&& f.grid.width == f.grid.height
                &&& initial_side(f.tetriminos@.len() as int, f.grid.width as int)
                &&& f.grid.cells@ == blank(f.grid.width * f.grid.height)
                &&& f.grid.wf()
            }),
    {
        let text = chars_of(self.file_content.as_str());
        let groups = split_groups(&text);
        let ghost gs = groups_of(self.file_content@);
        assert(forall|k: int| 0 <= k < groups@.len() ==> #[trigger] groups@[k]@ == gs[k]);
        if groups.len() < 1 || groups.len() > 26 {
            return Err(FillitError::InvalidPieceCount);
        }
        let mut tetriminos: Vec<Tetrimino> = Vec::new();
        let mut k: usize = 0;
        while k < groups.len()
            invariant
                1 <= groups@.len() <= 26,
                gs == groups_of(self.file_content@),
                groups@.len() == gs.len(),
                forall|j: int| 0 <= j < groups@.len() ==> #[trigger] groups@[j]@ == gs[j],
                k <= groups@.len(),
                tetriminos@.len() == k,
                forall|j: int| 0 <= j < k ==> shape_text_valid(#[trigger] gs[j]),
                forall|j: int| 0 <= j < k ==> #[trigger] is_piece_of(tetriminos@[j], label(j), gs[j]),
                forall|j: int| 0 <= j < k ==> #[trigger] tetriminos@[j].wf(),
            decreases groups@.len() - k,
        {
            let c: char = (65u8 + k as u8) as char;
            match Tetrimino::from_text(c, &groups[k]) {
                Ok(t) => {
                    tetriminos.push(t);
                },
                Err(e) => {
                    return Err(e);
                },
            }
            k += 1;
        }
        Ok(Fillit::new(tetriminos))
    }
}

} // verus!

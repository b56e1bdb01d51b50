//! Packs four-cell pieces into the smallest square board that a first-fit
//! search finds, each piece labelled by a letter in input order.
pub mod error;
pub mod fillit;
pub mod grid;
pub mod mask;
pub mod packing;
pub mod parser;
pub mod tetrimino;
pub mod text;

use vstd::prelude::*;
use crate::error::FillitError;
use crate::packing::{board_packed, count_in};
use crate::fillit::{attempt, initial_side, solved_at, valid_pieces, Fillit, MAX_SIDE};
use crate::parser::{count_valid, label, lemma_labels_distinct, pieces_of, shapes_valid, Parser};
use crate::tetrimino::is_piece_of;
use crate::text::groups_of;

verus! {

/// The board with each empty cell shown as '.'.
pub open spec fn dotted(cells: Seq<char>) -> Seq<char> {
    cells.map_values(|c: char| if c == ' ' { '.' } else { c })
}

proof fn lemma_count_absent(s: Seq<char>, c: char)
    requires
        forall|p: int| 0 <= p < s.len() ==> s[p] != c,
    ensures
        count_in(s, c) == 0,
    decreases s.len(),
{
    if s.len() > 0 {
        lemma_count_absent(s.drop_last(), c);
    }
}

/// Showing empty cells as '.' keeps the count of every other character, and
/// adds the empty cells to the count of '.'.
proof fn lemma_dotted_counts(s: Seq<char>, c: char)
    ensures
        c != ' ' && c != '.' ==> count_in(dotted(s), c) == count_in(s, c),
        count_in(dotted(s), '.') == count_in(s, '.') + count_in(s, ' '),
    decreases s.len(),
{
    if s.len() > 0 {
        assert(dotted(s).drop_last() =~= dotted(s.drop_last()));
        lemma_dotted_counts(s.drop_last(), c);
    }
}

/// Reads the pieces of `content` and places them all; on the board returned,
/// empty cells read '.'.
pub fn solve_fillit(content: String) -> (r: Result<Fillit, FillitError>)
    ensures
        !count_valid(content@) ==> r == Err::<Fillit, FillitError>(FillitError::InvalidPieceCount),
        count_valid(content@) && !shapes_valid(content@)
            ==> r == Err::<Fillit, FillitError>(FillitError::InvalidShape),
        r is Ok <==> count_valid(content@) && shapes_valid(content@),
        r is Ok ==> ({
            let f = r->Ok_0;
            &&& pieces_of(f.tetriminos@, content@)
            &&& f.grid.width == f.grid.height
            &&& f.grid.wf()
            &&& valid_pieces(f.tetriminos@)
            &&& attempt(f.tetriminos@, f.grid.width as int).0
            &&& forall|k: int| 0 <= k < f.tetriminos@.len()
                ==> count_in(f.grid.cells@, (#[trigger] f.tetriminos@[k]).char) == 4
            &&& count_in(f.grid.cells@, '.') == f.grid.width * f.grid.width - 4 * f.tetriminos@.len()
            &&& forall|p: int| 0 <= p < f.grid.cells@.len() ==> (#[trigger] f.grid.cells@[p] == '.'
                || exists|k: int| 0 <= k < f.tetriminos@.len() && f.grid.cells@[p] == (#[trigger] f.tetriminos@[k]).char)
            &&& exists|s0: int, raw: Seq<char>|
                initial_side(f.tetriminos@.len() as int, s0)
                && solved_at(f.tetriminos@, s0, f.grid.width as int, raw)
                && board_packed(raw, f.grid.width as int, f.tetriminos@)
                && f.grid.cells@ == dotted(raw)
        }),
{
    let parser = Parser::new(content);
    let mut fillit = match parser.parse_content() {
        Ok(f) => f,
        Err(e) => {
            return Err(e);
        },
    };
    let ghost s0 = fillit.grid.width as int;
    assert(fillit.grid.width <= MAX_SIDE) by (nonlinear_arith)
        requires
            initial_side(fillit.tetriminos@.len() as int, fillit.grid.width as int),
            fillit.tetriminos@.len() <= 26;
    proof {
        let pieces = fillit.tetriminos@;
        assert forall|a: int| 0 <= a < pieces.len() implies (#[trigger] pieces[a]).char != ' ' by {
            assert(is_piece_of(pieces[a], label(a), groups_of(content@)[a]));
            lemma_labels_distinct(a, a);
        }
        assert forall|a: int, b: int| 0 <= a < b < pieces.len() implies
            (#[trigger] pieces[a]).char != (#[trigger] pieces[b]).char by {
            assert(is_piece_of(pieces[a], label(a), groups_of(content@)[a]));
            assert(is_piece_of(pieces[b], label(b), groups_of(content@)[b]));
            lemma_labels_distinct(a, b);
        }
    }
    assert(valid_pieces(fillit.tetriminos@));
    fillit.solve();
    let ghost raw = fillit.grid.cells@;
    let ghost pieces = fillit.tetriminos@;
    let ghost side = fillit.grid.width;
    assert(solved_at(pieces, s0, side as int, raw));
    assert(attempt(pieces, side as int).0);
    assert(board_packed(raw, side as int, pieces));
    let mut k: usize = 0;
    while k < fillit.grid.cells.len()
        invariant
            fillit.grid.cells@.len() == raw.len(),
            fillit.tetriminos@ == pieces,
            fillit.grid.width == side,
            fillit.grid.height == side,
            side * side == raw.len(),
            side * side <= u32::MAX,
            k <= raw.len(),
            forall|j: int| 0 <= j < k ==> #[trigger] fillit.grid.cells@[j] == dotted(raw)[j],
            forall|j: int| k <= j < raw.len() ==> #[trigger] fillit.grid.cells@[j] == raw[j],
        decreases raw.len() - k,
    {
        if fillit.grid.cells[k] == ' ' {
            fillit.grid.cells.set(k, '.');
        }
        k += 1;
    }
    assert(fillit.grid.cells@ =~= dotted(raw));
    proof {
        assert forall|p: int| 0 <= p < raw.len() implies raw[p] != '.' by {
            if raw[p] != ' ' {
                let j = choose|j: int| 0 <= j < pieces.len() && raw[p] == (#[trigger] pieces[j]).char;
                assert(is_piece_of(pieces[j], label(j), groups_of(content@)[j]));
                lemma_labels_distinct(j, j);
            }
        }
        lemma_count_absent(raw, '.');
        lemma_dotted_counts(raw, '.');
        assert forall|k: int| 0 <= k < pieces.len() implies
            count_in(dotted(raw), (#[trigger] pieces[k]).char) == 4 by {
            assert(is_piece_of(pieces[k], label(k), groups_of(content@)[k]));
            lemma_labels_distinct(k, k);
            lemma_dotted_counts(raw, pieces[k].char);
        }
        assert forall|p: int| 0 <= p < raw.len() implies (#[trigger] dotted(raw)[p] == '.'
            || exists|k: int| 0 <= k < pieces.len() && dotted(raw)[p] == (#[trigger] pieces[k]).char) by {
            if raw[p] != ' ' {
                let j = choose|j: int| 0 <= j < pieces.len() && raw[p] == (#[trigger] pieces[j]).char;
                assert(dotted(raw)[p] == pieces[j].char);
            }
        }
    }
    assert(initial_side(pieces.len() as int, s0) && solved_at(pieces, s0, side as int, raw));
    Ok(fillit)
}

} // verus!

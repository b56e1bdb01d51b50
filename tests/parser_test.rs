use fillit::error::FillitError;
use fillit::parser::Parser;
use fillit::tetrimino::Tetrimino;

#[test]
fn test_parser() {
    let parser = Parser::new("##..\n##..\n....\n....".to_string());
    let fillit = parser.parse_content().unwrap();
    assert_eq!(fillit.tetriminos.len(), 1);
    let tetrimino = &fillit.tetriminos[0];

    assert_eq!(tetrimino.char, 'A');
}

#[test]
fn test_invalid_numbers_of_tetriminos() {
    let parser = Parser::new("".to_string());
    let fillit = parser.parse_content();
    assert!(matches!(fillit, Err(FillitError::InvalidPieceCount)));
}

#[test]
fn should_define_tetrimino() {
    let tetrimino = Tetrimino::new('A', String::from("##..\n##..\n....\n....")).unwrap();
    assert_eq!(tetrimino.char, 'A');

    assert_eq!(tetrimino.shape, [[1, 1, 0, 0], [1, 1, 0, 0], [0, 0, 0, 0], [0, 0, 0, 0]]);
}

fn pieces(n: usize) -> String {
    vec!["#...\n#...\n#...\n#..."; n].join("\n\n")
}

#[test]
fn twenty_seven_pieces_are_too_many() {
    assert!(matches!(Parser::new(pieces(27)).parse_content(), Err(FillitError::InvalidPieceCount)));
    let f = Parser::new(pieces(26)).parse_content().unwrap();
    assert_eq!(f.tetriminos.len(), 26);
    assert_eq!(f.tetriminos[25].char, 'Z');
}

#[test]
fn a_piece_of_three_cells_is_refused() {
    let text = format!("{}\n\n#...\n#...\n#...\n....", pieces(1));
    assert!(matches!(Parser::new(text).parse_content(), Err(FillitError::InvalidShape)));
}

#[test]
fn first_board_side_holds_four_cells_per_piece() {
    let cases: [(usize, u32); 6] = [(1, 2), (2, 3), (4, 4), (5, 5), (9, 6), (26, 11)];
    for (n, side) in cases {
        let f = Parser::new(pieces(n)).parse_content().unwrap();
        assert_eq!((f.grid.width, f.grid.height), (side, side));
        assert!(f.grid.cells.iter().all(|c| *c == ' '));
    }
}

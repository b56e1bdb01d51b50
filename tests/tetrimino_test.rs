use fillit::error::FillitError;
use fillit::tetrimino::Tetrimino;

#[test]
fn should_have_four_lines() {
    let shape = String::from("#...\n##..\n.#..");
    let tetrimino = Tetrimino::new('A', shape);
    assert!(matches!(tetrimino, Err(FillitError::InvalidShape)));
}

#[test]
fn should_have_only_four_block() {
    let shape = String::from("#...\n##..\n.##.\n....\n");
    let tetrimino = Tetrimino::new('A', shape);
    assert!(matches!(tetrimino, Err(FillitError::InvalidShape)));
}

#[test]
fn should_have_line_correctly_defined() {
    let shape = String::from("##..\n##..\n..\n....\n");
    let tetrimino = Tetrimino::new('A', shape);
    assert!(matches!(tetrimino, Err(FillitError::InvalidShape)));
}

#[test]
fn should_create_tetrimino_top_left() {
    let shape = String::from("....\n....\n..##\n..##\n");
    let tetrimino = Tetrimino::new('A', shape).unwrap();

    assert_eq!(tetrimino.shape, [[1, 1, 0, 0], [1, 1, 0, 0], [0, 0, 0, 0], [0, 0, 0, 0],])
}

#[test]
fn should_move_tetrimino_top() {
    let shape = [[0, 0, 0, 0], [0, 0, 0, 0], [0, 0, 1, 1], [0, 0, 1, 1]];
    let tetrimino = Tetrimino::move_to_top(shape);

    assert_eq!(tetrimino, [[0, 0, 1, 1], [0, 0, 1, 1], [0, 0, 0, 0], [0, 0, 0, 0]]);
}

#[test]
fn should_not_move_tetrimino_top_if_no_space() {
    let shape = [[0, 0, 0, 1], [0, 0, 0, 1], [0, 0, 0, 1], [0, 0, 0, 1]];
    let tetrimino = Tetrimino::move_to_top(shape);

    assert_eq!(tetrimino, [[0, 0, 0, 1], [0, 0, 0, 1], [0, 0, 0, 1], [0, 0, 0, 1]]);
}

#[test]
fn should_not_move_tetrimino_top_if_no_space_2() {
    let shape = [[0, 0, 0, 1], [0, 0, 1, 1], [0, 0, 1, 0], [0, 0, 0, 0]];
    let tetrimino = Tetrimino::move_to_top(shape);

    assert_eq!(tetrimino, [[0, 0, 0, 1], [0, 0, 1, 1], [0, 0, 1, 0], [0, 0, 0, 0]]);
}

#[test]
fn should_move_tetrimino_left() {
    let shape = [[0, 0, 0, 0], [0, 0, 0, 0], [0, 0, 1, 1], [0, 0, 1, 1]];
    let tetrimino = Tetrimino::move_to_left(shape);

    assert_eq!(tetrimino, [[0, 0, 0, 0], [0, 0, 0, 0], [1, 1, 0, 0], [1, 1, 0, 0]]);
}

#[test]
fn should_get_size() {
    let shape = [[1, 1, 0, 0], [1, 1, 0, 0], [0, 0, 0, 0], [0, 0, 0, 0]];

    let (width, height) = Tetrimino::get_size(shape);

    assert_eq!(width, 2);
    assert_eq!(height, 2);
}

#[test]
fn size_is_the_tight_bounding_box() {
    // an L whose last row is shorter than its first
    let shape = [[1, 1, 1, 0], [1, 0, 0, 0], [0, 0, 0, 0], [0, 0, 0, 0]];
    assert_eq!(Tetrimino::get_size(shape), (3, 2));
    let bar = [[0, 0, 0, 0], [0, 0, 0, 0], [0, 0, 0, 0], [1, 1, 1, 1]];
    let t = Tetrimino::from_shape('A', bar);
    assert_eq!(t.shape, [[1, 1, 1, 1], [0, 0, 0, 0], [0, 0, 0, 0], [0, 0, 0, 0]]);
    assert_eq!((t.width, t.height), (4, 1));
}

#[test]
fn normalizing_twice_changes_nothing() {
    let once = Tetrimino::from_shape('A', [[0, 0, 0, 0], [0, 0, 1, 0], [0, 1, 1, 0], [0, 0, 1, 0]]);
    let twice = Tetrimino::from_shape('A', once.shape);
    assert_eq!(once.shape, [[0, 1, 0, 0], [1, 1, 0, 0], [0, 1, 0, 0], [0, 0, 0, 0]]);
    assert_eq!(twice.shape, once.shape);
    assert_eq!((twice.width, twice.height), (once.width, once.height));
}

#[test]
fn normalizing_keeps_four_cells() {
    let t = Tetrimino::new('A', String::from("....\n..#.\n..#.\n.##.")).unwrap();
    let n: u32 = t.shape.iter().map(|r| r.iter().map(|c| *c as u32).sum::<u32>()).sum();
    assert_eq!(n, 4);
    assert_eq!((t.width, t.height), (2, 3));
}

#[test]
fn row_with_another_character_is_refused() {
    let t = Tetrimino::new('A', String::from("##x.\n##..\n....\n...."));
    assert!(matches!(t, Err(FillitError::InvalidShape)));
    let t = Tetrimino::new('A', String::from("##...\n##..\n....\n...."));
    assert!(matches!(t, Err(FillitError::InvalidShape)));
}

#[test]
fn blank_lines_inside_a_piece_are_skipped() {
    let t = Tetrimino::new('C', String::from("\n##..\n\n##..\n....\n....\n\n")).unwrap();
    assert_eq!(t.char, 'C');
    assert_eq!(t.shape, [[1, 1, 0, 0], [1, 1, 0, 0], [0, 0, 0, 0], [0, 0, 0, 0]]);
}

#[test]
fn render_draws_label_and_dots() {
    let t = Tetrimino::new('B', String::from("....\n.#..\n###.\n....")).unwrap();
    let text: String = t.render().into_iter().collect();
    assert_eq!(text, ".B..\nBBB.\n....\n....\n");
}

#[test]
fn drawn_piece_reads_back_as_the_same_piece() {
    let t1 = Tetrimino::new('C', String::from("....\n..#.\n.##.\n..#.")).unwrap();
    let text: String = t1.render().into_iter().map(|c| if c == 'C' { '#' } else { c }).collect();
    let t2 = Tetrimino::new('C', text).unwrap();
    assert_eq!(t2.shape, t1.shape);
    assert_eq!((t2.width, t2.height, t2.char), (t1.width, t1.height, 'C'));
}

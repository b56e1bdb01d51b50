use fillit::error::FillitError;
use fillit::solve_fillit;

fn get_expected_result(vec: Vec<&str>) -> Vec<char> {
  let inline: String = vec.join("").into();
  inline
    .split("")
    .map(|c| c.chars().next())
    .filter(|c| *c != None)
    .map(|c| c.unwrap())
    .collect::<Vec<char>>()
}

#[test]
pub fn test_resolve_soft_base() {
  let mut content: Vec<String> = Vec::new();
  content.push(
    String::from("....\n....\n..##\n..##\n")
  );

  let content = content.join("\n\n");

  let fillit = solve_fillit(content).unwrap();

  assert_eq!(fillit.grid.width, 2);
  assert_eq!(fillit.grid.height, 2);

  let expected = get_expected_result(vec![
    "AA",
    "AA"
  ]);

  assert_eq!(fillit.grid.cells, expected);
}

#[test]
pub fn test_resolve_soft_0() {
  let mut content: Vec<String> = Vec::new();

  content.push(String::from("..#.\n..#.\n..#.\n..#."));
  content.push(String::from("....\n....\n..##\n..##"));

  let content = content.join("\n\n");

  let fillit = solve_fillit(content).unwrap();

  assert_eq!(fillit.grid.width, 4);
  assert_eq!(fillit.grid.height, 4);

  let expected: Vec<char> = get_expected_result(vec![
    "ABB.",
    "ABB.",
    "A...",
    "A..."
  ]);

  assert_eq!(fillit.grid.cells, expected);
}

#[test]
pub fn test_resolve_soft_1() {
  let mut content: Vec<String> = Vec::new();

  content.push(String::from("....\n.##.\n..#.\n..#."));
  content.push(String::from(".##.\n..#.\n..#.\n...."));

  let content = content.join("\n\n");

  let fillit = solve_fillit(content).unwrap();

  assert_eq!(fillit.grid.width, 4);
  assert_eq!(fillit.grid.height, 4);

  let expected: Vec<char> = get_expected_result(vec![
    "AABB",
    ".A.B",
    ".A.B",
    "...."
  ]);

  assert_eq!(fillit.grid.cells, expected);
}

#[test]
pub fn test_resolve_soft_3() {
  let mut content: Vec<String> = Vec::new();

  content.push(String::from("....\n.#..\n##..\n.#.."));
  content.push(String::from("....\n.#..\n##..\n.#.."));
  content.push(String::from("....\n.##.\n.##.\n...."));

  let content = content.join("\n\n");

  let fillit = solve_fillit(content).unwrap();

  assert_eq!(fillit.grid.width, 5);
  assert_eq!(fillit.grid.height, 5);

  let expected: Vec<char> = get_expected_result(vec![
    ".A.B.",
    "AABB.",
    ".A.B.",
    "CC...",
    "CC..."
  ]);

  assert_eq!(fillit.grid.cells, expected);
}

#[test]
fn every_label_covers_four_cells_without_overlap() {
    let content = vec![
        "....\n.#..\n##..\n.#..",
        "#...\n#...\n#...\n#...",
        "....\n....\n.##.\n.##.",
        "###.\n#...\n....\n....",
    ]
    .join("\n\n");
    let fillit = solve_fillit(content).unwrap();
    assert_eq!(fillit.grid.width, fillit.grid.height);
    for label in ['A', 'B', 'C', 'D'] {
        assert_eq!(fillit.grid.cells.iter().filter(|c| **c == label).count(), 4);
    }
    let dots = fillit.grid.cells.iter().filter(|c| **c == '.').count();
    assert_eq!(dots + 16, fillit.grid.cells.len());
}

#[test]
fn same_input_gives_same_board() {
    let content = vec!["....\n.##.\n..#.\n..#.", ".##.\n..#.\n..#.\n....", "##..\n##..\n....\n...."].join("\n\n");
    let a = solve_fillit(content.clone()).unwrap();
    let b = solve_fillit(content).unwrap();
    assert_eq!(a.grid.width, b.grid.width);
    assert_eq!(a.grid.cells, b.grid.cells);
}

#[test]
fn square_then_bar_grows_once() {
    // two pieces need 8 cells: the first board is 3 by 3, where the bar cannot stand
    let content = vec!["..#.\n..#.\n..#.\n..#.", "##..\n##..\n....\n...."].join("\n\n");
    let fillit = solve_fillit(content).unwrap();
    assert_eq!(fillit.grid.width, 4);
    assert_eq!(fillit.grid.cells[0], 'A');
    assert_eq!(fillit.grid.cells[1], 'B');
}

#[test]
fn invalid_input_is_refused() {
    assert!(matches!(solve_fillit(String::new()), Err(FillitError::InvalidPieceCount)));
    assert!(matches!(solve_fillit(String::from("#...\n#...\n#...\n....")), Err(FillitError::InvalidShape)));
}

#[test]
fn bar_wider_than_the_board_grows_it() {
    // at sides 2 and 3 the bar's cells would run past the row end
    let fillit = solve_fillit(String::from("####\n....\n....\n....")).unwrap();
    assert_eq!(fillit.grid.width, 4);
    assert_eq!(fillit.grid.height, 4);
    let expected: Vec<char> = "AAAA............".chars().collect();
    assert_eq!(fillit.grid.cells, expected);
}

#[test]
fn t_piece_wider_than_the_first_board_grows_it() {
    let fillit = solve_fillit(String::from("###.\n.#..\n....\n....")).unwrap();
    assert_eq!(fillit.grid.width, 3);
    assert_eq!(fillit.grid.height, 3);
    let expected: Vec<char> = "AAA.A....".chars().collect();
    assert_eq!(fillit.grid.cells, expected);
}

#[test]
fn twenty_six_squares_fill_rows_left_to_right() {
    let content = vec!["##..\n##..\n....\n...."; 26].join("\n\n");
    let fillit = solve_fillit(content).unwrap();
    // at side 11 five squares fit per band of two rows and the last row is
    // left over, so 25 fit; at side 12 six fit per band
    assert_eq!(fillit.grid.width, 12);
    let first_row: String = fillit.grid.cells[0..12].iter().collect();
    assert_eq!(first_row, "AABBCCDDEEFF");
    let last_band: String = fillit.grid.cells[96..108].iter().collect();
    assert_eq!(last_band, "YYZZ........");
    assert_eq!(fillit.grid.cells.iter().filter(|c| **c == 'Z').count(), 4);
}

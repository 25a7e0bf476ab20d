use sudoku::model::cell::Cell;
use sudoku::model::cells::Cells;
use sudoku::model::grid::Grid;
use sudoku::model::text::ParsePuzzleError;

const SOLUTION: &str =
    "318457962572986143946312578639178425157294836284563791425731689761829354893645217";
const PARTIAL: &str =
    "310450900072986143906010508639178020150090806004003700005731009701829350000645010";

fn grid_of(text: &str) -> Grid {
    let mut grid = Grid::new();
    grid.try_from(text).expect("a puzzle text");
    grid
}

#[test]
fn grid_too_short() {
    let mut grid = Grid::new();
    let err = grid.try_from("1234").unwrap_err();
    println!("{}", err.to_string());
    assert_eq!(err, ParsePuzzleError::TooShort);
}

#[test]
fn grid_not_all_digits() {
    let mut grid = Grid::new();
    let err = grid.try_from("aaaaaaaaaaaaaaa").unwrap_err();
    assert_eq!(err, ParsePuzzleError::HasAlpha);
}

#[test]
fn validate_valid_grid() {
    let solution =
        "318457962572986143946312578639178425157294836284563791425731689761829354893645217";
    let mut grid = Grid::new();
    let _ = grid.try_from(solution);

    assert!(grid.validate());
}

#[test]
fn grid_too_long() {
    let mut grid = Grid::new();
    let text = format!("{}0", SOLUTION);
    assert_eq!(text.len(), 82);
    assert_eq!(grid.try_from(&text), Err(ParsePuzzleError::TooLong));
}

#[test]
fn non_digit_is_reported_before_length() {
    let mut grid = Grid::new();
    assert_eq!(grid.try_from("12a"), Err(ParsePuzzleError::HasAlpha));
    let long = format!("{}x", SOLUTION);
    assert_eq!(grid.try_from(&long), Err(ParsePuzzleError::HasAlpha));
    let mut exact = String::from(&SOLUTION[..80]);
    exact.push(' ');
    assert_eq!(grid.try_from(&exact), Err(ParsePuzzleError::HasAlpha));
}

#[test]
fn non_ascii_digit_is_refused() {
    let mut grid = Grid::new();
    let mut text = String::from(&SOLUTION[..80]);
    text.push('\u{0663}');
    assert_eq!(grid.try_from(&text), Err(ParsePuzzleError::HasAlpha));
}

#[test]
fn empty_text_is_too_short() {
    let mut grid = Grid::new();
    assert_eq!(grid.try_from(""), Err(ParsePuzzleError::TooShort));
}

#[test]
fn refused_text_leaves_grid_unchanged() {
    let mut grid = grid_of(PARTIAL);
    assert!(grid.try_from("123").is_err());
    assert_eq!(grid.as_string(), PARTIAL);
}

#[test]
fn error_messages() {
    assert_eq!(ParsePuzzleError::TooLong.to_string(), "Value string is too long");
    assert_eq!(ParsePuzzleError::TooShort.to_string(), "Value string is too short");
    assert_eq!(
        ParsePuzzleError::HasAlpha.to_string(),
        "Value string contains alphabetic characters"
    );
}

#[test]
fn parse_round_trip() {
    assert_eq!(grid_of(SOLUTION).as_string(), SOLUTION);
    assert_eq!(grid_of(PARTIAL).as_string(), PARTIAL);
    let zeros = "0".repeat(81);
    assert_eq!(grid_of(&zeros).as_string(), zeros);
}

#[test]
fn new_grid_is_empty() {
    let grid = Grid::new();
    assert_eq!(grid.as_string(), "0".repeat(81));
    assert!(grid.validate());
    assert_eq!(grid.find_unassigned_location(), Some((0, 0)));
}

#[test]
fn parse_maps_characters_row_major() {
    let grid = grid_of(PARTIAL);
    assert_eq!(grid.get_value_at_row_col(0, 0), 3);
    assert_eq!(grid.get_value_at_row_col(0, 1), 1);
    assert_eq!(grid.get_value_at_row_col(0, 2), 0);
    assert_eq!(grid.get_value_at_row_col(1, 0), 0);
    assert_eq!(grid.get_value_at_row_col(1, 1), 7);
    assert_eq!(grid.get_value_at_row_col(8, 7), 1);
    assert_eq!(grid.get_value_at_row_col(8, 8), 0);
}

#[test]
fn partial_grid_without_clash_is_valid() {
    assert!(grid_of(PARTIAL).validate());
}

#[test]
fn duplicate_in_row_is_invalid() {
    let mut grid = grid_of(SOLUTION);
    grid.set_value_at_row_col(0, 0, 1);
    assert!(!grid.validate());
    assert!(!grid.is_safe());
}

#[test]
fn safe_grid_is_valid_grid() {
    assert!(grid_of(SOLUTION).is_safe());
    assert!(grid_of(PARTIAL).is_safe());
    assert!(Grid::new().is_safe());
    let mut grid = grid_of(PARTIAL);
    grid.set_value_at_row_col(8, 8, 9);
    assert_eq!(grid.is_safe(), grid.validate());
    assert!(!grid.is_safe());
}

#[test]
fn duplicate_in_column_only_is_invalid() {
    let mut grid = Grid::new();
    grid.set_value_at_row_col(0, 4, 7);
    grid.set_value_at_row_col(8, 4, 7);
    assert!(!grid.validate());
}

#[test]
fn duplicate_in_region_only_is_invalid() {
    let mut grid = Grid::new();
    grid.set_value_at_row_col(3, 3, 2);
    grid.set_value_at_row_col(4, 4, 2);
    assert!(!grid.validate());
    grid.set_value_at_row_col(4, 4, 0);
    grid.set_value_at_row_col(4, 6, 2);
    assert!(grid.validate());
}

#[test]
fn set_value_is_unconditional() {
    let mut grid = grid_of(SOLUTION);
    grid.set_value_at_row_col(4, 4, 0);
    assert_eq!(grid.get_value_at_row_col(4, 4), 0);
    assert_eq!(grid.find_unassigned_location(), Some((4, 4)));
    grid.set_value_at_row_col(4, 4, 1);
    assert_eq!(grid.get_value_at_row_col(4, 4), 1);
    assert!(!grid.validate());
}

#[test]
fn safe_placement_looks_at_row_column_and_region() {
    let grid = grid_of(PARTIAL);
    // (0, 2) is empty; the solution holds 8 there.
    assert!(grid.check_is_safe(0, 2, 8));
    // 3 stands in the row, 2 in the column, 7 in the region.
    assert!(!grid.check_is_safe(0, 2, 3));
    assert!(!grid.check_is_safe(0, 2, 2));
    assert!(!grid.check_is_safe(0, 2, 7));
}

#[test]
fn safe_placement_leaves_out_the_cell_itself() {
    let grid = grid_of(SOLUTION);
    assert!(grid.check_is_safe(0, 0, 3));
    assert!(!grid.check_is_safe(0, 0, 1));
}

#[test]
fn safe_placement_matches_validity() {
    let grid = grid_of(PARTIAL);
    assert!(grid.validate());
    for row in 0..9 {
        for col in 0..9 {
            if grid.get_value_at_row_col(row, col) != 0 {
                continue;
            }
            for digit in 1..=9u8 {
                let mut tried = grid.clone();
                tried.set_value_at_row_col(row, col, digit);
                assert_eq!(grid.check_is_safe(row, col, digit), tried.validate());
            }
        }
    }
}

#[test]
fn find_unassigned_scans_row_major() {
    assert_eq!(grid_of(PARTIAL).find_unassigned_location(), Some((0, 2)));
    assert_eq!(grid_of(SOLUTION).find_unassigned_location(), None);
    let mut grid = grid_of(SOLUTION);
    grid.set_value_at_row_col(8, 8, 0);
    grid.set_value_at_row_col(5, 3, 0);
    assert_eq!(grid.find_unassigned_location(), Some((5, 3)));
}

fn digits(cells: &Cells) -> Vec<u8> {
    (0..cells.len()).map(|i| cells.get_at(i).unwrap().value()).collect()
}

#[test]
fn rows_and_columns_follow_the_index_rule() {
    let grid = grid_of(SOLUTION);
    assert_eq!(digits(&grid.get_row(0)), vec![3, 1, 8, 4, 5, 7, 9, 6, 2]);
    assert_eq!(digits(&grid.get_row(8)), vec![8, 9, 3, 6, 4, 5, 2, 1, 7]);
    assert_eq!(digits(&grid.get_column(0)), vec![3, 5, 9, 6, 1, 2, 4, 7, 8]);
    assert_eq!(digits(&grid.get_column(8)), vec![2, 3, 8, 5, 6, 1, 9, 4, 7]);
}

#[test]
fn region_of_row_and_column() {
    let grid = Grid::new();
    assert_eq!(grid.get_region_by_row_col(0, 0), 0);
    assert_eq!(grid.get_region_by_row_col(2, 8), 2);
    assert_eq!(grid.get_region_by_row_col(3, 0), 3);
    assert_eq!(grid.get_region_by_row_col(4, 4), 4);
    assert_eq!(grid.get_region_by_row_col(5, 6), 5);
    assert_eq!(grid.get_region_by_row_col(8, 2), 6);
    assert_eq!(grid.get_region_by_row_col(8, 8), 8);
}

#[test]
fn notes_fall_back_to_all_digits() {
    let mut grid = Grid::new();
    assert_eq!(grid.get_notes_at_row_col(4, 4), vec![1, 2, 3, 4, 5, 6, 7, 8, 9]);
    grid.add_note_at_row_col(4, 4, 7);
    grid.add_note_at_row_col(4, 4, 2);
    grid.add_note_at_row_col(4, 4, 7);
    assert_eq!(grid.get_notes_at_row_col(4, 4), vec![2, 7]);
    assert_eq!(grid.get_notes_at_row_col(4, 5), vec![1, 2, 3, 4, 5, 6, 7, 8, 9]);
    grid.clear_note(4, 4, 2);
    grid.clear_note(4, 4, 7);
    assert_eq!(grid.get_notes_at_row_col(4, 4), vec![1, 2, 3, 4, 5, 6, 7, 8, 9]);
}

#[test]
fn clear_note_reaches_row_column_and_region() {
    let mut grid = Grid::new();
    for row in 0..9 {
        for col in 0..9 {
            grid.add_note_at_row_col(row, col, 5);
            grid.add_note_at_row_col(row, col, 6);
        }
    }
    grid.clear_note(4, 1, 5);
    for row in 0..9 {
        for col in 0..9 {
            let shares = row == 4 || col == 1 || (row / 3 == 1 && col / 3 == 0);
            let expected: Vec<u8> = if shares { vec![6] } else { vec![5, 6] };
            assert_eq!(grid.get_notes_at_row_col(row, col), expected, "at ({row}, {col})");
        }
    }
    assert_eq!(grid.as_string(), "0".repeat(81));
}

#[test]
fn clear_note_of_a_digit_out_of_range_changes_nothing() {
    let mut grid = Grid::new();
    grid.add_note_at_row_col(0, 0, 9);
    let before = grid.clone();
    grid.clear_note(0, 0, 0);
    grid.clear_note(0, 0, 10);
    grid.clear_note(0, 0, 200);
    assert_eq!(grid, before);
}

#[test]
fn raw_cells_and_with_cells_copy_the_state() {
    let mut grid = grid_of(PARTIAL);
    grid.add_note_at_row_col(0, 2, 8);
    let saved = grid.raw_cells();
    assert_eq!(saved.len(), 81);
    grid.set_value_at_row_col(0, 2, 8);
    grid.clear_note(0, 2, 8);
    assert_eq!(saved.get_at(2).unwrap().value(), 0);
    let mut other = Grid::new();
    other.with_cells(&saved);
    assert_eq!(other.as_string(), PARTIAL);
    assert_eq!(other.get_notes_at_row_col(0, 2), vec![8]);
    grid.with_cells(&saved);
    assert_eq!(grid, other);
}

#[test]
fn cell_notes() {
    let mut cell = Cell::new(0);
    assert_eq!(cell.value(), 0);
    assert!(cell.has_no_notes());
    assert!(cell.has_candidate(4));
    assert!(!cell.has_candidate(0));
    assert!(!cell.has_candidate(10));
    cell.add_note(3);
    cell.add_note(9);
    assert!(cell.has_note(3) && cell.has_note(9) && !cell.has_note(4));
    assert!(!cell.has_note(0) && !cell.has_note(12));
    assert!(!cell.has_candidate(4));
    assert_eq!(cell.candidates(), vec![3, 9]);
    cell.clear_note(3);
    assert_eq!(cell.candidates(), vec![9]);
    cell.set_value(6);
    assert_eq!(cell.value(), 6);
    assert_eq!(cell.candidates(), vec![9]);
}

#[test]
fn cells_from_text() {
    let cells = Cells::from("0129");
    assert_eq!(digits(&cells), vec![0, 1, 2, 9]);
    assert!(cells.get_at(4).is_none());
    assert_eq!(cells.get_at(3), Some(Cell::new(9)));
    assert!(cells.is_valid());
    assert!(!Cells::from("01201").is_valid());
    assert!(Cells::from("00000").is_valid());
    assert!(Cells::new().is_valid());
}

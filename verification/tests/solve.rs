use sudoku::model::grid::Grid;
use sudoku::solvers::collect_candidates::collect_candidates;
use sudoku::solvers::solve_sudoku_backtrack::solve_sudoku_backtrack;
use sudoku::solvers::solve_sudoku_notes::solve_sudoku_notes;

const PUZZLE_A: &str =
    "306508400520000000087000031003010080900863005050090600130000250000000074005206300";
const SOLUTION_A: &str =
    "316578492529134768487629531263415987974863125851792643138947256692351874745286319";
const PUZZLE_B: &str =
    "004300000890200670700900050500008140070032060600001308001750900005040012980006005";
const SOLUTION_B: &str =
    "254367891893215674716984253532698147178432569649571328421753986365849712987126435";

fn grid_of(text: &str) -> Grid {
    let mut grid = Grid::new();
    grid.try_from(text).expect("a puzzle text");
    grid
}

#[test]
fn test_solve_sudoku_notes() {
    let puzzle_data =
        "306508400520000000087000031003010080900863005050090600130000250000000074005206300";
    let solution =
        "316578492529134768487629531263415987974863125851792643138947256692351874745286319";
    assert_eq!(puzzle_data.len(), 81);
    let mut grid = Grid::new();
    grid.try_from(puzzle_data).expect("TODO: panic message");
    let r = solve_sudoku_notes(&mut grid, 0, 0);

    assert!(r);
    let result = grid.as_string();
    assert_eq!(result, solution);
}

#[test]
fn test_solve_t1() {
    let puzzle =
        "004300000890200670700900050500008140070032060600001308001750900005040012980006005";
    let solution =
        "254367891893215674716984253532698147178432569649571328421753986365849712987126435";
    let mut grid = Grid::new();
    grid.try_from(puzzle).expect("TODO: panic message");
    let r = solve_sudoku_notes(&mut grid, 0, 0);

    assert!(r);
    let result = grid.as_string();
    assert_eq!(result, solution);
}

#[test]
fn solution_is_complete_valid_and_keeps_the_puzzle() {
    for puzzle in [PUZZLE_A, PUZZLE_B] {
        let mut grid = grid_of(puzzle);
        assert!(solve_sudoku_notes(&mut grid, 0, 0));
        let result = grid.as_string();
        assert!(!result.contains('0'));
        assert!(grid.validate());
        assert_eq!(grid.find_unassigned_location(), None);
        for (given, found) in puzzle.chars().zip(result.chars()) {
            assert!(given == '0' || given == found);
        }
    }
}

#[test]
fn repeated_solves_agree() {
    let first = {
        let mut grid = grid_of(PUZZLE_B);
        assert!(solve_sudoku_notes(&mut grid, 0, 0));
        grid.as_string()
    };
    let second = {
        let mut grid = grid_of(PUZZLE_B);
        assert!(solve_sudoku_notes(&mut grid, 0, 0));
        grid.as_string()
    };
    assert_eq!(first, second);
    assert_eq!(first, SOLUTION_B);
}

#[test]
fn start_position_is_of_no_account() {
    let mut grid = grid_of(PUZZLE_A);
    assert!(solve_sudoku_notes(&mut grid, 7, 3));
    assert_eq!(grid.as_string(), SOLUTION_A);
}

#[test]
fn stale_notes_do_not_change_the_result() {
    let mut grid = grid_of(PUZZLE_A);
    // A note that is not safe: 3 stands in row 0 already.
    grid.add_note_at_row_col(0, 1, 3);
    grid.add_note_at_row_col(0, 1, 9);
    assert!(solve_sudoku_notes(&mut grid, 0, 0));
    assert_eq!(grid.as_string(), SOLUTION_A);
}

#[test]
fn empty_grid_gets_the_first_solution() {
    let mut grid = Grid::new();
    assert!(solve_sudoku_notes(&mut grid, 0, 0));
    assert_eq!(
        grid.as_string(),
        "123456789456789123789123456214365897365897214897214365531642978642978531978531642"
    );
    assert!(grid.validate());
}

#[test]
fn full_grid_is_solved_at_once() {
    let mut grid = grid_of(SOLUTION_A);
    assert!(solve_sudoku_notes(&mut grid, 0, 0));
    assert_eq!(grid.as_string(), SOLUTION_A);
}

#[test]
fn full_grid_with_a_clash_is_not_solved() {
    let mut text = String::from("1");
    text.push_str(&SOLUTION_A[1..]);
    let mut grid = grid_of(&text);
    assert!(!grid.validate());
    assert!(!solve_sudoku_notes(&mut grid, 0, 0));
    assert_eq!(grid.as_string(), text);
}

#[test]
fn grid_of_ones_is_not_solved() {
    let text = "1".repeat(81);
    let mut grid = grid_of(&text);
    assert!(!solve_sudoku_notes(&mut grid, 0, 0));
    assert_eq!(grid.as_string(), text);
}

#[test]
fn clash_among_the_given_digits_is_not_solved() {
    // Two 1s in row 0, and the last cell empty.
    let mut text = String::from("1");
    text.push_str(&SOLUTION_A[1..80]);
    text.push('0');
    let mut grid = grid_of(&text);
    assert!(!grid.validate());
    assert!(!grid.is_safe());
    assert!(!solve_sudoku_notes(&mut grid, 0, 0));
    assert_eq!(grid.as_string(), text);
    // The candidates were collected all the same: 9 alone fits the last cell.
    assert_eq!(grid.get_notes_at_row_col(8, 8), vec![9]);
}

#[test]
fn clash_far_from_the_empty_cells_is_not_solved() {
    let mut text = String::from("55");
    text.push_str(&"0".repeat(79));
    let mut grid = grid_of(&text);
    assert!(!solve_sudoku_notes(&mut grid, 0, 0));
    assert_eq!(grid.as_string(), text);
}

#[test]
fn cell_without_safe_digit_fails_and_keeps_the_digits() {
    // Row 0 holds 1..=8 and column 8 holds 9: nothing fits at (0, 8).
    let mut text = String::from("123456780");
    text.push_str("000000009");
    text.push_str(&"0".repeat(63));
    let mut grid = grid_of(&text);
    assert!(grid.validate());
    assert!(!solve_sudoku_notes(&mut grid, 0, 0));
    assert_eq!(grid.as_string(), text);
}

#[test]
fn failure_after_backtracking_keeps_the_digits() {
    // (0, 0) and (0, 1) can both hold 2 only: 3..=9 stand in their row and 1
    // in their region. The search places 2 at (0, 0), finds nothing for
    // (0, 1), takes the 2 back and gives up.
    let mut text = String::from("003456789");
    text.push_str("100000000");
    text.push_str(&"0".repeat(63));
    let mut grid = grid_of(&text);
    assert!(grid.validate());
    assert!(!solve_sudoku_notes(&mut grid, 0, 0));
    assert_eq!(grid.as_string(), text);
    assert_eq!(grid.get_notes_at_row_col(0, 0), vec![2]);
    assert_eq!(grid.get_notes_at_row_col(0, 1), vec![2]);
}

#[test]
fn candidates_are_the_safe_digits() {
    let mut grid = grid_of(PUZZLE_A);
    collect_candidates(&mut grid);
    assert_eq!(grid.as_string(), PUZZLE_A);
    for row in 0..9 {
        for col in 0..9 {
            if grid.get_value_at_row_col(row, col) != 0 {
                continue;
            }
            let safe: Vec<u8> = (1..=9u8).filter(|d| grid.check_is_safe(row, col, *d)).collect();
            assert!(!safe.is_empty());
            assert_eq!(grid.get_notes_at_row_col(row, col), safe, "at ({row}, {col})");
        }
    }
    assert_eq!(grid.get_notes_at_row_col(0, 1), vec![1, 9]);
}

#[test]
fn candidates_join_the_notes_already_there() {
    let mut grid = grid_of(PUZZLE_A);
    grid.add_note_at_row_col(0, 1, 3);
    grid.add_note_at_row_col(0, 0, 5);
    collect_candidates(&mut grid);
    assert_eq!(grid.get_notes_at_row_col(0, 1), vec![1, 3, 9]);
    // (0, 0) is assigned: its notes are left alone.
    assert_eq!(grid.get_notes_at_row_col(0, 0), vec![5]);
}

#[test]
fn backtrack_search_after_collection() {
    let mut grid = grid_of(PUZZLE_B);
    collect_candidates(&mut grid);
    assert!(solve_sudoku_backtrack(&mut grid));
    assert_eq!(grid.as_string(), SOLUTION_B);
}

#[test]
fn failed_search_puts_the_notes_back() {
    let mut text = String::from("123456780");
    text.push_str("000000009");
    text.push_str(&"0".repeat(63));
    let mut grid = grid_of(&text);
    collect_candidates(&mut grid);
    let before = grid.clone();
    assert!(!solve_sudoku_backtrack(&mut grid));
    assert_eq!(grid, before);
}

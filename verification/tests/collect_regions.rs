use sudoku::model::cell::Cell;
use sudoku::model::cells::Cells;
use sudoku::model::collect_regions::collect_regions;
use sudoku::model::grid::Grid;
use sudoku::model::region::Region;
use sudoku::model::regions::Regions;

#[test]
fn test_collect_regions() {
    let solution =
        "318457962572986143946312578639178425157294836284563791425731689761829354893645217";
    let cells = Cells::from(solution);
    let r = collect_regions(&cells);
    let expected_cells = [
        Cell::new(3),
        Cell::new(1),
        Cell::new(8),
        Cell::new(5),
        Cell::new(7),
        Cell::new(2),
        Cell::new(9),
        Cell::new(4),
        Cell::new(6),
    ];
    let expected_region = Region::with_cells(expected_cells);
    assert_eq!(r.get_at(0), expected_region);
}

fn digits(region: &Region) -> Vec<u8> {
    (0..9).map(|k| region.get_at(k).value()).collect()
}

#[test]
fn every_region_walks_three_rows_of_three() {
    let solution =
        "318457962572986143946312578639178425157294836284563791425731689761829354893645217";
    let r = collect_regions(&Cells::from(solution));
    assert_eq!(digits(&r.get_at(1)), vec![4, 5, 7, 9, 8, 6, 3, 1, 2]);
    assert_eq!(digits(&r.get_at(2)), vec![9, 6, 2, 1, 4, 3, 5, 7, 8]);
    assert_eq!(digits(&r.get_at(3)), vec![6, 3, 9, 1, 5, 7, 2, 8, 4]);
    assert_eq!(digits(&r.get_at(4)), vec![1, 7, 8, 2, 9, 4, 5, 6, 3]);
    assert_eq!(digits(&r.get_at(8)), vec![6, 8, 9, 3, 5, 4, 2, 1, 7]);
    assert!(r.is_valid());
}

#[test]
fn regions_copy_digits_without_notes() {
    let mut grid = Grid::new();
    grid.set_value_at_row_col(4, 4, 5);
    grid.add_note_at_row_col(4, 4, 1);
    grid.add_note_at_row_col(3, 3, 2);
    let r = collect_regions(&grid.raw_cells());
    let mut expected = [Cell::new(0); 9];
    expected[4] = Cell::new(5);
    assert_eq!(r.get_at(4), Region::with_cells(expected));
    assert_eq!(r.get_at(0), Region::new());
}

#[test]
fn regions_are_checked_one_by_one() {
    let mut regions = Regions::new();
    assert!(regions.is_valid());
    let mut cells = [Cell::new(0); 9];
    cells[0] = Cell::new(4);
    cells[8] = Cell::new(4);
    let clash = Region::with_cells(cells);
    assert!(!clash.is_valid());
    regions.add_region_at(clash, 7);
    assert_eq!(regions.get_at(7), clash);
    assert!(!regions.is_valid());
    regions.add_region_at(Region::new(), 7);
    assert!(regions.is_valid());
}

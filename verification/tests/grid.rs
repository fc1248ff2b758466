use std::collections::HashMap;

use room_mvp::{GridArea, GridError, GridLayout, GridSize, Rect, Size};

fn solve_map(grid: &GridLayout, size: Size) -> HashMap<String, Rect> {
    grid.solve(size).unwrap().into_iter().collect()
}

#[test]
fn test_grid_size_fixed() {
    let size = GridSize::Fixed(20);
    assert_eq!(size, GridSize::Fixed(20));
}

#[test]
fn test_grid_size_flex() {
    let size = GridSize::flex(2);
    match size {
        GridSize::Flex(n) => assert_eq!(n.get(), 2),
        _ => panic!("Expected Flex variant"),
    }
}

#[test]
fn test_grid_size_percent() {
    let size = GridSize::percent(30);
    match size {
        GridSize::Percent(n) => assert_eq!(n.get(), 30),
        _ => panic!("Expected Percent variant"),
    }
}

#[test]
fn test_grid_size_percent_edge_cases() {
    let min = GridSize::percent(1);
    match min {
        GridSize::Percent(n) => assert_eq!(n.get(), 1),
        _ => panic!("Expected Percent variant"),
    }

    let max = GridSize::percent(100);
    match max {
        GridSize::Percent(n) => assert_eq!(n.get(), 100),
        _ => panic!("Expected Percent variant"),
    }
}

#[test]
fn test_grid_area_cell() {
    let area = GridArea::cell(2, 3);
    assert_eq!(area.rows, 2..3);
    assert_eq!(area.cols, 3..4);
}

#[test]
fn test_grid_area_new() {
    let area = GridArea::new(1..4, 2..5);
    assert_eq!(area.rows, 1..4);
    assert_eq!(area.cols, 2..5);
}

#[test]
fn test_grid_area_span_rows() {
    let area = GridArea::span_rows(2, 0..3);
    assert_eq!(area.rows, 0..3);
    assert_eq!(area.cols, 2..3);
}

#[test]
fn test_grid_area_span_cols() {
    let area = GridArea::span_cols(1, 0..4);
    assert_eq!(area.rows, 1..2);
    assert_eq!(area.cols, 0..4);
}

#[test]
fn test_grid_area_validate_success() {
    let area = GridArea::new(0..2, 0..3);
    let result = area.validate(&"test".to_string(), 3, 4);
    assert!(result.is_ok());
}

#[test]
fn test_grid_area_validate_out_of_bounds_rows() {
    let area = GridArea::new(0..5, 0..2);
    let result = area.validate(&"test".to_string(), 3, 4);
    assert!(result.is_err());
    match result {
        Err(GridError::OutOfBounds {
            zone,
            row_end,
            row_count,
            ..
        }) => {
            assert_eq!(zone, "test");
            assert_eq!(row_end, 5);
            assert_eq!(row_count, 3);
        }
        _ => panic!("Expected OutOfBounds error"),
    }
}

#[test]
fn test_grid_area_validate_out_of_bounds_cols() {
    let area = GridArea::new(0..2, 0..5);
    let result = area.validate(&"test".to_string(), 3, 4);
    assert!(result.is_err());
    match result {
        Err(GridError::OutOfBounds {
            zone,
            col_end,
            col_count,
            ..
        }) => {
            assert_eq!(zone, "test");
            assert_eq!(col_end, 5);
            assert_eq!(col_count, 4);
        }
        _ => panic!("Expected OutOfBounds error"),
    }
}

#[test]
fn test_grid_area_overlaps_true() {
    let area1 = GridArea::new(1..3, 1..3);
    let area2 = GridArea::new(2..4, 2..4);
    assert!(area1.overlaps(&area2));
    assert!(area2.overlaps(&area1));
}

#[test]
fn test_grid_area_overlaps_false_rows() {
    let area1 = GridArea::new(0..2, 1..3);
    let area2 = GridArea::new(2..4, 1..3);
    assert!(!area1.overlaps(&area2));
    assert!(!area2.overlaps(&area1));
}

#[test]
fn test_grid_area_overlaps_false_cols() {
    let area1 = GridArea::new(1..3, 0..2);
    let area2 = GridArea::new(1..3, 2..4);
    assert!(!area1.overlaps(&area2));
    assert!(!area2.overlaps(&area1));
}

#[test]
fn test_grid_area_overlaps_adjacent() {
    let area1 = GridArea::new(0..2, 0..2);
    let area2 = GridArea::new(0..2, 2..4);
    assert!(!area1.overlaps(&area2));
}

#[test]
fn test_grid_area_overlaps_contained() {
    let area1 = GridArea::new(0..4, 0..4);
    let area2 = GridArea::new(1..3, 1..3);
    assert!(area1.overlaps(&area2));
    assert!(area2.overlaps(&area1));
}

#[test]
fn test_grid_layout_builder() {
    let mut grid = GridLayout::new();
    grid.add_col(GridSize::Fixed(20))
        .add_col(GridSize::flex(1))
        .add_row(GridSize::Fixed(3))
        .add_row(GridSize::flex(1))
        .with_gap(1);

    assert_eq!(grid.col_count(), 2);
    assert_eq!(grid.row_count(), 2);
    assert_eq!(grid.gap(), 1);
}

#[test]
fn test_grid_layout_place_success() {
    let mut grid = GridLayout::new();
    grid.add_col(GridSize::Fixed(20))
        .add_col(GridSize::flex(1))
        .add_row(GridSize::Fixed(3))
        .add_row(GridSize::flex(1));

    let result = grid.place("header", GridArea::span_cols(0, 0..2));
    assert!(result.is_ok());
    assert_eq!(grid.zone_count(), 1);
}

#[test]
fn test_grid_layout_place_duplicate() {
    let mut grid = GridLayout::new();
    grid.add_col(GridSize::Fixed(20))
        .add_row(GridSize::Fixed(3));

    grid.place("test", GridArea::cell(0, 0)).unwrap();
    let result = grid.place("test", GridArea::cell(0, 0));

    assert!(matches!(result, Err(GridError::DuplicateZone { .. })));
}

#[test]
fn test_grid_layout_place_out_of_bounds() {
    let mut grid = GridLayout::new();
    grid.add_col(GridSize::Fixed(20))
        .add_row(GridSize::Fixed(3));

    let result = grid.place("test", GridArea::cell(5, 0));
    assert!(matches!(result, Err(GridError::OutOfBounds { .. })));
}

#[test]
fn test_grid_layout_place_overlapping() {
    let mut grid = GridLayout::new();
    grid.add_col(GridSize::Fixed(20))
        .add_col(GridSize::flex(1))
        .add_row(GridSize::Fixed(3))
        .add_row(GridSize::flex(1));

    grid.place("zone1", GridArea::new(0..2, 0..2)).unwrap();
    let result = grid.place("zone2", GridArea::new(1..2, 1..2));

    assert!(matches!(result, Err(GridError::OverlappingAreas { .. })));
}

#[test]
fn test_grid_layout_solve_fixed_only() {
    let mut grid = GridLayout::new();
    grid.add_col(GridSize::Fixed(20))
        .add_col(GridSize::Fixed(30))
        .add_row(GridSize::Fixed(5))
        .add_row(GridSize::Fixed(10));

    grid.place("a", GridArea::cell(0, 0)).unwrap();
    grid.place("b", GridArea::cell(0, 1)).unwrap();
    grid.place("c", GridArea::cell(1, 0)).unwrap();
    grid.place("d", GridArea::cell(1, 1)).unwrap();

    let result = solve_map(&grid, Size::new(100, 50));

    assert_eq!(result["a"], Rect { x: 0, y: 0, width: 20, height: 5 });
    assert_eq!(result["b"], Rect { x: 20, y: 0, width: 30, height: 5 });
    assert_eq!(result["c"], Rect { x: 0, y: 5, width: 20, height: 10 });
    assert_eq!(result["d"], Rect { x: 20, y: 5, width: 30, height: 10 });
}

#[test]
fn test_grid_layout_solve_with_gap() {
    let mut grid = GridLayout::new();
    grid.add_col(GridSize::Fixed(20))
        .add_col(GridSize::Fixed(30))
        .add_row(GridSize::Fixed(5))
        .with_gap(2);

    grid.place("a", GridArea::cell(0, 0)).unwrap();
    grid.place("b", GridArea::cell(0, 1)).unwrap();

    let result = solve_map(&grid, Size::new(100, 50));

    assert_eq!(result["a"], Rect { x: 0, y: 0, width: 20, height: 5 });
    assert_eq!(result["b"], Rect { x: 22, y: 0, width: 30, height: 5 });
}

#[test]
fn test_grid_layout_solve_flex_distribution() {
    let mut grid = GridLayout::new();
    grid.add_col(GridSize::flex(1))
        .add_col(GridSize::flex(2))
        .add_row(GridSize::flex(1));

    grid.place("left", GridArea::cell(0, 0)).unwrap();
    grid.place("right", GridArea::cell(0, 1)).unwrap();

    let result = solve_map(&grid, Size::new(90, 20));

    assert_eq!(result["left"].width, 30);
    assert_eq!(result["right"].width, 60);
}

#[test]
fn test_grid_layout_solve_percent() {
    let mut grid = GridLayout::new();
    grid.add_col(GridSize::percent(30))
        .add_col(GridSize::percent(70))
        .add_row(GridSize::Fixed(10));

    grid.place("left", GridArea::cell(0, 0)).unwrap();
    grid.place("right", GridArea::cell(0, 1)).unwrap();

    let result = solve_map(&grid, Size::new(100, 20));

    assert_eq!(result["left"].width, 30);
    assert_eq!(result["right"].width, 70);
}

#[test]
fn test_grid_layout_solve_mixed() {
    let mut grid = GridLayout::new();
    grid.add_col(GridSize::Fixed(20))
        .add_col(GridSize::flex(2))
        .add_col(GridSize::flex(1))
        .add_row(GridSize::Fixed(5));

    grid.place("sidebar", GridArea::cell(0, 0)).unwrap();
    grid.place("main", GridArea::cell(0, 1)).unwrap();
    grid.place("aside", GridArea::cell(0, 2)).unwrap();

    let result = solve_map(&grid, Size::new(110, 20));

    assert_eq!(result["sidebar"].width, 20);
    assert_eq!(result["main"].width, 60);
    assert_eq!(result["aside"].width, 30);
}

#[test]
fn test_grid_layout_solve_spanning() {
    let mut grid = GridLayout::new();
    grid.add_col(GridSize::Fixed(30))
        .add_col(GridSize::Fixed(30))
        .add_col(GridSize::Fixed(30))
        .add_row(GridSize::Fixed(5))
        .add_row(GridSize::Fixed(10));

    grid.place("header", GridArea::span_cols(0, 0..3)).unwrap();
    grid.place("content", GridArea::cell(1, 1)).unwrap();

    let result = solve_map(&grid, Size::new(100, 50));

    assert_eq!(result["header"], Rect { x: 0, y: 0, width: 90, height: 5 });
    assert_eq!(result["content"], Rect { x: 30, y: 5, width: 30, height: 10 });
}

#[test]
fn test_grid_layout_solve_percent_only_leftover_redistribution() {
    let mut grid = GridLayout::new();
    grid.add_col(GridSize::percent(33))
        .add_col(GridSize::percent(33))
        .add_col(GridSize::percent(33))
        .add_row(GridSize::Fixed(10));

    grid.place("a", GridArea::cell(0, 0)).unwrap();
    grid.place("b", GridArea::cell(0, 1)).unwrap();
    grid.place("c", GridArea::cell(0, 2)).unwrap();

    let result = solve_map(&grid, Size::new(100, 20));

    let total_width = result["a"].width + result["b"].width + result["c"].width;
    assert_eq!(total_width, 100);
}

#[test]
fn test_grid_layout_solve_small_percent_no_vanishing() {
    let mut grid = GridLayout::new();
    grid.add_col(GridSize::percent(1))
        .add_col(GridSize::percent(99))
        .add_row(GridSize::Fixed(10));

    grid.place("tiny", GridArea::cell(0, 0)).unwrap();
    grid.place("large", GridArea::cell(0, 1)).unwrap();

    let result = solve_map(&grid, Size::new(50, 20));

    assert!(result["tiny"].width >= 1);
    assert!(result["large"].width >= 1);

    let total_width = result["tiny"].width + result["large"].width;
    assert_eq!(total_width, 50);
}

#[test]
fn test_grid_layout_solve_vanishing_track_guaranteed_minimum() {
    let mut grid = GridLayout::new();
    grid.add_col(GridSize::percent(1))
        .add_col(GridSize::percent(1))
        .add_col(GridSize::percent(98))
        .add_row(GridSize::Fixed(10));

    grid.place("a", GridArea::cell(0, 0)).unwrap();
    grid.place("b", GridArea::cell(0, 1)).unwrap();
    grid.place("c", GridArea::cell(0, 2)).unwrap();

    let result = solve_map(&grid, Size::new(100, 20));

    assert_eq!(result["a"].width, 1);
    assert_eq!(result["b"].width, 1);
    assert_eq!(result["c"].width, 98);
}

#[test]
fn test_grid_layout_solve_percent_normalization_with_leftover() {
    let mut grid = GridLayout::new();
    grid.add_col(GridSize::percent(50))
        .add_col(GridSize::percent(50))
        .add_col(GridSize::percent(50))
        .add_row(GridSize::Fixed(10));

    grid.place("a", GridArea::cell(0, 0)).unwrap();
    grid.place("b", GridArea::cell(0, 1)).unwrap();
    grid.place("c", GridArea::cell(0, 2)).unwrap();

    let result = solve_map(&grid, Size::new(100, 20));

    let total_width = result["a"].width + result["b"].width + result["c"].width;
    assert_eq!(total_width, 100);
}

#[test]
fn test_grid_layout_solve_over_constrained_budget() {
    let mut grid = GridLayout::new();
    grid.add_col(GridSize::percent(33))
        .add_col(GridSize::percent(33))
        .add_col(GridSize::percent(33))
        .add_row(GridSize::Fixed(10));

    grid.place("a", GridArea::cell(0, 0)).unwrap();
    grid.place("b", GridArea::cell(0, 1)).unwrap();
    grid.place("c", GridArea::cell(0, 2)).unwrap();

    let result = solve_map(&grid, Size::new(1, 20));

    let total_width = result["a"].width + result["b"].width + result["c"].width;
    assert!(total_width <= 1, "Total width {} exceeds available width 1", total_width);

    assert!(result["a"].x + result["a"].width <= 1);
    assert!(result["b"].x + result["b"].width <= 1);
    assert!(result["c"].x + result["c"].width <= 1);
}

#[test]
fn test_grid_layout_solve_more_tracks_than_pixels() {
    let mut grid = GridLayout::new();
    grid.add_col(GridSize::percent(25))
        .add_col(GridSize::percent(25))
        .add_col(GridSize::percent(25))
        .add_col(GridSize::percent(25))
        .add_row(GridSize::Fixed(10));

    grid.place("a", GridArea::cell(0, 0)).unwrap();
    grid.place("b", GridArea::cell(0, 1)).unwrap();
    grid.place("c", GridArea::cell(0, 2)).unwrap();
    grid.place("d", GridArea::cell(0, 3)).unwrap();

    let result = solve_map(&grid, Size::new(2, 20));

    let total_width = result["a"].width + result["b"].width + result["c"].width + result["d"].width;
    assert_eq!(total_width, 2);

    assert!(result["a"].x <= 2);
    assert!(result["b"].x <= 2);
    assert!(result["c"].x <= 2);
    assert!(result["d"].x <= 2);
}

#[test]
fn test_grid_layout_solve_gap_larger_than_terminal() {
    let mut grid = GridLayout::new();
    grid.add_col(GridSize::Fixed(10))
        .add_col(GridSize::Fixed(10))
        .add_row(GridSize::Fixed(5))
        .with_gap(100);

    grid.place("a", GridArea::cell(0, 0)).unwrap();
    grid.place("b", GridArea::cell(0, 1)).unwrap();

    let result = solve_map(&grid, Size::new(50, 20));

    assert!(result["a"].x + result["a"].width <= 50, "Zone 'a' exceeds terminal width");
    assert!(result["b"].x + result["b"].width <= 50, "Zone 'b' exceeds terminal width");
    assert!(result["a"].x <= 50);
    assert!(result["b"].x <= 50);
}

#[test]
fn test_grid_layout_solve_gap_equals_terminal_width() {
    let mut grid = GridLayout::new();
    grid.add_col(GridSize::Fixed(5))
        .add_col(GridSize::Fixed(5))
        .add_row(GridSize::Fixed(5))
        .with_gap(10);

    grid.place("a", GridArea::cell(0, 0)).unwrap();
    grid.place("b", GridArea::cell(0, 1)).unwrap();

    let result = solve_map(&grid, Size::new(10, 20));

    assert!(result["a"].x <= 10);
    assert!(result["b"].x <= 10);
    assert!(result["a"].x + result["a"].width <= 10);
    assert!(result["b"].x + result["b"].width <= 10);
}

#[test]
fn test_grid_layout_solve_excessive_gap_with_small_terminal() {
    let mut grid = GridLayout::new();
    grid.add_col(GridSize::percent(50))
        .add_col(GridSize::percent(50))
        .add_row(GridSize::Fixed(5))
        .with_gap(5);

    grid.place("a", GridArea::cell(0, 0)).unwrap();
    grid.place("b", GridArea::cell(0, 1)).unwrap();

    let result = solve_map(&grid, Size::new(2, 20));

    assert!(result["a"].x <= 2, "Zone 'a' x position {} exceeds terminal width 2", result["a"].x);
    assert!(result["b"].x <= 2, "Zone 'b' x position {} exceeds terminal width 2", result["b"].x);

    let max_x_a = result["a"].x + result["a"].width;
    let max_x_b = result["b"].x + result["b"].width;
    assert!(max_x_a <= 2, "Zone 'a' right edge {} exceeds terminal width 2", max_x_a);
    assert!(max_x_b <= 2, "Zone 'b' right edge {} exceeds terminal width 2", max_x_b);
}

#[test]
fn test_grid_layout_solve_gap_consumes_all_space() {
    let mut grid = GridLayout::new();
    grid.add_col(GridSize::flex(1))
        .add_col(GridSize::flex(1))
        .add_col(GridSize::flex(1))
        .add_row(GridSize::Fixed(10))
        .with_gap(50);

    grid.place("a", GridArea::cell(0, 0)).unwrap();
    grid.place("b", GridArea::cell(0, 1)).unwrap();
    grid.place("c", GridArea::cell(0, 2)).unwrap();

    let result = solve_map(&grid, Size::new(100, 20));

    for zone in ["a", "b", "c"] {
        let rect = &result[zone];
        assert!(rect.x <= 100, "Zone '{}' x position exceeds terminal", zone);
        assert!(rect.x + rect.width <= 100, "Zone '{}' extends beyond terminal", zone);
    }
}

use room_mvp::{GridArea, GridError, GridLayout, GridSize, LayoutError, SharedStateError, Size};

#[test]
fn grid_error_messages() {
    let oob = GridError::OutOfBounds {
        zone: "test".to_string(),
        row_start: 0,
        row_end: 5,
        row_count: 3,
        col_start: 1,
        col_end: 2,
        col_count: 4,
    };
    assert_eq!(
        oob.message(),
        "Zone 'test' out of bounds: rows 0..5 (grid has 3), cols 1..2 (grid has 4)"
    );
    assert_eq!(
        GridError::DuplicateZone { zone: "z".to_string() }.message(),
        "Zone 'z' already exists in grid"
    );
    assert_eq!(
        GridError::OverlappingAreas { zone1: "a".to_string(), zone2: "b".to_string() }.message(),
        "Zones 'a' and 'b' overlap"
    );
}

#[test]
fn layout_error_messages() {
    assert_eq!(LayoutError::EmptyLayout.message(), "layout tree is empty");
    assert_eq!(LayoutError::ZoneNotFound("z".to_string()).message(), "zone `z` not found");
    assert_eq!(
        LayoutError::TokenRouting("bad".to_string()).message(),
        "token routing failure: bad"
    );
    assert_eq!(
        LayoutError::Backend("io".to_string()).message(),
        "terminal backend error: io"
    );
    let grid: LayoutError = GridError::DuplicateZone { zone: "z".to_string() }.into();
    assert_eq!(grid.message(), "grid layout error: Zone 'z' already exists in grid");
}

#[test]
fn shared_state_error_messages() {
    assert_eq!(SharedStateError::AlreadyExists.message(), "resource already exists");
    assert_eq!(SharedStateError::Missing.message(), "resource missing");
    assert_eq!(SharedStateError::TypeMismatch.message(), "resource type mismatch");
    assert_eq!(SharedStateError::Poisoned.message(), "shared state poisoned");
}

#[test]
fn grid_solvability_check() {
    let mut grid = GridLayout::default();
    grid.add_col(GridSize::Fixed(20)).add_row(GridSize::flex(1));
    grid.place("a", GridArea::cell(0, 0)).unwrap();
    assert!(grid.check_solvable(Size::new(80, 24)));

    let mut wide = GridLayout::new();
    wide.add_col(GridSize::Fixed(40000))
        .add_col(GridSize::Fixed(40000))
        .add_row(GridSize::Fixed(1));
    assert!(!wide.check_solvable(Size::new(80, 24)));
}

#[test]
fn grid_rects_are_cut_at_the_terminal_edge() {
    let mut grid = GridLayout::new();
    grid.add_col(GridSize::percent(1))
        .add_col(GridSize::flex(1))
        .add_col(GridSize::percent(1))
        .add_row(GridSize::Fixed(1));
    grid.place("a", GridArea::cell(0, 0)).unwrap();
    grid.place("b", GridArea::cell(0, 1)).unwrap();
    grid.place("c", GridArea::cell(0, 2)).unwrap();
    let rects = grid.solve(Size::new(3, 1)).unwrap();
    let widths: Vec<(u16, u16)> = rects.iter().map(|(_, r)| (r.x, r.width)).collect();
    assert_eq!(widths, vec![(0, 1), (1, 2), (3, 0)]);
    for (_, rect) in &rects {
        assert!(rect.x + rect.width <= 3);
    }
}

use room_mvp::{GridArea, GridLayout, GridSize, Rect, Size};

fn overlap(a: &Rect, b: &Rect) -> bool {
    a.x < b.x + b.width && b.x < a.x + a.width && a.y < b.y + b.height && b.y < a.y + a.height
}

fn assert_pairwise_disjoint(rects: &[(String, Rect)]) {
    for i in 0..rects.len() {
        for j in 0..rects.len() {
            if i != j {
                assert!(!overlap(&rects[i].1, &rects[j].1), "{} and {} overlap", rects[i].0, rects[j].0);
            }
        }
    }
}

#[test]
fn disjoint_placements_give_disjoint_rects() {
    let mut grid = GridLayout::new();
    grid.add_col(GridSize::Fixed(20))
        .add_col(GridSize::flex(2))
        .add_col(GridSize::flex(1))
        .add_row(GridSize::Fixed(3))
        .add_row(GridSize::flex(1))
        .add_row(GridSize::Fixed(2))
        .with_gap(1);
    grid.place("header", GridArea::span_cols(0, 0..3)).unwrap();
    grid.place("sidebar", GridArea::cell(1, 0)).unwrap();
    grid.place("main", GridArea::cell(1, 1)).unwrap();
    grid.place("aside", GridArea::span_rows(2, 1..3)).unwrap();
    grid.place("footer", GridArea::new(2..3, 0..2)).unwrap();
    for size in [Size::new(100, 30), Size::new(10, 4), Size::new(1, 1), Size::new(0, 0)] {
        let rects = grid.solve(size).unwrap();
        assert_eq!(rects.len(), 5);
        assert_pairwise_disjoint(&rects);
        for (_, r) in &rects {
            assert!(r.x + r.width <= size.width);
            assert!(r.y + r.height <= size.height);
        }
    }
}

#[test]
fn disjoint_placements_with_huge_gap() {
    let mut grid = GridLayout::new();
    grid.add_col(GridSize::percent(50))
        .add_col(GridSize::percent(50))
        .add_row(GridSize::Fixed(5))
        .with_gap(5000);
    grid.place("a", GridArea::cell(0, 0)).unwrap();
    grid.place("b", GridArea::cell(0, 1)).unwrap();
    let rects = grid.solve(Size::new(7, 5)).unwrap();
    assert_pairwise_disjoint(&rects);
}

//! Layout engines that turn a terminal size into zone rectangles.
use vstd::prelude::*;

use crate::error::LayoutError;
use crate::geometry::{Rect, Size};
use crate::layout::grid::{GridLayout, zone_rect};

pub mod grid;

verus! {

/// Zone ids and rectangles read as plain values.
pub open spec fn zones_view(v: Seq<(String, Rect)>) -> Seq<(Seq<char>, Rect)> {
    v.map_values(|p: (String, Rect)| (p.0@, p.1))
}

/// A layout engine: computes zone rectangles for a terminal size.
pub trait Layout {
    /// Sizes on which `solve` can run.
    spec fn can_solve(&self, size: Size) -> bool;

    /// The zones and rectangles solved for `size`.
    spec fn solution(&self, size: Size) -> Seq<(Seq<char>, Rect)>;

    /// Sizes on which `solve` reports an error.
    spec fn fails_on(&self, size: Size) -> bool;

    /// Zone rectangles for a terminal of `size`.
    fn solve(&self, size: Size) -> (r: Result<Vec<(String, Rect)>, LayoutError>)
        requires
            self.can_solve(size),
        ensures
            r is Err <==> self.fails_on(size),
            r matches Ok(v) ==> zones_view(v@) == self.solution(size),
    ;
}

impl Layout for GridLayout {
    open spec fn can_solve(&self, size: Size) -> bool {
        self.solvable(size)
    }

    /// A grid layout never fails where it can be solved.
    open spec fn fails_on(&self, size: Size) -> bool {
        false
    }

    open spec fn solution(&self, size: Size) -> Seq<(Seq<char>, Rect)> {
        Seq::new(
            self.zone_ids().len(),
            |i: int|
                (
                    self.zone_ids()[i],
                    zone_rect(
                        self.col_tracks(),
                        self.row_tracks(),
                        self.gap_cells(),
                        size,
                        self.zone_areas()[i],
                    ),
                ),
        )
    }

    fn solve(&self, size: Size) -> (r: Result<Vec<(String, Rect)>, LayoutError>) {
        match GridLayout::solve(self, size) {
            Ok(v) => {
                assert(zones_view(v@) =~= self.solution(size));
                Ok(v)
            },
            Err(e) => Err(LayoutError::Grid(e)),
        }
    }
}

} // verus!

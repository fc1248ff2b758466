//! Grid layout system: declarative 2D layouts with rows, columns and cell placement.
//!
//! All rows and columns are declared up front; zones are placed on cell ranges and
//! may span several tracks. Space is distributed over `Fixed`, `Flex` and `Percent`
//! tracks, and placement is validated eagerly (bounds, duplicates, overlaps).
use core::ops::Range;
use vstd::prelude::*;

use crate::geometry::{Rect, Size};

verus! {

/// A `u16` that is never zero.
#[derive(Debug, Clone, Copy, PartialEq, Eq)]
pub struct NonZeroU16 {
    value: u16,
}

impl NonZeroU16 {
    #[verifier::type_invariant]
    spec fn nonzero(self) -> bool {
        self.value != 0
    }

    /// The wrapped value.
    pub closed spec fn value(self) -> u16 {
        self.value
    }

    /// `Some` exactly when `n` is not zero.
    pub fn new(n: u16) -> (r: Option<Self>)
        ensures
            r is Some <==> n != 0,
            r matches Some(v) ==> v.value() == n,
    {
        if n == 0 {
            None
        } else {
            Some(NonZeroU16 { value: n })
        }
    }

    pub fn get(&self) -> (r: u16)
        ensures
            r == self.value(),
            r != 0,
    {
        proof {
            use_type_invariant(self);
        }
        self.value
    }
}

/// A `u8` that is never zero.
#[derive(Debug, Clone, Copy, PartialEq, Eq)]
pub struct NonZeroU8 {
    value: u8,
}

impl NonZeroU8 {
    #[verifier::type_invariant]
    spec fn nonzero(self) -> bool {
        self.value != 0
    }

    /// The wrapped value.
    pub closed spec fn value(self) -> u8 {
        self.value
    }

    /// `Some` exactly when `n` is not zero.
    pub fn new(n: u8) -> (r: Option<Self>)
        ensures
            r is Some <==> n != 0,
            r matches Some(v) ==> v.value() == n,
    {
        if n == 0 {
            None
        } else {
            Some(NonZeroU8 { value: n })
        }
    }

    pub fn get(&self) -> (r: u8)
        ensures
            r == self.value(),
            r != 0,
    {
        proof {
            use_type_invariant(self);
        }
        self.value
    }
}

/// Errors raised while placing zones on a grid.
#[derive(Debug, Clone, PartialEq, Eq)]
pub enum GridError {
    OutOfBounds {
        zone: String,
        row_start: usize,
        row_end: usize,
        row_count: usize,
        col_start: usize,
        col_end: usize,
        col_count: usize,
    },
    DuplicateZone { zone: String },
    OverlappingAreas { zone1: String, zone2: String },
}

/// How a column or row is sized.
#[derive(Debug, Clone, Copy, PartialEq, Eq)]
pub enum GridSize {
    /// Fixed size in terminal cells.
    Fixed(u16),
    /// Proportional share of the space left after fixed and percent tracks.
    Flex(NonZeroU16),
    /// Percentage of the space left after fixed tracks; totals above 100 are normalised.
    Percent(NonZeroU8),
}

impl GridSize {
    /// `Flex(n)`; `n` must not be zero.
    pub fn flex(n: u16) -> (r: Self)
        requires
            n != 0,
        ensures
            r matches GridSize::Flex(f) && f.value() == n,
    {
        GridSize::Flex(NonZeroU16 { value: n })
    }

    /// `Percent(n)`; `n` must lie in 1..=100.
    pub fn percent(n: u8) -> (r: Self)
        requires
            0 < n <= 100,
        ensures
            r matches GridSize::Percent(p) && p.value() == n,
    {
        GridSize::Percent(NonZeroU8 { value: n })
    }
}

/// The placement of a zone: half-open ranges of rows and columns.
#[derive(Debug, PartialEq, Eq)]
pub struct GridArea {
    pub rows: Range<usize>,
    pub cols: Range<usize>,
}

impl Clone for GridArea {
    fn clone(&self) -> (r: Self)
        ensures
            r == *self,
    {
        GridArea {
            rows: self.rows.start..self.rows.end,
            cols: self.cols.start..self.cols.end,
        }
    }
}

/// Two half-open ranges share at least one index.
pub open spec fn ranges_intersect(a: Range<usize>, b: Range<usize>) -> bool {
    a.start < b.end && b.start < a.end
}

/// Two areas share at least one cell.
pub open spec fn areas_overlap(a: GridArea, b: GridArea) -> bool {
    ranges_intersect(a.rows, b.rows) && ranges_intersect(a.cols, b.cols)
}

/// The area ends inside a grid of `row_count` rows and `col_count` columns.
pub open spec fn area_in_bounds(a: GridArea, row_count: int, col_count: int) -> bool {
    a.rows.end <= row_count && a.cols.end <= col_count
}

impl GridArea {
    pub fn new(rows: Range<usize>, cols: Range<usize>) -> (r: Self)
        ensures
            r.rows == rows,
            r.cols == cols,
    {
        GridArea { rows, cols }
    }

    /// The single cell at (`row`, `col`).
    pub fn cell(row: usize, col: usize) -> (r: Self)
        requires
            row < usize::MAX,
            col < usize::MAX,
        ensures
            r.rows.start == row && r.rows.end == row + 1,
            r.cols.start == col && r.cols.end == col + 1,
    {
        GridArea { rows: row..row + 1, cols: col..col + 1 }
    }

    /// The rows `rows` of column `col`.
    pub fn span_rows(col: usize, rows: Range<usize>) -> (r: Self)
        requires
            col < usize::MAX,
        ensures
            r.rows == rows,
            r.cols.start == col && r.cols.end == col + 1,
    {
        GridArea { rows, cols: col..col + 1 }
    }

    /// The columns `cols` of row `row`.
    pub fn span_cols(row: usize, cols: Range<usize>) -> (r: Self)
        requires
            row < usize::MAX,
        ensures
            r.rows.start == row && r.rows.end == row + 1,
            r.cols == cols,
    {
        GridArea { rows: row..row + 1, cols }
    }

    /// Accepts the area when it ends inside the grid, else reports `OutOfBounds` for `zone`.
    pub fn validate(self, zone: &String, row_count: usize, col_count: usize) -> (r: Result<
        Self,
        GridError,
    >)
        ensures
            area_in_bounds(self, row_count as int, col_count as int) ==> r == Ok::<
                GridArea,
                GridError,
            >(self),
            !area_in_bounds(self, row_count as int, col_count as int) ==> (r matches Err(
                GridError::OutOfBounds {
                    zone: z,
                    row_start,
                    row_end,
                    row_count: rc,
                    col_start,
                    col_end,
                    col_count: cc,
                },
            ) && z@ == zone@ && row_start == self.rows.start && row_end == self.rows.end && rc
                == row_count && col_start == self.cols.start && col_end == self.cols.end && cc
                == col_count),
    {
        if self.rows.end > row_count || self.cols.end > col_count {
            return Err(
                GridError::OutOfBounds {
                    zone: zone.clone(),
                    row_start: self.rows.start,
                    row_end: self.rows.end,
                    row_count,
                    col_start: self.cols.start,
                    col_end: self.cols.end,
                    col_count,
                },
            );
        }
        Ok(self)
    }

    /// Whether the two areas share a cell.
    pub fn overlaps(&self, other: &GridArea) -> (r: bool)
        ensures
            r == areas_overlap(*self, *other),
    {
        let rows_overlap = self.rows.start < other.rows.end && other.rows.start < self.rows.end;
        let cols_overlap = self.cols.start < other.cols.end && other.cols.start < self.cols.end;
        rows_overlap && cols_overlap
    }
}


/// A cell count saturated at `u16::MAX`.
pub open spec fn clamp_cells(v: int) -> int {
    if v > u16::MAX {
        u16::MAX as int
    } else {
        v
    }
}

/// `a - b`, or zero when `b` exceeds `a`.
pub open spec fn minus_floor(a: int, b: int) -> int {
    if a > b {
        a - b
    } else {
        0
    }
}

/// Cells a track claims outright: its size when it is fixed.
pub open spec fn fixed_cells(t: GridSize) -> int {
    match t {
        GridSize::Fixed(s) => s as int,
        _ => 0,
    }
}

/// The percentage a track asks for, zero for other tracks.
pub open spec fn percent_of(t: GridSize) -> int {
    match t {
        GridSize::Percent(p) => p.value() as int,
        _ => 0,
    }
}

/// The flex units of a track, zero for other tracks.
pub open spec fn flex_of(t: GridSize) -> int {
    match t {
        GridSize::Flex(f) => f.value() as int,
        _ => 0,
    }
}

/// Fixed size of each track, as a measure.
pub open spec fn fixed_measure() -> spec_fn(GridSize) -> int {
    |t: GridSize| fixed_cells(t)
}

/// Requested percentage of each track, as a measure.
pub open spec fn percent_measure() -> spec_fn(GridSize) -> int {
    |t: GridSize| percent_of(t)
}

/// Flex units of each track, as a measure.
pub open spec fn flex_measure() -> spec_fn(GridSize) -> int {
    |t: GridSize| flex_of(t)
}

/// Percent share of each track out of `space`, as a measure.
pub open spec fn percent_cells_measure(space: int, percent_total: int) -> spec_fn(GridSize) -> int {
    |t: GridSize| percent_cells(t, space, percent_total)
}

/// Sum of `f` over the tracks.
pub open spec fn sum_of(tracks: Seq<GridSize>, f: spec_fn(GridSize) -> int) -> int
    decreases tracks.len(),
{
    if tracks.len() == 0 {
        0
    } else {
        sum_of(tracks.drop_last(), f) + f(tracks.last())
    }
}

/// Sum of a sequence of integers.
pub open spec fn seq_sum(s: Seq<int>) -> int
    decreases s.len(),
{
    if s.len() == 0 {
        0
    } else {
        seq_sum(s.drop_last()) + s.last()
    }
}

/// A vector of cell counts read as integers.
pub open spec fn as_cells(v: Seq<u16>) -> Seq<int> {
    v.map_values(|x: u16| x as int)
}

/// Cells taken by the gaps between `n >= 1` tracks (the track count minus one is
/// truncated to 16 bits, the product saturates).
pub open spec fn gaps_total(n: int, gap: u16) -> int {
    clamp_cells(gap * (((n - 1) as u16) as int))
}

/// Cells left for the tracks once the gaps are taken out of `total`.
pub open spec fn axis_available(tracks: Seq<GridSize>, total: u16, gap: u16) -> int {
    let tg = gaps_total(tracks.len() as int, gap);
    if tg >= total {
        0
    } else {
        total - tg
    }
}

/// Sum of the fixed sizes, saturated.
pub open spec fn axis_fixed(tracks: Seq<GridSize>) -> int {
    clamp_cells(sum_of(tracks, fixed_measure()))
}

/// Sum of the requested percentages.
pub open spec fn axis_percent_total(tracks: Seq<GridSize>) -> int {
    sum_of(tracks, percent_measure())
}

/// Sum of the flex units.
pub open spec fn axis_flex_total(tracks: Seq<GridSize>) -> int {
    sum_of(tracks, flex_measure())
}

/// Space left once the fixed tracks are served.
pub open spec fn axis_after_fixed(tracks: Seq<GridSize>, total: u16, gap: u16) -> int {
    minus_floor(axis_available(tracks, total, gap), axis_fixed(tracks))
}

/// The share (out of 100) a percentage receives; totals above 100 are scaled down.
pub open spec fn percent_weight(p: int, percent_total: int) -> int {
    if percent_total > 100 {
        p * 100 / percent_total
    } else {
        p
    }
}

/// Cells a percent track receives out of `space`.
pub open spec fn percent_cells(t: GridSize, space: int, percent_total: int) -> int {
    space * percent_weight(percent_of(t), percent_total) / 100
}

/// Cells taken by all percent tracks together, saturated.
pub open spec fn axis_percent_used(tracks: Seq<GridSize>, total: u16, gap: u16) -> int {
    let space = axis_after_fixed(tracks, total, gap);
    let pt = axis_percent_total(tracks);
    clamp_cells(sum_of(tracks, percent_cells_measure(space, pt)))
}

/// Space shared out among the flex tracks.
pub open spec fn axis_flex_pool(tracks: Seq<GridSize>, total: u16, gap: u16) -> int {
    minus_floor(axis_after_fixed(tracks, total, gap), axis_percent_used(tracks, total, gap))
}

/// First allotment of one track: fixed size, percent share, or flex share (rounded down).
pub open spec fn base_cells(t: GridSize, space: int, percent_total: int, pool: int, flex_total: int) -> int {
    match t {
        GridSize::Fixed(s) => s as int,
        GridSize::Percent(_) => percent_cells(t, space, percent_total),
        GridSize::Flex(f) => if flex_total > 0 {
            pool * (f.value() as int) / flex_total
        } else {
            0
        },
    }
}

/// First allotment of every track.
pub open spec fn axis_base(tracks: Seq<GridSize>, total: u16, gap: u16) -> Seq<int> {
    let space = axis_after_fixed(tracks, total, gap);
    let pt = axis_percent_total(tracks);
    let pool = axis_flex_pool(tracks, total, gap);
    let ft = axis_flex_total(tracks);
    Seq::new(tracks.len(), |i: int| base_cells(tracks[i], space, pt, pool, ft))
}

/// Tracks `0..i` visited in order: each track holding zero cells gets one while the
/// budget lasts. Gives the sizes and the budget left.
pub open spec fn min_pass(s: Seq<int>, budget: int, i: nat) -> (Seq<int>, int)
    decreases i,
{
    if i == 0 {
        (s, budget)
    } else {
        let prev = min_pass(s, budget, (i - 1) as nat);
        if prev.0[i - 1] == 0 && prev.1 > 0 {
            (prev.0.update(i - 1, 1), prev.1 - 1)
        } else {
            prev
        }
    }
}

/// Track kind selected by a growth pass.
pub open spec fn track_is(t: GridSize, flex: bool) -> bool {
    if flex {
        t is Flex
    } else {
        t is Percent
    }
}

/// Tracks `0..i` visited in order: each track of the selected kind gets one more cell
/// (saturated) while `left` lasts. Gives the sizes and the cells still left.
pub open spec fn grow_pass(s: Seq<int>, tracks: Seq<GridSize>, left: int, flex: bool, i: nat) -> (
    Seq<int>,
    int,
)
    decreases i,
{
    if i == 0 {
        (s, left)
    } else {
        let prev = grow_pass(s, tracks, left, flex, (i - 1) as nat);
        if prev.1 > 0 && track_is(tracks[i - 1], flex) {
            (prev.0.update(i - 1, clamp_cells(prev.0[i - 1] + 1)), prev.1 - 1)
        } else {
            prev
        }
    }
}

/// Sizes after the one-cell minimum for empty tracks.
pub open spec fn axis_floored(tracks: Seq<GridSize>, total: u16, gap: u16) -> Seq<int> {
    min_pass(axis_base(tracks, total, gap), axis_available(tracks, total, gap), tracks.len()).0
}

/// Cells still unassigned after the minimum pass.
pub open spec fn axis_leftover(tracks: Seq<GridSize>, total: u16, gap: u16) -> int {
    minus_floor(axis_available(tracks, total, gap), seq_sum(axis_floored(tracks, total, gap)))
}

/// Final track sizes: leftover cells go one each to flex tracks, then to percent tracks.
pub open spec fn axis_sizes(tracks: Seq<GridSize>, total: u16, gap: u16) -> Seq<int> {
    let n = tracks.len();
    let after_flex = grow_pass(
        axis_floored(tracks, total, gap),
        tracks,
        axis_leftover(tracks, total, gap),
        true,
        n,
    );
    grow_pass(after_flex.0, tracks, after_flex.1, false, n).0
}

/// Next track offset: add the track, then the gap (cut to the space left) unless the
/// track is the last one; never past `total`.
pub open spec fn offset_step(c: int, size: int, last: bool, total: int, gap: int) -> int {
    let c1 = clamp_cells(c + size);
    let c2 = if !last && c1 < total {
        clamp_cells(c1 + (if gap < total - c1 {
            gap
        } else {
            total - c1
        }))
    } else {
        c1
    };
    if c2 < total {
        c2
    } else {
        total
    }
}

/// Offset after the first `i` tracks of `sizes`.
pub open spec fn cumulative(sizes: Seq<int>, total: int, gap: int, i: nat) -> int
    decreases i,
{
    if i == 0 {
        0
    } else {
        offset_step(
            cumulative(sizes, total, gap, (i - 1) as nat),
            sizes[i - 1],
            i - 1 == sizes.len() - 1,
            total,
            gap,
        )
    }
}

/// Start offset of every track, followed by the end offset of the last one.
pub open spec fn axis_offsets(tracks: Seq<GridSize>, total: u16, gap: u16) -> Seq<int> {
    let sizes = axis_sizes(tracks, total, gap);
    Seq::new(tracks.len() + 1, |i: int| cumulative(sizes, total as int, gap as int, i as nat))
}

/// Inputs on which the axis solver runs without arithmetic overflow.
pub open spec fn axis_solvable(tracks: Seq<GridSize>, total: u16, gap: u16) -> bool {
    &&& tracks.len() < usize::MAX
    &&& axis_percent_total(tracks) <= u32::MAX
    &&& axis_flex_total(tracks) <= u32::MAX
    &&& (tracks.len() > 0 ==> seq_sum(axis_floored(tracks, total, gap)) <= u16::MAX)
}

/// The minimum pass keeps the number of tracks.
pub proof fn lemma_min_pass_len(s: Seq<int>, budget: int, i: nat)
    requires
        i <= s.len(),
    ensures
        min_pass(s, budget, i).0.len() == s.len(),
    decreases i,
{
    if i > 0 {
        lemma_min_pass_len(s, budget, (i - 1) as nat);
    }
}

/// A growth pass keeps the number of tracks.
pub proof fn lemma_grow_pass_len(s: Seq<int>, tracks: Seq<GridSize>, left: int, flex: bool, i: nat)
    requires
        i <= s.len(),
    ensures
        grow_pass(s, tracks, left, flex, i).0.len() == s.len(),
    decreases i,
{
    if i > 0 {
        lemma_grow_pass_len(s, tracks, left, flex, (i - 1) as nat);
    }
}

/// Prefix sums of a non-negative measure never exceed the whole sum.
pub proof fn lemma_sum_of_prefix(tracks: Seq<GridSize>, f: spec_fn(GridSize) -> int, i: int)
    requires
        0 <= i <= tracks.len(),
        forall|t: GridSize| #[trigger] f(t) >= 0,
    ensures
        0 <= sum_of(tracks.take(i), f) <= sum_of(tracks, f),
    decreases tracks.len(),
{
    if tracks.len() > 0 {
        if i == tracks.len() {
            assert(tracks.take(i) == tracks);
            lemma_sum_of_prefix(tracks.drop_last(), f, i - 1);
            assert(tracks.drop_last().take(i - 1) == tracks.drop_last().take(tracks.len() - 1));
        } else {
            assert(tracks.take(i) == tracks.drop_last().take(i));
            lemma_sum_of_prefix(tracks.drop_last(), f, i);
        }
    }
}

/// One track's measure never exceeds the sum over all tracks.
pub proof fn lemma_sum_of_member(tracks: Seq<GridSize>, f: spec_fn(GridSize) -> int, i: int)
    requires
        0 <= i < tracks.len(),
        forall|t: GridSize| #[trigger] f(t) >= 0,
    ensures
        f(tracks[i]) <= sum_of(tracks, f),
    decreases tracks.len(),
{
    lemma_sum_of_prefix(tracks.drop_last(), f, tracks.len() - 1);
    assert(tracks.drop_last().take(tracks.len() - 1) == tracks.drop_last());
    if i < tracks.len() - 1 {
        lemma_sum_of_member(tracks.drop_last(), f, i);
    }
}

/// Extending a prefix by one track adds that track's measure.
pub proof fn lemma_sum_of_step(tracks: Seq<GridSize>, f: spec_fn(GridSize) -> int, i: int)
    requires
        0 <= i < tracks.len(),
    ensures
        sum_of(tracks.take(i + 1), f) == sum_of(tracks.take(i), f) + f(tracks[i]),
{
    assert(tracks.take(i + 1).drop_last() == tracks.take(i));
}

/// Prefix sums of non-negative integers never exceed the whole sum.
pub proof fn lemma_seq_sum_prefix(s: Seq<int>, i: int)
    requires
        0 <= i <= s.len(),
        forall|j: int| 0 <= j < s.len() ==> s[j] >= 0,
    ensures
        0 <= seq_sum(s.take(i)) <= seq_sum(s),
    decreases s.len(),
{
    if s.len() > 0 {
        if i == s.len() {
            assert(s.take(i) == s);
            lemma_seq_sum_prefix(s.drop_last(), i - 1);
            assert(s.drop_last().take(i - 1) == s.drop_last());
        } else {
            assert(s.take(i) == s.drop_last().take(i));
            lemma_seq_sum_prefix(s.drop_last(), i);
        }
    }
}

/// Extending a prefix by one element adds that element.
pub proof fn lemma_seq_sum_step(s: Seq<int>, i: int)
    requires
        0 <= i < s.len(),
    ensures
        seq_sum(s.take(i + 1)) == seq_sum(s.take(i)) + s[i],
{
    assert(s.take(i + 1).drop_last() == s.take(i));
}

/// Saturating product of two cell counts.
fn mul_cells(a: u16, b: u16) -> (r: u16)
    ensures
        r == clamp_cells(a * b),
{
    assert(a * b <= 65535 * 65535) by (nonlinear_arith)
        requires
            a <= 65535,
            b <= 65535,
    ;
    let p: u32 = (a as u32) * (b as u32);
    if p > 65535 {
        65535
    } else {
        p as u16
    }
}

/// Saturated sum of the fixed track sizes.
fn fixed_total(tracks: &Vec<GridSize>) -> (r: u16)
    ensures
        r == axis_fixed(tracks@),
{
    let n = tracks.len();
    let mut sum: u16 = 0;
    let mut i: usize = 0;
    while i < n
        invariant
            n == tracks.len(),
            i <= n,
            sum == clamp_cells(sum_of(tracks@.take(i as int), fixed_measure())),
        decreases n - i,
    {
        proof {
            lemma_sum_of_step(tracks@, fixed_measure(), i as int);
            lemma_sum_of_prefix(tracks@, fixed_measure(), i as int);
        }
        match tracks[i] {
            GridSize::Fixed(size) => {
                sum = sum.saturating_add(size);
            },
            _ => {},
        }
        i += 1;
    }
    assert(tracks@.take(n as int) == tracks@);
    sum
}

/// Sum of the requested percentages.
fn percent_total(tracks: &Vec<GridSize>) -> (r: u32)
    requires
        axis_percent_total(tracks@) <= u32::MAX,
    ensures
        r == axis_percent_total(tracks@),
{
    let n = tracks.len();
    let mut sum: u32 = 0;
    let mut i: usize = 0;
    while i < n
        invariant
            n == tracks.len(),
            i <= n,
            sum == sum_of(tracks@.take(i as int), percent_measure()),
            sum_of(tracks@, percent_measure()) <= u32::MAX,
        decreases n - i,
    {
        proof {
            lemma_sum_of_step(tracks@, percent_measure(), i as int);
            lemma_sum_of_prefix(tracks@, percent_measure(), i as int + 1);
        }
        match tracks[i] {
            GridSize::Percent(p) => {
                sum = sum + p.get() as u32;
            },
            _ => {},
        }
        i += 1;
    }
    assert(tracks@.take(n as int) == tracks@);
    sum
}

/// Sum of the flex units.
fn flex_total(tracks: &Vec<GridSize>) -> (r: u32)
    requires
        axis_flex_total(tracks@) <= u32::MAX,
    ensures
        r == axis_flex_total(tracks@),
{
    let n = tracks.len();
    let mut sum: u32 = 0;
    let mut i: usize = 0;
    while i < n
        invariant
            n == tracks.len(),
            i <= n,
            sum == sum_of(tracks@.take(i as int), flex_measure()),
            sum_of(tracks@, flex_measure()) <= u32::MAX,
        decreases n - i,
    {
        proof {
            lemma_sum_of_step(tracks@, flex_measure(), i as int);
            lemma_sum_of_prefix(tracks@, flex_measure(), i as int + 1);
        }
        match tracks[i] {
            GridSize::Flex(f) => {
                sum = sum + f.get() as u32;
            },
            _ => {},
        }
        i += 1;
    }
    assert(tracks@.take(n as int) == tracks@);
    sum
}

/// The weight of a percentage never exceeds 100 when it is part of the total.
proof fn lemma_weight_bounded(p: int, pt: int)
    requires
        0 <= p <= pt,
    ensures
        0 <= percent_weight(p, pt) <= 100,
{
    if pt > 100 {
        assert(p * 100 / pt <= 100) by (nonlinear_arith)
            requires
                0 <= p <= pt,
                pt > 100,
        ;
        assert(p * 100 / pt >= 0) by (nonlinear_arith)
            requires
                0 <= p,
                pt > 100,
        ;
    }
}

/// A share out of 100 of `space` never exceeds `space`.
proof fn lemma_share_bounded(space: int, w: int)
    requires
        0 <= space,
        0 <= w <= 100,
    ensures
        0 <= space * w / 100 <= space,
{
    assert(0 <= space * w / 100 <= space) by (nonlinear_arith)
        requires
            0 <= space,
            0 <= w <= 100,
    ;
}

/// Percent shares are never negative.
proof fn lemma_percent_cells_nonneg(space: int, pt: int)
    requires
        0 <= space,
        0 <= pt,
    ensures
        forall|t: GridSize| #[trigger] percent_cells_measure(space, pt)(t) >= 0,
{
    assert forall|t: GridSize| #[trigger] percent_cells_measure(space, pt)(t) >= 0 by {
        let p = percent_of(t);
        let w = percent_weight(p, pt);
        if pt > 100 {
            assert(p * 100 / pt >= 0) by (nonlinear_arith)
                requires
                    0 <= p,
                    pt > 100,
            ;
        }
        assert(space * w / 100 >= 0) by (nonlinear_arith)
            requires
                0 <= space,
                0 <= w,
        ;
    }
}

/// The share (out of 100) a percentage receives.
fn weight_of(p: u8, pt: u32) -> (r: u32)
    requires
        p <= pt,
    ensures
        r == percent_weight(p as int, pt as int),
        r <= 100,
{
    proof {
        lemma_weight_bounded(p as int, pt as int);
    }
    if pt > 100 {
        (p as u32 * 100) / pt
    } else {
        p as u32
    }
}

/// Saturated sum of the percent shares of `space`.
fn percent_used(tracks: &Vec<GridSize>, space: u16, pt: u32) -> (r: u16)
    requires
        pt == axis_percent_total(tracks@),
    ensures
        r == clamp_cells(sum_of(tracks@, percent_cells_measure(space as int, pt as int))),
{
    let n = tracks.len();
    let ghost f = percent_cells_measure(space as int, pt as int);
    proof {
        lemma_percent_cells_nonneg(space as int, pt as int);
    }
    let mut used: u16 = 0;
    let mut i: usize = 0;
    while i < n
        invariant
            n == tracks.len(),
            i <= n,
            pt == axis_percent_total(tracks@),
            f == percent_cells_measure(space as int, pt as int),
            forall|t: GridSize| #[trigger] f(t) >= 0,
            used == clamp_cells(sum_of(tracks@.take(i as int), f)),
        decreases n - i,
    {
        proof {
            lemma_sum_of_step(tracks@, f, i as int);
            lemma_sum_of_prefix(tracks@, f, i as int);
        }
        match tracks[i] {
            GridSize::Percent(p) => {
                proof {
                    lemma_sum_of_member(tracks@, percent_measure(), i as int);
                }
                let w = weight_of(p.get(), pt);
                proof {
                    lemma_share_bounded(space as int, w as int);
                }
                let size = ((space as u32 * w) / 100) as u16;
                used = used.saturating_add(size);
            },
            _ => {
                assert(f(tracks@[i as int]) == 0);
            },
        }
        i += 1;
    }
    assert(tracks@.take(n as int) == tracks@);
    used
}

/// First allotment of every track.
fn base_sizes(tracks: &Vec<GridSize>, space: u16, pt: u32, pool: u16, ft: u32) -> (r: Vec<u16>)
    requires
        pt == axis_percent_total(tracks@),
        ft == axis_flex_total(tracks@),
    ensures
        as_cells(r@) == Seq::new(
            tracks@.len(),
            |i: int| base_cells(tracks@[i], space as int, pt as int, pool as int, ft as int),
        ),
{
    let n = tracks.len();
    let mut sizes: Vec<u16> = Vec::new();
    let mut i: usize = 0;
    while i < n
        invariant
            n == tracks.len(),
            i <= n,
            pt == axis_percent_total(tracks@),
            ft == axis_flex_total(tracks@),
            sizes.len() == i,
            forall|j: int|
                0 <= j < i ==> sizes@[j] as int == base_cells(
                    #[trigger] tracks@[j],
                    space as int,
                    pt as int,
                    pool as int,
                    ft as int,
                ),
        decreases n - i,
    {
        let size: u16 = match tracks[i] {
            GridSize::Fixed(s) => s,
            GridSize::Percent(p) => {
                proof {
                    lemma_sum_of_member(tracks@, percent_measure(), i as int);
                }
                let w = weight_of(p.get(), pt);
                proof {
                    lemma_share_bounded(space as int, w as int);
                }
                ((space as u32 * w) / 100) as u16
            },
            GridSize::Flex(f) => {
                if ft > 0 {
                    proof {
                        lemma_sum_of_member(tracks@, flex_measure(), i as int);
                    }
                    let fv = f.get();
                    assert(pool * fv <= 65535 * 65535) by (nonlinear_arith)
                        requires
                            pool <= 65535,
                            fv <= 65535,
                    ;
                    assert((pool * fv) / (ft as int) <= pool) by (nonlinear_arith)
                        requires
                            0 <= fv <= ft,
                            ft > 0,
                            0 <= pool,
                    ;
                    ((pool as u32 * fv as u32) / ft) as u16
                } else {
                    0
                }
            },
        };
        sizes.push(size);
        i += 1;
    }
    assert(as_cells(sizes@) =~= Seq::new(
        tracks@.len(),
        |i: int| base_cells(tracks@[i], space as int, pt as int, pool as int, ft as int),
    ));
    sizes
}

/// Gives one cell to each empty track, in order, while `budget` lasts.
fn apply_minimum(sizes: &mut Vec<u16>, budget: u16)
    ensures
        as_cells(final(sizes)@) == min_pass(
            as_cells(old(sizes)@),
            budget as int,
            old(sizes)@.len(),
        ).0,
{
    let n = sizes.len();
    let ghost start = as_cells(sizes@);
    let mut left = budget;
    let mut i: usize = 0;
    while i < n
        invariant
            n == sizes.len(),
            n == start.len(),
            i <= n,
            (as_cells(sizes@), left as int) == min_pass(start, budget as int, i as nat),
        decreases n - i,
    {
        if sizes[i] == 0 && left > 0 {
            let ghost before = sizes@;
            sizes.set(i, 1);
            assert(as_cells(sizes@) =~= as_cells(before).update(i as int, 1));
            left = left - 1;
        }
        i += 1;
    }
}

/// Sum of the track sizes.
fn cells_sum(sizes: &Vec<u16>) -> (r: u16)
    requires
        seq_sum(as_cells(sizes@)) <= u16::MAX,
    ensures
        r == seq_sum(as_cells(sizes@)),
{
    let n = sizes.len();
    let ghost s = as_cells(sizes@);
    let mut sum: u16 = 0;
    let mut i: usize = 0;
    while i < n
        invariant
            n == sizes.len(),
            s == as_cells(sizes@),
            seq_sum(s) <= u16::MAX,
            i <= n,
            sum == seq_sum(s.take(i as int)),
        decreases n - i,
    {
        proof {
            lemma_seq_sum_step(s, i as int);
            lemma_seq_sum_prefix(s, i as int + 1);
        }
        sum = sum + sizes[i];
        i += 1;
    }
    assert(s.take(n as int) == s);
    sum
}

/// Gives one more cell to each track of the selected kind, in order, while `left`
/// lasts; returns the cells still left.
fn grow_tracks(sizes: &mut Vec<u16>, tracks: &Vec<GridSize>, left: u16, flex: bool) -> (r: u16)
    requires
        old(sizes).len() == tracks.len(),
    ensures
        (as_cells(final(sizes)@), r as int) == grow_pass(
            as_cells(old(sizes)@),
            tracks@,
            left as int,
            flex,
            tracks@.len(),
        ),
{
    let n = sizes.len();
    let ghost start = as_cells(sizes@);
    let mut remaining = left;
    let mut i: usize = 0;
    while i < n
        invariant
            n == sizes.len(),
            n == tracks.len(),
            n == start.len(),
            i <= n,
            (as_cells(sizes@), remaining as int) == grow_pass(
                start,
                tracks@,
                left as int,
                flex,
                i as nat,
            ),
        decreases n - i,
    {
        let selected = match tracks[i] {
            GridSize::Flex(_) => flex,
            GridSize::Percent(_) => !flex,
            GridSize::Fixed(_) => false,
        };
        if remaining > 0 && selected {
            let ghost before = sizes@;
            let grown = sizes[i].saturating_add(1);
            sizes.set(i, grown);
            assert(as_cells(sizes@) =~= as_cells(before).update(
                i as int,
                clamp_cells(as_cells(before)[i as int] + 1),
            ));
            remaining = remaining - 1;
        }
        i += 1;
    }
    remaining
}

/// Start offset of every track followed by the end offset of the last one.
fn track_offsets(sizes: &Vec<u16>, total: u16, gap: u16) -> (r: Vec<u16>)
    requires
        sizes.len() < usize::MAX,
    ensures
        as_cells(r@) == Seq::new(
            sizes@.len() + 1,
            |i: int| cumulative(as_cells(sizes@), total as int, gap as int, i as nat),
        ),
        forall|j: int| 0 <= j < r@.len() ==> r@[j] <= total,
{
    let n = sizes.len();
    let ghost s = as_cells(sizes@);
    let mut offsets: Vec<u16> = Vec::new();
    let mut c: u16 = 0;
    offsets.push(c);
    let mut i: usize = 0;
    while i < n
        invariant
            n == sizes.len(),
            s == as_cells(sizes@),
            i <= n,
            offsets.len() == i + 1,
            c == cumulative(s, total as int, gap as int, i as nat),
            c <= total,
            forall|j: int| 0 <= j <= i ==> offsets@[j] <= total,
            forall|j: int|
                0 <= j <= i ==> offsets@[j] as int == #[trigger] cumulative(
                    s,
                    total as int,
                    gap as int,
                    j as nat,
                ),
        decreases n - i,
    {
        c = c.saturating_add(sizes[i]);
        if i < n - 1 && c < total {
            let rest = total - c;
            let gap_to_add = if gap < rest {
                gap
            } else {
                rest
            };
            c = c.saturating_add(gap_to_add);
        }
        if c > total {
            c = total;
        }
        offsets.push(c);
        i += 1;
    }
    assert(as_cells(offsets@) =~= Seq::new(
        s.len() + 1,
        |i: int| cumulative(s, total as int, gap as int, i as nat),
    ));
    offsets
}

/// Cells read back from their 16-bit values.
proof fn lemma_as_cells_index(v: Seq<u16>)
    ensures
        as_cells(v).len() == v.len(),
        forall|i: int| 0 <= i < v.len() ==> #[trigger] v[i] as int == as_cells(v)[i],
{
}

/// Offsets (one more than the tracks) and sizes of the tracks along one axis of
/// `total` cells. Offsets start at zero, never decrease and stay within `total`; a
/// non-empty fixed track gets exactly its size; when the space left after the gaps
/// holds one cell per track, no track is empty.
pub fn solve_axis(tracks: &Vec<GridSize>, total: u16, gap: u16) -> (r: (Vec<u16>, Vec<u16>))
    requires
        axis_solvable(tracks@, total, gap),
    ensures
        as_cells(r.0@) == axis_offsets(tracks@, total, gap),
        as_cells(r.1@) == axis_sizes(tracks@, total, gap),
        forall|j: int| 0 <= j < r.0@.len() ==> r.0@[j] <= total,
        r.0@.len() == tracks@.len() + 1,
        r.1@.len() == tracks@.len(),
        r.0@[0] == 0,
        forall|i: int, j: int| 0 <= i <= j < r.0@.len() ==> r.0@[i] <= r.0@[j],
        forall|i: int|
            0 <= i < tracks@.len() && #[trigger] tracks@[i] is Fixed && fixed_cells(tracks@[i]) > 0
                ==> r.1@[i] == fixed_cells(tracks@[i]),
        axis_available(tracks@, total, gap) >= tracks@.len() ==> forall|i: int|
            0 <= i < r.1@.len() ==> #[trigger] r.1@[i] >= 1,
{
    proof {
        lemma_axis_lengths(tracks@, total, gap);
        lemma_offsets_ordered(tracks@, total, gap);
        assert forall|i: int|
            0 <= i < tracks@.len() && #[trigger] tracks@[i] is Fixed && fixed_cells(tracks@[i]) > 0
                implies axis_sizes(tracks@, total, gap)[i] == fixed_cells(tracks@[i]) by {
            lemma_fixed_tracks_keep_size(tracks@, total, gap, i);
        }
        if axis_available(tracks@, total, gap) >= tracks@.len() {
            lemma_no_empty_tracks(tracks@, total, gap);
        }
    }
    let n = tracks.len();
    if n == 0 {
        let mut offsets: Vec<u16> = Vec::new();
        offsets.push(0);
        let sizes: Vec<u16> = Vec::new();
        assert(as_cells(offsets@) =~= axis_offsets(tracks@, total, gap));
        assert(as_cells(sizes@) =~= axis_sizes(tracks@, total, gap));
        proof {
            lemma_as_cells_index(offsets@);
            lemma_as_cells_index(sizes@);
        }
        return (offsets, sizes);
    }
    let total_gap = mul_cells(gap, #[verifier::truncate] ((n - 1) as u16));
    let available: u16 = if total_gap >= total {
        0
    } else {
        total - total_gap
    };
    let fixed_sum = fixed_total(tracks);
    let space = available.saturating_sub(fixed_sum);
    let pt = percent_total(tracks);
    let used = percent_used(tracks, space, pt);
    let pool = space.saturating_sub(used);
    let ft = flex_total(tracks);
    let mut sizes = base_sizes(tracks, space, pt, pool, ft);
    assert(as_cells(sizes@) == axis_base(tracks@, total, gap));
    let ghost base = as_cells(sizes@);
    apply_minimum(&mut sizes, available);
    proof {
        lemma_min_pass_len(base, available as int, n as nat);
    }
    assert(as_cells(sizes@) == axis_floored(tracks@, total, gap));
    let assigned = cells_sum(&sizes);
    let leftover = available.saturating_sub(assigned);
    let ghost floored = as_cells(sizes@);
    let left = grow_tracks(&mut sizes, tracks, leftover, true);
    proof {
        lemma_grow_pass_len(floored, tracks@, leftover as int, true, n as nat);
    }
    let ghost after_flex = as_cells(sizes@);
    let _ = grow_tracks(&mut sizes, tracks, left, false);
    proof {
        lemma_grow_pass_len(after_flex, tracks@, left as int, false, n as nat);
    }
    assert(as_cells(sizes@) == axis_sizes(tracks@, total, gap));
    let offsets = track_offsets(&sizes, total, gap);
    assert(as_cells(offsets@) =~= axis_offsets(tracks@, total, gap));
    proof {
        lemma_as_cells_index(offsets@);
        lemma_as_cells_index(sizes@);
    }
    (offsets, sizes)
}

/// Cells spanned by `range` of tracks sized `sizes`, gaps between them included (the
/// gap count is truncated to 16 bits and the gap total saturates).
pub open spec fn span_cells(sizes: Seq<int>, range: Range<usize>, gap: u16) -> int {
    seq_sum(sizes.subrange(range.start as int, range.end as int)) + clamp_cells(
        gap * ((minus_floor(range.end - range.start, 1) as u16) as int),
    )
}

/// The smaller of two integers.
pub open spec fn min_int(a: int, b: int) -> int {
    if a < b {
        a
    } else {
        b
    }
}

/// The rectangle solved for `area` on a terminal of `size`: the offsets of its first
/// column and row, and its spans cut to the space left on the terminal.
pub open spec fn zone_rect(
    cols: Seq<GridSize>,
    rows: Seq<GridSize>,
    gap: u16,
    size: Size,
    area: GridArea,
) -> Rect {
    let x = axis_offsets(cols, size.width, gap)[area.cols.start as int];
    let y = axis_offsets(rows, size.height, gap)[area.rows.start as int];
    let w = span_cells(axis_sizes(cols, size.width, gap), area.cols, gap);
    let h = span_cells(axis_sizes(rows, size.height, gap), area.rows, gap);
    Rect {
        x: x as u16,
        y: y as u16,
        width: min_int(w, minus_floor(size.width as int, x)) as u16,
        height: min_int(h, minus_floor(size.height as int, y)) as u16,
    }
}

/// Grid layout: column and row tracks, a gap between tracks, and placed zones.
#[derive(Clone)]
pub struct GridLayout {
    cols: Vec<GridSize>,
    rows: Vec<GridSize>,
    areas: Vec<(String, GridArea)>,
    gap: u16,
}

impl GridLayout {
    /// The column tracks, left to right.
    pub closed spec fn col_tracks(&self) -> Seq<GridSize> {
        self.cols@
    }

    /// The row tracks, top to bottom.
    pub closed spec fn row_tracks(&self) -> Seq<GridSize> {
        self.rows@
    }

    /// Cells between two adjacent tracks.
    pub closed spec fn gap_cells(&self) -> u16 {
        self.gap
    }

    /// Placed zone ids, in placement order.
    pub closed spec fn zone_ids(&self) -> Seq<Seq<char>> {
        self.areas@.map_values(|p: (String, GridArea)| p.0@)
    }

    /// Placed areas, in placement order (parallel to `zone_ids`).
    pub closed spec fn zone_areas(&self) -> Seq<GridArea> {
        self.areas@.map_values(|p: (String, GridArea)| p.1)
    }

    /// Placement invariant: ids are unique, areas end inside the grid and no two
    /// areas share a cell.
    pub open spec fn wf(&self) -> bool {
        let ids = self.zone_ids();
        let areas = self.zone_areas();
        &&& ids.len() == areas.len()
        &&& forall|i: int, j: int| 0 <= i < j < ids.len() ==> ids[i] != ids[j]
        &&& forall|i: int|
            0 <= i < areas.len() ==> area_in_bounds(
                #[trigger] areas[i],
                self.row_tracks().len() as int,
                self.col_tracks().len() as int,
            )
        &&& forall|i: int, j: int|
            0 <= i < j < areas.len() ==> !areas_overlap(areas[i], areas[j])
    }

    /// Inputs on which `solve` runs without arithmetic overflow: both axes solvable,
    /// every area's ranges ordered, and every span fitting in 16 bits.
    pub open spec fn solvable(&self, size: Size) -> bool {
        let cs = axis_sizes(self.col_tracks(), size.width, self.gap_cells());
        let rs = axis_sizes(self.row_tracks(), size.height, self.gap_cells());
        &&& self.wf()
        &&& axis_solvable(self.col_tracks(), size.width, self.gap_cells())
        &&& axis_solvable(self.row_tracks(), size.height, self.gap_cells())
        &&& forall|i: int|
            0 <= i < self.zone_areas().len() ==> {
                let a = #[trigger] self.zone_areas()[i];
                &&& a.rows.start <= a.rows.end
                &&& a.cols.start <= a.cols.end
                &&& span_cells(cs, a.cols, self.gap_cells()) <= u16::MAX
                &&& span_cells(rs, a.rows, self.gap_cells()) <= u16::MAX
            }
    }

    /// An empty grid: no tracks, no zones, no gap.
    pub fn new() -> (r: Self)
        ensures
            r.wf(),
            r.col_tracks() == Seq::<GridSize>::empty(),
            r.row_tracks() == Seq::<GridSize>::empty(),
            r.zone_ids() == Seq::<Seq<char>>::empty(),
            r.gap_cells() == 0,
    {
        let r = GridLayout { cols: Vec::new(), rows: Vec::new(), areas: Vec::new(), gap: 0 };
        assert(r.zone_ids() =~= Seq::<Seq<char>>::empty());
        r
    }

    /// Appends a column track.
    pub fn add_col(&mut self, size: GridSize) -> (r: &mut Self)
        requires
            old(self).wf(),
        ensures
            r.wf(),
            r.col_tracks() == old(self).col_tracks().push(size),
            r.row_tracks() == old(self).row_tracks(),
            r.zone_ids() == old(self).zone_ids(),
            r.zone_areas() == old(self).zone_areas(),
            r.gap_cells() == old(self).gap_cells(),
            *final(self) == *final(r),
    {
        self.cols.push(size);
        assert(self.zone_ids() == old(self).zone_ids());
        self
    }

    /// Appends a row track.
    pub fn add_row(&mut self, size: GridSize) -> (r: &mut Self)
        requires
            old(self).wf(),
        ensures
            r.wf(),
            r.row_tracks() == old(self).row_tracks().push(size),
            r.col_tracks() == old(self).col_tracks(),
            r.zone_ids() == old(self).zone_ids(),
            r.zone_areas() == old(self).zone_areas(),
            r.gap_cells() == old(self).gap_cells(),
            *final(self) == *final(r),
    {
        self.rows.push(size);
        self
    }

    /// Sets the gap between adjacent tracks.
    pub fn with_gap(&mut self, gap: u16) -> (r: &mut Self)
        requires
            old(self).wf(),
        ensures
            r.wf(),
            r.gap_cells() == gap,
            r.col_tracks() == old(self).col_tracks(),
            r.row_tracks() == old(self).row_tracks(),
            r.zone_ids() == old(self).zone_ids(),
            r.zone_areas() == old(self).zone_areas(),
            *final(self) == *final(r),
    {
        self.gap = gap;
        self
    }

    /// Number of column tracks.
    pub fn col_count(&self) -> (r: usize)
        ensures
            r == self.col_tracks().len(),
    {
        self.cols.len()
    }

    /// Number of row tracks.
    pub fn row_count(&self) -> (r: usize)
        ensures
            r == self.row_tracks().len(),
    {
        self.rows.len()
    }

    /// Number of placed zones.
    pub fn zone_count(&self) -> (r: usize)
        ensures
            r == self.zone_ids().len(),
    {
        self.areas.len()
    }

    /// Gap between adjacent tracks.
    pub fn gap(&self) -> (r: u16)
        ensures
            r == self.gap_cells(),
    {
        self.gap
    }

    /// Places `zone_id` on `area`. Refused, leaving the grid unchanged, when the id is
    /// already placed (`DuplicateZone`), when the area ends outside the grid
    /// (`OutOfBounds`), or when it shares a cell with a placed area
    /// (`OverlappingAreas`, naming the first such zone in placement order).
    pub fn place(&mut self, zone_id: &str, area: GridArea) -> (r: Result<&mut Self, GridError>)
        requires
            old(self).wf(),
        ensures
            r is Err ==> final(self).wf() && final(self).col_tracks() == old(self).col_tracks()
                && final(self).row_tracks() == old(self).row_tracks() && final(self).gap_cells()
                == old(self).gap_cells(),
            r matches Ok(g) ==> g.wf() && g.col_tracks() == old(self).col_tracks()
                && g.row_tracks() == old(self).row_tracks() && g.gap_cells() == old(self).gap_cells()
                && *final(self) == *final(g),
            old(self).zone_ids().contains(zone_id@) ==> (r matches Err(
                GridError::DuplicateZone { zone },
            ) && zone@ == zone_id@),
            !old(self).zone_ids().contains(zone_id@) && !area_in_bounds(
                area,
                old(self).row_tracks().len() as int,
                old(self).col_tracks().len() as int,
            ) ==> (r matches Err(
                GridError::OutOfBounds {
                    zone,
                    row_start,
                    row_end,
                    row_count,
                    col_start,
                    col_end,
                    col_count,
                },
            ) && zone@ == zone_id@ && row_start == area.rows.start && row_end == area.rows.end
                && row_count == old(self).row_tracks().len() && col_start == area.cols.start
                && col_end == area.cols.end && col_count == old(self).col_tracks().len()),
            !old(self).zone_ids().contains(zone_id@) && area_in_bounds(
                area,
                old(self).row_tracks().len() as int,
                old(self).col_tracks().len() as int,
            ) && (exists|k: int|
                0 <= k < old(self).zone_areas().len() && areas_overlap(
                    #[trigger] old(self).zone_areas()[k],
                    area,
                )) ==> (r matches Err(GridError::OverlappingAreas { zone1, zone2 }) && zone2@
                == zone_id@ && exists|k: int|
                0 <= k < old(self).zone_areas().len() && areas_overlap(
                    #[trigger] old(self).zone_areas()[k],
                    area,
                ) && zone1@ == old(self).zone_ids()[k] && forall|m: int|
                0 <= m < k ==> !areas_overlap(old(self).zone_areas()[m], area)),
            r is Ok <==> (!old(self).zone_ids().contains(zone_id@) && area_in_bounds(
                area,
                old(self).row_tracks().len() as int,
                old(self).col_tracks().len() as int,
            ) && forall|k: int|
                0 <= k < old(self).zone_areas().len() ==> !areas_overlap(
                    #[trigger] old(self).zone_areas()[k],
                    area,
                )),
            r matches Ok(g) ==> g.zone_ids() == old(self).zone_ids().push(zone_id@)
                && g.zone_areas() == old(self).zone_areas().push(area),
            r is Err ==> final(self).zone_ids() == old(self).zone_ids()
                && final(self).zone_areas() == old(self).zone_areas(),
    {
        let zone = String::from_str(zone_id);
        let n = self.areas.len();
        let mut i: usize = 0;
        while i < n
            invariant
                n == self.areas.len(),
                i <= n,
                zone@ == zone_id@,
                *self == *old(self),
                old(self).wf(),
                self.zone_ids().len() == n,
                forall|j: int| 0 <= j < i ==> self.zone_ids()[j] != zone_id@,
            decreases n - i,
        {
            if self.areas[i].0 == zone {
                assert(self.zone_ids()[i as int] == zone_id@);
                return Err(GridError::DuplicateZone { zone });
            }
            i += 1;
        }
        assert(!self.zone_ids().contains(zone_id@));
        let checked = match area.clone().validate(&zone, self.rows.len(), self.cols.len()) {
            Ok(a) => a,
            Err(e) => {
                return Err(e);
            },
        };
        assert(checked == area);
        let mut k: usize = 0;
        while k < n
            invariant
                n == self.areas.len(),
                k <= n,
                zone@ == zone_id@,
                *self == *old(self),
                old(self).wf(),
                !old(self).zone_ids().contains(zone_id@),
                area_in_bounds(area, self.row_tracks().len() as int, self.col_tracks().len() as int),
                checked == area,
                self.zone_areas().len() == n,
                self.zone_ids().len() == n,
                forall|m: int| 0 <= m < k ==> !areas_overlap(self.zone_areas()[m], area),
            decreases n - k,
        {
            if self.areas[k].1.overlaps(&checked) {
                let zone1 = self.areas[k].0.clone();
                assert(areas_overlap(self.zone_areas()[k as int], area));
                assert(zone1@ == self.zone_ids()[k as int]);
                return Err(GridError::OverlappingAreas { zone1, zone2: zone });
            }
            k += 1;
        }
        let ghost old_ids = self.zone_ids();
        let ghost old_areas = self.zone_areas();
        self.areas.push((zone, checked));
        assert(self.zone_ids() =~= old_ids.push(zone_id@));
        assert(self.zone_areas() =~= old_areas.push(area));
        Ok(self)
    }

    /// Rectangles of all placed zones on a terminal of `total_size`, in placement
    /// order. Each is the zone's `zone_rect`; each lies inside the terminal.
    pub fn solve(&self, total_size: Size) -> (r: Result<Vec<(String, Rect)>, GridError>)
        requires
            self.solvable(total_size),
        ensures
            r is Ok,
            r matches Ok(rects) ==> {
                &&& rects.len() == self.zone_ids().len()
                &&& forall|i: int|
                    0 <= i < rects.len() ==> (#[trigger] rects[i]).0@ == self.zone_ids()[i]
                        && rects[i].1 == zone_rect(
                        self.col_tracks(),
                        self.row_tracks(),
                        self.gap_cells(),
                        total_size,
                        self.zone_areas()[i],
                    )
                &&& forall|i: int|
                    0 <= i < rects.len() ==> (#[trigger] rects[i]).1.x + rects[i].1.width
                        <= total_size.width && rects[i].1.y + rects[i].1.height
                        <= total_size.height
            },
    {
        let (col_offsets, col_sizes) = solve_axis(&self.cols, total_size.width, self.gap);
        let (row_offsets, row_sizes) = solve_axis(&self.rows, total_size.height, self.gap);
        proof {
            lemma_axis_lengths(self.col_tracks(), total_size.width, self.gap);
            lemma_axis_lengths(self.row_tracks(), total_size.height, self.gap);
        }
        let n = self.areas.len();
        let mut result: Vec<(String, Rect)> = Vec::new();
        let mut i: usize = 0;
        while i < n
            invariant
                n == self.areas.len(),
                i <= n,
                self.solvable(total_size),
                as_cells(col_offsets@) == axis_offsets(self.col_tracks(), total_size.width, self.gap),
                as_cells(col_sizes@) == axis_sizes(self.col_tracks(), total_size.width, self.gap),
                as_cells(row_offsets@) == axis_offsets(self.row_tracks(), total_size.height, self.gap),
                as_cells(row_sizes@) == axis_sizes(self.row_tracks(), total_size.height, self.gap),
                col_offsets@.len() == self.cols@.len() + 1,
                row_offsets@.len() == self.rows@.len() + 1,
                col_sizes@.len() == self.cols@.len(),
                row_sizes@.len() == self.rows@.len(),
                forall|j: int| 0 <= j < col_offsets@.len() ==> col_offsets@[j] <= total_size.width,
                forall|j: int| 0 <= j < row_offsets@.len() ==> row_offsets@[j] <= total_size.height,
                result.len() == i,
                forall|j: int|
                    0 <= j < i ==> (#[trigger] result@[j]).0@ == self.zone_ids()[j]
                        && result@[j].1 == zone_rect(
                        self.col_tracks(),
                        self.row_tracks(),
                        self.gap_cells(),
                        total_size,
                        self.zone_areas()[j],
                    ),
                forall|j: int|
                    0 <= j < i ==> (#[trigger] result@[j]).1.x + result@[j].1.width
                        <= total_size.width && result@[j].1.y + result@[j].1.height
                        <= total_size.height,
            decreases n - i,
        {
            let ghost a = self.zone_areas()[i as int];
            assert(area_in_bounds(a, self.rows@.len() as int, self.cols@.len() as int));
            let cols = &self.areas[i].1.cols;
            let rows = &self.areas[i].1.rows;
            let x = col_offsets[cols.start];
            let y = row_offsets[rows.start];
            let w = span_extent(&col_sizes, cols, self.gap);
            let h = span_extent(&row_sizes, rows, self.gap);
            let room_w = total_size.width - x;
            let room_h = total_size.height - y;
            let width = if w < room_w {
                w
            } else {
                room_w
            };
            let height = if h < room_h {
                h
            } else {
                room_h
            };
            let rect = Rect { x, y, width, height };
            assert(rect == zone_rect(
                self.col_tracks(),
                self.row_tracks(),
                self.gap_cells(),
                total_size,
                a,
            ));
            result.push((self.areas[i].0.clone(), rect));
            i += 1;
        }
        Ok(result)
    }
}

impl GridLayout {
    /// Whether `solve` can run for `size` without leaving the integer widths of the
    /// solver: the totals of percentages and flex units fit 32 bits, the first
    /// allotments of each axis fit 16 bits, and every zone's span (gaps included) fits
    /// 16 bits.
    pub fn check_solvable(&self, size: Size) -> (r: bool)
        requires
            self.wf(),
        ensures
            r == self.solvable(size),
    {
        if !axis_check(&self.cols, size.width, self.gap) || !axis_check(
            &self.rows,
            size.height,
            self.gap,
        ) {
            return false;
        }
        let (_, col_sizes) = solve_axis(&self.cols, size.width, self.gap);
        let (_, row_sizes) = solve_axis(&self.rows, size.height, self.gap);
        proof {
            lemma_axis_lengths(self.col_tracks(), size.width, self.gap);
            lemma_axis_lengths(self.row_tracks(), size.height, self.gap);
        }
        let ghost cs = axis_sizes(self.col_tracks(), size.width, self.gap);
        let ghost rs = axis_sizes(self.row_tracks(), size.height, self.gap);
        let n = self.areas.len();
        let mut i: usize = 0;
        while i < n
            invariant
                n == self.areas.len(),
                i <= n,
                self.wf(),
                axis_solvable(self.col_tracks(), size.width, self.gap),
                axis_solvable(self.row_tracks(), size.height, self.gap),
                cs == axis_sizes(self.col_tracks(), size.width, self.gap),
                rs == axis_sizes(self.row_tracks(), size.height, self.gap),
                as_cells(col_sizes@) == cs,
                as_cells(row_sizes@) == rs,
                col_sizes@.len() == self.cols@.len(),
                row_sizes@.len() == self.rows@.len(),
                forall|j: int|
                    0 <= j < i ==> {
                        let a = #[trigger] self.zone_areas()[j];
                        &&& a.rows.start <= a.rows.end
                        &&& a.cols.start <= a.cols.end
                        &&& span_cells(cs, a.cols, self.gap_cells()) <= u16::MAX
                        &&& span_cells(rs, a.rows, self.gap_cells()) <= u16::MAX
                    },
            decreases n - i,
        {
            let ghost a = self.zone_areas()[i as int];
            assert(area_in_bounds(a, self.rows@.len() as int, self.cols@.len() as int));
            let cols = &self.areas[i].1.cols;
            let rows = &self.areas[i].1.rows;
            if cols.start > cols.end || rows.start > rows.end {
                return false;
            }
            let w = wide_span(&col_sizes, cols, self.gap);
            let h = wide_span(&row_sizes, rows, self.gap);
            assert(w == span_cells(cs, a.cols, self.gap_cells()));
            assert(h == span_cells(rs, a.rows, self.gap_cells()));
            if w > u16::MAX as u128 || h > u16::MAX as u128 {
                proof {
                    if self.solvable(size) {
                        lemma_solvable_area(*self, size, i as int);
                    }
                }
                return false;
            }
            i += 1;
        }
        true
    }
}

/// What `solvable` says of one placed zone.
proof fn lemma_solvable_area(g: GridLayout, size: Size, i: int)
    requires
        g.solvable(size),
        0 <= i < g.zone_areas().len(),
    ensures
        span_cells(
            axis_sizes(g.col_tracks(), size.width, g.gap_cells()),
            g.zone_areas()[i].cols,
            g.gap_cells(),
        ) <= u16::MAX,
        span_cells(
            axis_sizes(g.row_tracks(), size.height, g.gap_cells()),
            g.zone_areas()[i].rows,
            g.gap_cells(),
        ) <= u16::MAX,
{
    let a = g.zone_areas()[i];
    assert(a.rows.start <= a.rows.end);
}

/// The axis solver yields one size per track and one offset more.
pub proof fn lemma_axis_lengths(tracks: Seq<GridSize>, total: u16, gap: u16)
    ensures
        axis_offsets(tracks, total, gap).len() == tracks.len() + 1,
        axis_sizes(tracks, total, gap).len() == tracks.len(),
{
    let n = tracks.len();
    lemma_min_pass_len(axis_base(tracks, total, gap), axis_available(tracks, total, gap), n);
    let fl = axis_floored(tracks, total, gap);
    lemma_grow_pass_len(fl, tracks, axis_leftover(tracks, total, gap), true, n);
    let af = grow_pass(fl, tracks, axis_leftover(tracks, total, gap), true, n);
    lemma_grow_pass_len(af.0, tracks, af.1, false, n);
}

/// Cells spanned by the tracks of `range`, gaps between them included.
fn span_extent(sizes: &Vec<u16>, range: &Range<usize>, gap: u16) -> (r: u16)
    requires
        range.start <= range.end <= sizes.len(),
        span_cells(as_cells(sizes@), *range, gap) <= u16::MAX,
    ensures
        r == span_cells(as_cells(sizes@), *range, gap),
{
    let ghost s = as_cells(sizes@);
    let ghost t = s.subrange(range.start as int, range.end as int);
    let gaps = mul_cells(gap, #[verifier::truncate] ((range.end - range.start).saturating_sub(1) as u16));
    assert(forall|j: int| 0 <= j < t.len() ==> t[j] >= 0);
    proof {
        lemma_seq_sum_prefix(t, t.len() as int);
    }
    let mut sum: u16 = 0;
    let mut j: usize = range.start;
    while j < range.end
        invariant
            range.start <= j <= range.end <= sizes.len(),
            s == as_cells(sizes@),
            t == s.subrange(range.start as int, range.end as int),
            forall|m: int| 0 <= m < t.len() ==> t[m] >= 0,
            seq_sum(t) + gaps <= u16::MAX,
            gaps >= 0,
            sum == seq_sum(t.take(j - range.start)),
        decreases range.end - j,
    {
        proof {
            lemma_seq_sum_step(t, j - range.start);
            lemma_seq_sum_prefix(t, j - range.start + 1);
        }
        sum = sum + sizes[j];
        j += 1;
    }
    assert(t.take(range.end - range.start) == t);
    sum + gaps
}

/// Sum of the requested percentages (`percent`) or of the flex units, in a width that
/// cannot overflow.
fn wide_total(tracks: &Vec<GridSize>, percent: bool) -> (r: u128)
    ensures
        r == (if percent {
            axis_percent_total(tracks@)
        } else {
            axis_flex_total(tracks@)
        }),
{
    let ghost f = if percent {
        percent_measure()
    } else {
        flex_measure()
    };
    let n = tracks.len();
    let mut sum: u128 = 0;
    let mut i: usize = 0;
    while i < n
        invariant
            n == tracks.len(),
            i <= n,
            f == (if percent {
                percent_measure()
            } else {
                flex_measure()
            }),
            sum == sum_of(tracks@.take(i as int), f),
            sum <= 65535 * i,
        decreases n - i,
    {
        proof {
            lemma_sum_of_step(tracks@, f, i as int);
        }
        match tracks[i] {
            GridSize::Percent(p) => {
                if percent {
                    sum = sum + p.get() as u128;
                }
            },
            GridSize::Flex(x) => {
                if !percent {
                    sum = sum + x.get() as u128;
                }
            },
            _ => {},
        }
        i += 1;
    }
    assert(tracks@.take(n as int) == tracks@);
    sum
}

/// Sum of `sizes`, in a width that cannot overflow.
fn wide_sum(sizes: &Vec<u16>, start: usize, end: usize) -> (r: u128)
    requires
        start <= end <= sizes.len(),
    ensures
        r == seq_sum(as_cells(sizes@).subrange(start as int, end as int)),
        r <= 65535 * (end - start),
{
    let ghost t = as_cells(sizes@).subrange(start as int, end as int);
    let mut sum: u128 = 0;
    let mut j: usize = start;
    while j < end
        invariant
            start <= j <= end <= sizes.len(),
            t == as_cells(sizes@).subrange(start as int, end as int),
            sum == seq_sum(t.take(j - start)),
            sum <= 65535 * (j - start),
        decreases end - j,
    {
        proof {
            lemma_seq_sum_step(t, j - start);
        }
        sum = sum + sizes[j] as u128;
        j += 1;
    }
    assert(t.take(end - start) == t);
    sum
}

/// Cells spanned by `range`, gaps included, in a width that cannot overflow.
fn wide_span(sizes: &Vec<u16>, range: &Range<usize>, gap: u16) -> (r: u128)
    requires
        range.start <= range.end <= sizes.len(),
    ensures
        r == span_cells(as_cells(sizes@), *range, gap),
{
    let gaps = mul_cells(gap, #[verifier::truncate] ((range.end - range.start).saturating_sub(1) as u16));
    let sum = wide_sum(sizes, range.start, range.end);
    sum + gaps as u128
}

/// Whether one axis can be solved without leaving the integer widths of the solver.
fn axis_check(tracks: &Vec<GridSize>, total: u16, gap: u16) -> (r: bool)
    ensures
        r == axis_solvable(tracks@, total, gap),
{
    let n = tracks.len();
    if n == usize::MAX {
        return false;
    }
    let pt_wide = wide_total(tracks, true);
    let ft_wide = wide_total(tracks, false);
    if pt_wide > u32::MAX as u128 || ft_wide > u32::MAX as u128 {
        return false;
    }
    if n == 0 {
        return true;
    }
    let total_gap = mul_cells(gap, #[verifier::truncate] ((n - 1) as u16));
    let available: u16 = if total_gap >= total {
        0
    } else {
        total - total_gap
    };
    let fixed_sum = fixed_total(tracks);
    let space = available.saturating_sub(fixed_sum);
    let pt = percent_total(tracks);
    let used = percent_used(tracks, space, pt);
    let pool = space.saturating_sub(used);
    let ft = flex_total(tracks);
    let mut sizes = base_sizes(tracks, space, pt, pool, ft);
    assert(as_cells(sizes@) == axis_base(tracks@, total, gap));
    let ghost base = as_cells(sizes@);
    apply_minimum(&mut sizes, available);
    proof {
        lemma_min_pass_len(base, available as int, n as nat);
    }
    assert(as_cells(sizes@) == axis_floored(tracks@, total, gap));
    let floored_sum = wide_sum(&sizes, 0, sizes.len());
    assert(as_cells(sizes@).subrange(0, sizes@.len() as int) == as_cells(sizes@));
    floored_sum <= u16::MAX as u128
}

/// Every first allotment lies in `0..=u16::MAX`.
proof fn lemma_base_range(tracks: Seq<GridSize>, total: u16, gap: u16)
    ensures
        forall|i: int|
            0 <= i < tracks.len() ==> 0 <= #[trigger] axis_base(tracks, total, gap)[i] <= u16::MAX,
{
    let space = axis_after_fixed(tracks, total, gap);
    let pt = axis_percent_total(tracks);
    let pool = axis_flex_pool(tracks, total, gap);
    let ft = axis_flex_total(tracks);
    let x = (#[verifier::truncate] ((tracks.len() - 1) as u16)) as int;
    lemma_sum_of_prefix(tracks, fixed_measure(), tracks.len() as int);
    assert(gap * x >= 0) by (nonlinear_arith)
        requires
            gap >= 0,
            x >= 0,
    ;
    assert(tracks.take(tracks.len() as int) == tracks);
    assert(0 <= space <= u16::MAX);
    lemma_sum_of_prefix(tracks, percent_measure(), tracks.len() as int);
    lemma_percent_cells_nonneg(space, pt);
    lemma_sum_of_prefix(tracks, percent_cells_measure(space, pt), tracks.len() as int);
    assert(0 <= pool <= space);
    assert forall|i: int| 0 <= i < tracks.len() implies 0 <= #[trigger] axis_base(
        tracks,
        total,
        gap,
    )[i] <= u16::MAX by {
        let t = tracks[i];
        match t {
            GridSize::Fixed(s) => {},
            GridSize::Percent(p) => {
                lemma_sum_of_member(tracks, percent_measure(), i);
                lemma_weight_bounded(percent_of(t), pt);
                lemma_share_bounded(space, percent_weight(percent_of(t), pt));
            },
            GridSize::Flex(f) => {
                if ft > 0 {
                    lemma_sum_of_member(tracks, flex_measure(), i);
                    let fv = f.value() as int;
                    assert(0 <= pool * fv / ft <= pool) by (nonlinear_arith)
                        requires
                            0 <= fv <= ft,
                            ft > 0,
                            0 <= pool,
                    ;
                }
            },
        }
    }
}

/// What the minimum pass does: sizes stay in range, non-empty tracks and tracks not
/// yet visited keep their size, the budget shrinks by at most one per track, and with
/// a budget of at least one cell per visited track no visited track stays empty.
proof fn lemma_min_pass_facts(s: Seq<int>, budget: int, i: nat)
    requires
        i <= s.len(),
        budget >= 0,
        forall|j: int| 0 <= j < s.len() ==> 0 <= #[trigger] s[j] <= u16::MAX,
    ensures
        min_pass(s, budget, i).0.len() == s.len(),
        0 <= min_pass(s, budget, i).1 <= budget,
        min_pass(s, budget, i).1 >= budget - i,
        forall|j: int|
            0 <= j < s.len() ==> 0 <= #[trigger] min_pass(s, budget, i).0[j] <= u16::MAX,
        forall|j: int|
            0 <= j < s.len() && s[j] != 0 ==> #[trigger] min_pass(s, budget, i).0[j] == s[j],
        forall|j: int| i <= j < s.len() ==> #[trigger] min_pass(s, budget, i).0[j] == s[j],
        budget >= i ==> forall|j: int| 0 <= j < i ==> #[trigger] min_pass(s, budget, i).0[j] >= 1,
    decreases i,
{
    if i > 0 {
        lemma_min_pass_facts(s, budget, (i - 1) as nat);
    }
}

/// What a growth pass does: sizes never shrink and stay in range, and tracks of the
/// other kinds keep their size.
proof fn lemma_grow_pass_facts(s: Seq<int>, tracks: Seq<GridSize>, left: int, flex: bool, i: nat)
    requires
        i <= s.len(),
        s.len() == tracks.len(),
        forall|j: int| 0 <= j < s.len() ==> 0 <= #[trigger] s[j] <= u16::MAX,
    ensures
        grow_pass(s, tracks, left, flex, i).0.len() == s.len(),
        forall|j: int|
            0 <= j < s.len() ==> s[j] <= #[trigger] grow_pass(s, tracks, left, flex, i).0[j]
                <= u16::MAX,
        forall|j: int|
            0 <= j < s.len() && !track_is(tracks[j], flex) ==> #[trigger] grow_pass(
                s,
                tracks,
                left,
                flex,
                i,
            ).0[j] == s[j],
    decreases i,
{
    if i > 0 {
        lemma_grow_pass_facts(s, tracks, left, flex, (i - 1) as nat);
    }
}

/// Sizes after the minimum pass and after both growth passes, with their bounds.
proof fn lemma_axis_stages(tracks: Seq<GridSize>, total: u16, gap: u16)
    ensures
        ({
            let base = axis_base(tracks, total, gap);
            let fl = axis_floored(tracks, total, gap);
            let af = grow_pass(fl, tracks, axis_leftover(tracks, total, gap), true, tracks.len());
            let sizes = axis_sizes(tracks, total, gap);
            &&& fl.len() == tracks.len()
            &&& af.0.len() == tracks.len()
            &&& sizes.len() == tracks.len()
            &&& forall|j: int| 0 <= j < tracks.len() ==> 0 <= #[trigger] fl[j] <= u16::MAX
            &&& forall|j: int| 0 <= j < tracks.len() ==> fl[j] <= #[trigger] af.0[j] <= u16::MAX
            &&& forall|j: int|
                0 <= j < tracks.len() ==> af.0[j] <= #[trigger] sizes[j] <= u16::MAX
            &&& forall|j: int|
                0 <= j < tracks.len() && !(tracks[j] is Flex) ==> #[trigger] af.0[j] == fl[j]
            &&& forall|j: int|
                0 <= j < tracks.len() && !(tracks[j] is Percent) ==> #[trigger] sizes[j]
                    == af.0[j]
        }),
{
    let n = tracks.len();
    let base = axis_base(tracks, total, gap);
    let avail = axis_available(tracks, total, gap);
    lemma_base_range(tracks, total, gap);
    lemma_min_pass_facts(base, avail, n);
    let fl = axis_floored(tracks, total, gap);
    let left = axis_leftover(tracks, total, gap);
    lemma_grow_pass_facts(fl, tracks, left, true, n);
    let af = grow_pass(fl, tracks, left, true, n);
    lemma_grow_pass_facts(af.0, tracks, af.1, false, n);
}

/// A fixed track of non-zero size receives exactly its size.
pub proof fn lemma_fixed_tracks_keep_size(tracks: Seq<GridSize>, total: u16, gap: u16, i: int)
    requires
        0 <= i < tracks.len(),
        tracks[i] is Fixed,
        fixed_cells(tracks[i]) > 0,
    ensures
        axis_sizes(tracks, total, gap)[i] == fixed_cells(tracks[i]),
{
    let n = tracks.len();
    let base = axis_base(tracks, total, gap);
    lemma_base_range(tracks, total, gap);
    lemma_min_pass_facts(base, axis_available(tracks, total, gap), n);
    lemma_axis_stages(tracks, total, gap);
    assert(base[i] == fixed_cells(tracks[i]));
}

/// When the axis has at least one cell per track, no track is left empty.
pub proof fn lemma_no_empty_tracks(tracks: Seq<GridSize>, total: u16, gap: u16)
    requires
        axis_available(tracks, total, gap) >= tracks.len(),
    ensures
        forall|i: int| 0 <= i < tracks.len() ==> #[trigger] axis_sizes(tracks, total, gap)[i] >= 1,
{
    let n = tracks.len();
    let base = axis_base(tracks, total, gap);
    lemma_base_range(tracks, total, gap);
    lemma_min_pass_facts(base, axis_available(tracks, total, gap), n);
    lemma_axis_stages(tracks, total, gap);
}

/// Offsets grow from zero and never pass the axis length.
pub proof fn lemma_offsets_ordered(tracks: Seq<GridSize>, total: u16, gap: u16)
    ensures
        axis_offsets(tracks, total, gap)[0] == 0,
        forall|i: int, j: int|
            0 <= i <= j <= tracks.len() ==> 0 <= #[trigger] axis_offsets(tracks, total, gap)[i]
                <= #[trigger] axis_offsets(tracks, total, gap)[j] <= total,
{
    let sizes = axis_sizes(tracks, total, gap);
    lemma_axis_stages(tracks, total, gap);
    assert forall|i: int, j: int| 0 <= i <= j <= tracks.len() implies 0
        <= #[trigger] axis_offsets(tracks, total, gap)[i] <= #[trigger] axis_offsets(
        tracks,
        total,
        gap,
    )[j] <= total by {
        lemma_cumulative_monotone(sizes, total as int, gap as int, i as nat, j as nat);
    }
}

/// Offsets over non-negative sizes are ordered and bounded.
proof fn lemma_cumulative_monotone(sizes: Seq<int>, total: int, gap: int, i: nat, j: nat)
    requires
        i <= j <= sizes.len(),
        0 <= total <= u16::MAX,
        gap >= 0,
        forall|k: int| 0 <= k < sizes.len() ==> #[trigger] sizes[k] >= 0,
    ensures
        0 <= cumulative(sizes, total, gap, i) <= cumulative(sizes, total, gap, j) <= total,
    decreases j,
{
    if j > i {
        lemma_cumulative_monotone(sizes, total, gap, i, (j - 1) as nat);
    } else if i > 0 {
        lemma_cumulative_monotone(sizes, total, gap, (i - 1) as nat, (i - 1) as nat);
    }
}

/// Two rectangles share at least one cell.
pub open spec fn rects_overlap(a: Rect, b: Rect) -> bool {
    &&& a.x < b.x + b.width
    &&& b.x < a.x + a.width
    &&& a.y < b.y + b.height
    &&& b.y < a.y + a.height
}

/// One offset step moves past the track and, unless it is the last one, the gap,
/// or reaches the axis length.
proof fn lemma_offset_step_bound(c: int, size: int, last: bool, total: int, gap: int)
    requires
        0 <= c <= total <= u16::MAX,
        size >= 0,
        gap >= 0,
    ensures
        offset_step(c, size, last, total, gap) >= min_int(
            total,
            c + size + (if last {
                0
            } else {
                gap
            }),
        ),
{
}

/// From track `s` to track `e` the offset grows by the tracks' sizes and the gaps
/// between them (and the gap after track `e - 1` unless it is the last), unless it
/// reaches the axis length.
proof fn lemma_cumulative_run(sizes: Seq<int>, total: int, gap: int, s: nat, e: nat)
    requires
        s < e <= sizes.len(),
        0 <= total <= u16::MAX,
        gap >= 0,
        forall|k: int| 0 <= k < sizes.len() ==> #[trigger] sizes[k] >= 0,
    ensures
        cumulative(sizes, total, gap, e) >= min_int(
            total,
            cumulative(sizes, total, gap, s) + seq_sum(sizes.subrange(s as int, e as int)) + gap * (
            e - s - 1) + (if e < sizes.len() {
                gap
            } else {
                0
            }),
        ),
    decreases e - s,
{
    let e1: nat = (e - 1) as nat;
    let c_prev = cumulative(sizes, total, gap, e1);
    let c_s = cumulative(sizes, total, gap, s);
    let last = e1 == sizes.len() - 1;
    lemma_cumulative_monotone(sizes, total, gap, e1, e1);
    lemma_cumulative_monotone(sizes, total, gap, s, s);
    lemma_offset_step_bound(c_prev, sizes[e1 as int], last, total, gap);
    assert(cumulative(sizes, total, gap, e) == offset_step(c_prev, sizes[e1 as int], last, total, gap));
    let run = sizes.subrange(s as int, e as int);
    assert(run.drop_last() =~= sizes.subrange(s as int, e1 as int));
    assert(run.last() == sizes[e1 as int]);
    let sum = seq_sum(run);
    let sum_prev = seq_sum(sizes.subrange(s as int, e1 as int));
    assert(sum == sum_prev + sizes[e1 as int]);
    let tail = if e < sizes.len() {
        gap
    } else {
        0
    };
    assert(tail == (if last {
        0
    } else {
        gap
    }));
    if e1 > s {
        lemma_cumulative_run(sizes, total, gap, s, e1);
        let k = e - s - 1;
        assert(gap * k == gap * (k - 1) + gap) by (nonlinear_arith);
        assert(gap * (e1 - s - 1) == gap * (k - 1));
        assert(c_prev >= min_int(total, c_s + sum_prev + gap * k));
    } else {
        assert(sizes.subrange(s as int, e1 as int) =~= Seq::<int>::empty());
        assert(sum_prev == 0);
        assert(e - s - 1 == 0);
        assert(gap * (e - s - 1) == 0) by (nonlinear_arith)
            requires
                e - s - 1 == 0,
        ;
        assert(c_prev == c_s);
    }
}

/// A sum of non-negative integers is non-negative.
proof fn lemma_seq_sum_nonneg(s: Seq<int>)
    requires
        forall|k: int| 0 <= k < s.len() ==> #[trigger] s[k] >= 0,
    ensures
        seq_sum(s) >= 0,
    decreases s.len(),
{
    if s.len() > 0 {
        lemma_seq_sum_nonneg(s.drop_last());
    }
}

/// A zone's extent on one axis, from its start offset, ends no later than the offset of
/// the track after its last one.
proof fn lemma_extent_end(sizes: Seq<int>, total: u16, gap: u16, r: Range<usize>)
    requires
        r.start <= r.end <= sizes.len(),
        forall|k: int| 0 <= k < sizes.len() ==> #[trigger] sizes[k] >= 0,
    ensures
        cumulative(sizes, total as int, gap as int, r.start as nat) + min_int(
            span_cells(sizes, r, gap),
            minus_floor(total as int, cumulative(sizes, total as int, gap as int, r.start as nat)),
        ) <= cumulative(sizes, total as int, gap as int, r.end as nat),
        span_cells(sizes, r, gap) >= 0,
{
    let c = cumulative(sizes, total as int, gap as int, r.start as nat);
    lemma_cumulative_monotone(sizes, total as int, gap as int, r.start as nat, r.end as nat);
    let run = sizes.subrange(r.start as int, r.end as int);
    lemma_seq_sum_nonneg(run);
    let n = minus_floor(r.end - r.start, 1);
    let t = (n as u16) as int;
    assert(0 <= t <= n) by {
        if n <= u16::MAX {
            assert(t == n);
        }
    }
    assert(0 <= gap * t <= gap * n) by (nonlinear_arith)
        requires
            0 <= t <= n,
            gap >= 0,
    ;
    if r.start < r.end {
        lemma_cumulative_run(sizes, total as int, gap as int, r.start as nat, r.end as nat);
        assert(n == r.end - r.start - 1);
    } else {
        assert(run =~= Seq::<int>::empty());
        assert(n == 0);
        assert(gap * t == 0) by (nonlinear_arith)
            requires
                t == 0,
        ;
    }
}

/// Zones placed on areas that share no cell are solved to rectangles that share no
/// cell, whatever the terminal size.
pub proof fn lemma_solved_rects_disjoint(g: GridLayout, size: Size, i: int, j: int)
    requires
        g.wf(),
        0 <= i < g.zone_areas().len(),
        0 <= j < g.zone_areas().len(),
        i != j,
        g.zone_areas()[i].rows.start <= g.zone_areas()[i].rows.end,
        g.zone_areas()[i].cols.start <= g.zone_areas()[i].cols.end,
        g.zone_areas()[j].rows.start <= g.zone_areas()[j].rows.end,
        g.zone_areas()[j].cols.start <= g.zone_areas()[j].cols.end,
    ensures
        !rects_overlap(
            zone_rect(g.col_tracks(), g.row_tracks(), g.gap_cells(), size, g.zone_areas()[i]),
            zone_rect(g.col_tracks(), g.row_tracks(), g.gap_cells(), size, g.zone_areas()[j]),
        ),
{
    let a = g.zone_areas()[i];
    let b = g.zone_areas()[j];
    let gap = g.gap_cells();
    if i < j {
        assert(!areas_overlap(a, b));
    } else {
        assert(!areas_overlap(b, a));
    }
    assert(area_in_bounds(a, g.row_tracks().len() as int, g.col_tracks().len() as int));
    assert(area_in_bounds(b, g.row_tracks().len() as int, g.col_tracks().len() as int));
    lemma_axis_stages(g.col_tracks(), size.width, gap);
    lemma_axis_stages(g.row_tracks(), size.height, gap);
    let cs = axis_sizes(g.col_tracks(), size.width, gap);
    let rs = axis_sizes(g.row_tracks(), size.height, gap);
    let cw = size.width as int;
    let rh = size.height as int;
    lemma_extent_end(cs, size.width, gap, a.cols);
    lemma_extent_end(cs, size.width, gap, b.cols);
    lemma_extent_end(rs, size.height, gap, a.rows);
    lemma_extent_end(rs, size.height, gap, b.rows);
    lemma_cumulative_monotone(cs, cw, gap as int, a.cols.start as nat, a.cols.start as nat);
    lemma_cumulative_monotone(cs, cw, gap as int, b.cols.start as nat, b.cols.start as nat);
    lemma_cumulative_monotone(rs, rh, gap as int, a.rows.start as nat, a.rows.start as nat);
    lemma_cumulative_monotone(rs, rh, gap as int, b.rows.start as nat, b.rows.start as nat);
    if a.cols.end <= b.cols.start {
        lemma_cumulative_monotone(cs, cw, gap as int, a.cols.end as nat, b.cols.start as nat);
    }
    if b.cols.end <= a.cols.start {
        lemma_cumulative_monotone(cs, cw, gap as int, b.cols.end as nat, a.cols.start as nat);
    }
    if a.rows.end <= b.rows.start {
        lemma_cumulative_monotone(rs, rh, gap as int, a.rows.end as nat, b.rows.start as nat);
    }
    if b.rows.end <= a.rows.start {
        lemma_cumulative_monotone(rs, rh, gap as int, b.rows.end as nat, a.rows.start as nat);
    }
}

impl Default for GridLayout {
    /// An empty grid, as `GridLayout::new`.
    fn default() -> (r: Self)
        ensures
            r.wf(),
            r.col_tracks() == Seq::<GridSize>::empty(),
            r.row_tracks() == Seq::<GridSize>::empty(),
            r.zone_ids() == Seq::<Seq<char>>::empty(),
            r.gap_cells() == 0,
    {
        GridLayout::new()
    }
}

/// A measure bounded by `c` on every track sums to at most `c` per track.
proof fn lemma_sum_of_bound(tracks: Seq<GridSize>, f: spec_fn(GridSize) -> int, c: int)
    requires
        c >= 0,
        forall|t: GridSize| 0 <= #[trigger] f(t) <= c,
    ensures
        0 <= sum_of(tracks, f) <= c * tracks.len(),
    decreases tracks.len(),
{
    if tracks.len() > 0 {
        lemma_sum_of_bound(tracks.drop_last(), f, c);
        let n = tracks.len() as int;
        assert(c * (n - 1) + c == c * n) by (nonlinear_arith);
    }
}

/// Measures that agree on every track have the same sum.
proof fn lemma_sum_of_ext(tracks: Seq<GridSize>, f: spec_fn(GridSize) -> int, g: spec_fn(GridSize) -> int)
    requires
        forall|t: GridSize| #[trigger] f(t) == g(t),
    ensures
        sum_of(tracks, f) == sum_of(tracks, g),
    decreases tracks.len(),
{
    if tracks.len() > 0 {
        lemma_sum_of_ext(tracks.drop_last(), f, g);
    }
}

/// A measure that is the sum of three others sums to the sum of their sums.
proof fn lemma_sum_of_split(
    tracks: Seq<GridSize>,
    f: spec_fn(GridSize) -> int,
    a: spec_fn(GridSize) -> int,
    b: spec_fn(GridSize) -> int,
    c: spec_fn(GridSize) -> int,
)
    requires
        forall|t: GridSize| #[trigger] f(t) == a(t) + b(t) + c(t),
    ensures
        sum_of(tracks, f) == sum_of(tracks, a) + sum_of(tracks, b) + sum_of(tracks, c),
    decreases tracks.len(),
{
    if tracks.len() > 0 {
        lemma_sum_of_split(tracks.drop_last(), f, a, b, c);
    }
}

/// Shares `x * w / d` rounded down never add up to more than `x` times the total
/// weight over `d`.
proof fn lemma_sum_of_shares(
    tracks: Seq<GridSize>,
    f: spec_fn(GridSize) -> int,
    w: spec_fn(GridSize) -> int,
    x: int,
    d: int,
)
    requires
        x >= 0,
        d > 0,
        forall|t: GridSize| #[trigger] w(t) >= 0,
        forall|t: GridSize| #[trigger] f(t) == x * w(t) / d,
    ensures
        sum_of(tracks, f) * d <= x * sum_of(tracks, w),
    decreases tracks.len(),
{
    if tracks.len() > 0 {
        let init = tracks.drop_last();
        lemma_sum_of_shares(init, f, w, x, d);
        let t = tracks.last();
        let sf = sum_of(init, f);
        let sw = sum_of(init, w);
        let wt = w(t);
        assert(f(t) == x * wt / d);
        assert((sf + x * wt / d) * d <= x * (sw + wt)) by (nonlinear_arith)
            requires
                sf * d <= x * sw,
                x >= 0,
                d > 0,
                wt >= 0,
        ;
    }
}

/// The sum of a sequence changes by the difference at the updated position.
proof fn lemma_seq_sum_update(s: Seq<int>, j: int, v: int)
    requires
        0 <= j < s.len(),
    ensures
        seq_sum(s.update(j, v)) == seq_sum(s) - s[j] + v,
    decreases s.len(),
{
    let u = s.update(j, v);
    if j == s.len() - 1 {
        assert(u.drop_last() =~= s.drop_last());
    } else {
        lemma_seq_sum_update(s.drop_last(), j, v);
        assert(u.drop_last() =~= s.drop_last().update(j, v));
    }
}

/// The minimum pass adds at most one cell per visited track.
proof fn lemma_min_pass_sum(s: Seq<int>, budget: int, i: nat)
    requires
        i <= s.len(),
    ensures
        seq_sum(min_pass(s, budget, i).0) <= seq_sum(s) + i,
        min_pass(s, budget, i).0.len() == s.len(),
    decreases i,
{
    if i > 0 {
        lemma_min_pass_sum(s, budget, (i - 1) as nat);
        let prev = min_pass(s, budget, (i - 1) as nat);
        if prev.0[i - 1] == 0 && prev.1 > 0 {
            lemma_seq_sum_update(prev.0, i - 1, 1);
        }
    }
}

/// The sum of a measure read track by track is the measure's sum.
proof fn lemma_seq_sum_of_measure(tracks: Seq<GridSize>, f: spec_fn(GridSize) -> int)
    ensures
        seq_sum(Seq::new(tracks.len(), |i: int| f(tracks[i]))) == sum_of(tracks, f),
    decreases tracks.len(),
{
    if tracks.len() > 0 {
        let init = tracks.drop_last();
        lemma_seq_sum_of_measure(init, f);
        assert(Seq::new(tracks.len(), |i: int| f(tracks[i])).drop_last() =~= Seq::new(
            init.len(),
            |i: int| f(init[i]),
        ));
    }
}

/// The first allotments of an axis add up to at most the fixed sizes plus the axis
/// length.
proof fn lemma_base_sum(tracks: Seq<GridSize>, total: u16, gap: u16)
    ensures
        seq_sum(axis_base(tracks, total, gap)) <= sum_of(tracks, fixed_measure()) + total,
{
    let space = axis_after_fixed(tracks, total, gap);
    let pt = axis_percent_total(tracks);
    let pool = axis_flex_pool(tracks, total, gap);
    let ft = axis_flex_total(tracks);
    let x = (#[verifier::truncate] ((tracks.len() - 1) as u16)) as int;
    assert(gap * x >= 0) by (nonlinear_arith)
        requires
            gap >= 0,
            x >= 0,
    ;
    lemma_sum_of_prefix(tracks, fixed_measure(), tracks.len() as int);
    assert(tracks.take(tracks.len() as int) == tracks);
    assert(0 <= space <= total);
    let base_m = |t: GridSize| base_cells(t, space, pt, pool, ft);
    let pw = |t: GridSize| percent_weight(percent_of(t), pt);
    let pc = percent_cells_measure(space, pt);
    let fl = |t: GridSize| if ft > 0 {
        pool * flex_of(t) / ft
    } else {
        0
    };
    assert(axis_base(tracks, total, gap) =~= Seq::new(tracks.len(), |i: int| base_m(tracks[i])));
    lemma_seq_sum_of_measure(tracks, base_m);
    assert(percent_weight(0, pt) == 0);
    assert(space * 0 / 100 == 0);
    assert(ft > 0 ==> pool * 0 / ft == 0) by (nonlinear_arith);
    assert forall|t: GridSize| #[trigger] base_m(t) == fixed_measure()(t) + pc(t) + fl(t) by {
        assert(percent_of(t) == 0 ==> pc(t) == 0);
        assert(flex_of(t) == 0 ==> fl(t) == 0);
    }
    lemma_sum_of_split(tracks, base_m, fixed_measure(), pc, fl);
    // Percent shares: the weights add up to at most 100.
    lemma_sum_of_prefix(tracks, percent_measure(), tracks.len() as int);
    assert(tracks.take(tracks.len() as int) == tracks);
    assert forall|t: GridSize| #[trigger] pw(t) >= 0 by {
        if pt > 100 {
            let p = percent_of(t);
            assert(p * 100 / pt >= 0) by (nonlinear_arith)
                requires
                    p >= 0,
                    pt > 100,
            ;
        }
    }
    if pt > 100 {
        let w100 = |t: GridSize| percent_of(t);
        assert forall|t: GridSize| #[trigger] pw(t) == 100 * w100(t) / pt by {}
        lemma_sum_of_shares(tracks, pw, w100, 100, pt);
        lemma_sum_of_ext(tracks, w100, percent_measure());
        assert(sum_of(tracks, pw) <= 100) by (nonlinear_arith)
            requires
                sum_of(tracks, pw) * pt <= 100 * pt,
                pt > 0,
        ;
    } else {
        lemma_sum_of_ext(tracks, pw, percent_measure());
    }
    assert forall|t: GridSize| #[trigger] pc(t) == space * pw(t) / 100 by {}
    lemma_sum_of_shares(tracks, pc, pw, space, 100);
    let sp = sum_of(tracks, pc);
    assert(sp <= space) by (nonlinear_arith)
        requires
            sp * 100 <= space * sum_of(tracks, pw),
            sum_of(tracks, pw) <= 100,
            space >= 0,
    ;
    // Flex shares: never more than the pool.
    let sfl = sum_of(tracks, fl);
    if ft > 0 {
        let fm = |t: GridSize| flex_of(t);
        assert forall|t: GridSize| #[trigger] fm(t) >= 0 by {}
        assert forall|t: GridSize| #[trigger] fl(t) == pool * fm(t) / ft by {}
        lemma_sum_of_shares(tracks, fl, fm, pool, ft);
        lemma_sum_of_ext(tracks, fm, flex_measure());
        assert(sfl <= pool) by (nonlinear_arith)
            requires
                sfl * ft <= pool * ft,
                ft > 0,
        ;
    } else {
        lemma_sum_of_bound(tracks, fl, 0);
    }
    lemma_percent_cells_nonneg(space, pt);
    lemma_sum_of_prefix(tracks, pc, tracks.len() as int);
    assert(axis_percent_used(tracks, total, gap) == sp);
}

/// The solver's no-overflow condition holds for tracks whose fixed sizes, axis
/// length and track count together fit 16 bits.
pub proof fn lemma_axis_bound_solvable(tracks: Seq<GridSize>, total: u16, gap: u16)
    requires
        sum_of(tracks, fixed_measure()) + total + tracks.len() <= u16::MAX,
    ensures
        axis_solvable(tracks, total, gap),
{
    lemma_sum_of_prefix(tracks, fixed_measure(), tracks.len() as int);
    assert(tracks.take(tracks.len() as int) == tracks);
    assert forall|t: GridSize| 0 <= #[trigger] percent_measure()(t) <= 255 by {}
    lemma_sum_of_bound(tracks, percent_measure(), 255);
    assert(255 * tracks.len() <= 255 * 65535) by (nonlinear_arith)
        requires
            tracks.len() <= 65535,
    ;
    assert forall|t: GridSize| 0 <= #[trigger] flex_measure()(t) <= 65535 by {}
    lemma_sum_of_bound(tracks, flex_measure(), 65535);
    assert(65535 * tracks.len() <= 65535 * 65535) by (nonlinear_arith)
        requires
            tracks.len() <= 65535,
    ;
    lemma_base_sum(tracks, total, gap);
    lemma_min_pass_sum(axis_base(tracks, total, gap), axis_available(tracks, total, gap), tracks.len());
}

/// A growth pass hands out no more cells than it had: the sizes' sum grows by at
/// most the cells it used.
proof fn lemma_grow_pass_sum(s: Seq<int>, tracks: Seq<GridSize>, left: int, flex: bool, i: nat)
    requires
        i <= s.len(),
        left >= 0,
    ensures
        grow_pass(s, tracks, left, flex, i).0.len() == s.len(),
        grow_pass(s, tracks, left, flex, i).1 >= 0,
        seq_sum(grow_pass(s, tracks, left, flex, i).0) + grow_pass(s, tracks, left, flex, i).1
            <= seq_sum(s) + left,
    decreases i,
{
    if i > 0 {
        lemma_grow_pass_sum(s, tracks, left, flex, (i - 1) as nat);
        let prev = grow_pass(s, tracks, left, flex, (i - 1) as nat);
        if prev.1 > 0 && track_is(tracks[i - 1], flex) {
            lemma_seq_sum_update(prev.0, i - 1, clamp_cells(prev.0[i - 1] + 1));
        }
    }
}

/// A run of non-negative elements sums to no more than the whole sequence.
proof fn lemma_seq_sum_sub(s: Seq<int>, a: int, b: int)
    requires
        0 <= a <= b <= s.len(),
        forall|j: int| 0 <= j < s.len() ==> s[j] >= 0,
    ensures
        0 <= seq_sum(s.subrange(a, b)) <= seq_sum(s.take(b)),
    decreases b - a,
{
    lemma_seq_sum_prefix(s, b);
    if a == b {
        assert(s.subrange(a, b).len() == 0);
    } else {
        lemma_seq_sum_sub(s, a, b - 1);
        assert(s.subrange(a, b).drop_last() =~= s.subrange(a, b - 1));
        lemma_seq_sum_step(s, b - 1);
    }
}

/// The final sizes of an axis add up to at most its fixed sizes, its length and its
/// track count.
proof fn lemma_axis_sizes_sum(tracks: Seq<GridSize>, total: u16, gap: u16)
    ensures
        seq_sum(axis_sizes(tracks, total, gap)) <= sum_of(tracks, fixed_measure()) + total
            + tracks.len(),
        forall|j: int| 0 <= j < tracks.len() ==> #[trigger] axis_sizes(tracks, total, gap)[j] >= 0,
        axis_sizes(tracks, total, gap).len() == tracks.len(),
{
    let n = tracks.len();
    let base = axis_base(tracks, total, gap);
    let avail = axis_available(tracks, total, gap);
    lemma_axis_stages(tracks, total, gap);
    lemma_base_sum(tracks, total, gap);
    lemma_min_pass_sum(base, avail, n);
    let fl = axis_floored(tracks, total, gap);
    let left = axis_leftover(tracks, total, gap);
    lemma_grow_pass_sum(fl, tracks, left, true, n);
    let af = grow_pass(fl, tracks, left, true, n);
    lemma_grow_pass_sum(af.0, tracks, af.1, false, n);
    lemma_sum_of_prefix(tracks, fixed_measure(), n as int);
    assert(tracks.take(n as int) == tracks);
    let x = (#[verifier::truncate] ((tracks.len() - 1) as u16)) as int;
    assert(gap * x >= 0) by (nonlinear_arith)
        requires
            gap >= 0,
            x >= 0,
    ;
    assert(avail <= total);
    assert(seq_sum(af.0) + af.1 <= seq_sum(fl) + left);
    assert(seq_sum(axis_sizes(tracks, total, gap)) <= seq_sum(af.0) + af.1);
}

/// The no-overflow bound of an axis: its fixed sizes, length, track count and gaps
/// fit 16 bits (an axis without tracks always fits).
pub open spec fn axis_fits(tracks: Seq<GridSize>, total: u16, gap: u16) -> bool {
    tracks.len() == 0 || sum_of(tracks, fixed_measure()) + total + tracks.len() + gap * (
    tracks.len() - 1) <= u16::MAX
}

/// Cells of a run of tracks, gaps included, within the bound of its axis.
proof fn lemma_span_fits(tracks: Seq<GridSize>, total: u16, gap: u16, r: Range<usize>)
    requires
        axis_fits(tracks, total, gap),
        r.start <= r.end <= tracks.len(),
    ensures
        span_cells(axis_sizes(tracks, total, gap), r, gap) <= u16::MAX,
{
    let cs = axis_sizes(tracks, total, gap);
    let n = tracks.len() as int;
    lemma_axis_sizes_sum(tracks, total, gap);
    lemma_sum_of_prefix(tracks, fixed_measure(), n);
    assert(tracks.take(n) == tracks);
    lemma_seq_sum_sub(cs, r.start as int, r.end as int);
    lemma_seq_sum_prefix(cs, r.end as int);
    let k = minus_floor(r.end - r.start, 1);
    if n == 0 {
        assert(k == 0);
        assert((k as u16) as int == 0);
        assert(gap * 0 == 0);
    } else {
        assert(0 <= k <= n - 1);
        assert(n <= u16::MAX);
        assert((k as u16) as int == k);
        assert(0 <= gap * k <= gap * (n - 1)) by (nonlinear_arith)
            requires
                0 <= k <= n - 1,
                gap >= 0,
        ;
    }
}

/// `solve` can run on every grid whose axes fit 16 bits (fixed sizes, terminal size,
/// track count and gaps together) and whose placed areas have ordered ranges: its
/// result is then `Ok`, with a rectangle for every placed zone inside the terminal.
pub proof fn lemma_solve_bound_solvable(g: GridLayout, size: Size)
    requires
        g.wf(),
        axis_fits(g.col_tracks(), size.width, g.gap_cells()),
        axis_fits(g.row_tracks(), size.height, g.gap_cells()),
        forall|i: int|
            0 <= i < g.zone_areas().len() ==> (#[trigger] g.zone_areas()[i]).rows.start
                <= g.zone_areas()[i].rows.end && g.zone_areas()[i].cols.start
                <= g.zone_areas()[i].cols.end,
    ensures
        g.solvable(size),
{
    let cols = g.col_tracks();
    let rows = g.row_tracks();
    let gap = g.gap_cells();
    assert forall|tracks: Seq<GridSize>, total: u16| #[trigger]
        axis_fits(tracks, total, gap) implies axis_solvable(tracks, total, gap) by {
        if tracks.len() > 0 {
            lemma_sum_of_prefix(tracks, fixed_measure(), tracks.len() as int);
            assert(tracks.take(tracks.len() as int) == tracks);
            let n = tracks.len() as int;
            assert(gap * (n - 1) >= 0) by (nonlinear_arith)
                requires
                    n >= 1,
                    gap >= 0,
            ;
            lemma_axis_bound_solvable(tracks, total, gap);
        }
    }
    assert(axis_fits(cols, size.width, gap));
    assert(axis_fits(rows, size.height, gap));
    let cs = axis_sizes(cols, size.width, gap);
    let rs = axis_sizes(rows, size.height, gap);
    assert forall|i: int| 0 <= i < g.zone_areas().len() implies {
        let a = #[trigger] g.zone_areas()[i];
        &&& a.rows.start <= a.rows.end
        &&& a.cols.start <= a.cols.end
        &&& span_cells(cs, a.cols, gap) <= u16::MAX
        &&& span_cells(rs, a.rows, gap) <= u16::MAX
    } by {
        let a = g.zone_areas()[i];
        assert(area_in_bounds(a, rows.len() as int, cols.len() as int));
        lemma_span_fits(cols, size.width, gap, a.cols);
        lemma_span_fits(rows, size.height, gap, a.rows);
    }
}

/// An offset step that is not the last one adds the track and the gap, stopping at
/// the axis length.
proof fn lemma_offset_step_inner(c: int, size: int, total: int, gap: int)
    requires
        0 <= c <= total <= u16::MAX,
        size >= 0,
        gap >= 0,
    ensures
        offset_step(c, size, false, total, gap) == min_int(total, c + size + gap),
{
}

/// From track `s` to track `j` (not past the last track) the offset is the start
/// offset plus the tracks' sizes and one gap after each, stopping at the axis length.
proof fn lemma_cumulative_exact(sizes: Seq<int>, total: int, gap: int, s: nat, j: nat)
    requires
        s <= j < sizes.len(),
        0 <= total <= u16::MAX,
        gap >= 0,
        forall|k: int| 0 <= k < sizes.len() ==> #[trigger] sizes[k] >= 0,
    ensures
        cumulative(sizes, total, gap, j) == min_int(
            total,
            cumulative(sizes, total, gap, s) + seq_sum(sizes.subrange(s as int, j as int)) + gap * (
            j - s),
        ),
    decreases j - s,
{
    lemma_cumulative_monotone(sizes, total, gap, s, j);
    if j == s {
        assert(sizes.subrange(s as int, j as int) =~= Seq::<int>::empty());
        assert(gap * (j - s) == 0) by (nonlinear_arith)
            requires
                j == s,
        ;
    } else {
        let j1: nat = (j - 1) as nat;
        lemma_cumulative_exact(sizes, total, gap, s, j1);
        lemma_cumulative_monotone(sizes, total, gap, j1, j1);
        lemma_offset_step_inner(cumulative(sizes, total, gap, j1), sizes[j1 as int], total, gap);
        assert(j1 != sizes.len() - 1);
        let run = sizes.subrange(s as int, j as int);
        assert(run.drop_last() =~= sizes.subrange(s as int, j1 as int));
        assert(seq_sum(run) == seq_sum(sizes.subrange(s as int, j1 as int)) + sizes[j1 as int]);
        assert(gap * (j - s) == gap * (j1 - s) + gap) by (nonlinear_arith)
            requires
                j == j1 + 1,
        ;
        lemma_seq_sum_nonneg(sizes.subrange(s as int, j1 as int));
        assert(gap * (j1 - s) >= 0) by (nonlinear_arith)
            requires
                gap >= 0,
                j1 >= s,
        ;
    }
}

/// A run of tracks `r` (at least one) is as wide as its tracks' sizes plus one gap
/// between each two of them, and, starting at the offset of its first track and cut
/// to the axis length, it ends exactly where its last track ends (that track's offset
/// plus its size, cut to the axis length). Holds while the gaps of the run fit 16 bits.
pub proof fn lemma_span_reaches_last_track(tracks: Seq<GridSize>, total: u16, gap: u16, r: Range<usize>)
    requires
        r.start < r.end <= tracks.len(),
        gap * (r.end - r.start - 1) <= u16::MAX,
    ensures
        ({
            let offs = axis_offsets(tracks, total, gap);
            let sz = axis_sizes(tracks, total, gap);
            let x = offs[r.start as int];
            let span = span_cells(sz, r, gap);
            &&& span == seq_sum(sz.subrange(r.start as int, r.end as int)) + gap * (r.end
                - r.start - 1)
            &&& 0 <= x <= total
            &&& x + min_int(span, total - x) == min_int(
                total as int,
                offs[r.end - 1] + sz[r.end - 1],
            )
        }),
{
    let n = tracks.len();
    let offs = axis_offsets(tracks, total, gap);
    let sz = axis_sizes(tracks, total, gap);
    lemma_axis_lengths(tracks, total, gap);
    lemma_axis_sizes_sum(tracks, total, gap);
    let s = r.start as nat;
    let e1 = (r.end - 1) as nat;
    let k = r.end - r.start - 1;
    assert(gap * k >= 0) by (nonlinear_arith)
        requires
            gap >= 0,
            k >= 0,
    ;
    if k > u16::MAX {
        assert(gap == 0) by {
            if gap >= 1 {
                assert(gap * k >= k) by (nonlinear_arith)
                    requires
                        gap >= 1,
                        k >= 0,
                ;
            }
        }
        assert(gap * ((k as u16) as int) == 0) by (nonlinear_arith)
            requires
                gap == 0,
        ;
        assert(gap * k == 0) by (nonlinear_arith)
            requires
                gap == 0,
        ;
    } else {
        assert((k as u16) as int == k);
    }
    assert(minus_floor(r.end - r.start, 1) == k);
    assert(offs[s as int] == cumulative(sz, total as int, gap as int, s));
    assert(offs[e1 as int] == cumulative(sz, total as int, gap as int, e1));
    lemma_cumulative_monotone(sz, total as int, gap as int, s, s);
    lemma_cumulative_exact(sz, total as int, gap as int, s, e1);
    let run = sz.subrange(r.start as int, r.end as int);
    assert(run.drop_last() =~= sz.subrange(s as int, e1 as int));
    assert(seq_sum(run) == seq_sum(sz.subrange(s as int, e1 as int)) + sz[e1 as int]);
    lemma_seq_sum_nonneg(sz.subrange(s as int, e1 as int));
    assert(gap * (e1 - s) == gap * k);
}

/// A placed zone ends where its last column and its last row end: its rectangle
/// reaches from the offset of its first track to the end of its last track (offset
/// plus size), cut to the terminal, on both axes; its width and height are the
/// tracks' sizes plus one gap between each two of them, cut to the terminal. Holds
/// for zones that cover at least one track on each axis and whose gaps fit 16 bits.
pub proof fn lemma_zone_spans_its_tracks(g: GridLayout, size: Size, i: int)
    requires
        g.wf(),
        0 <= i < g.zone_areas().len(),
        g.zone_areas()[i].cols.start < g.zone_areas()[i].cols.end,
        g.zone_areas()[i].rows.start < g.zone_areas()[i].rows.end,
        g.gap_cells() * (g.zone_areas()[i].cols.end - g.zone_areas()[i].cols.start - 1)
            <= u16::MAX,
        g.gap_cells() * (g.zone_areas()[i].rows.end - g.zone_areas()[i].rows.start - 1)
            <= u16::MAX,
    ensures
        ({
            let a = g.zone_areas()[i];
            let gap = g.gap_cells();
            let rect = zone_rect(g.col_tracks(), g.row_tracks(), gap, size, a);
            let co = axis_offsets(g.col_tracks(), size.width, gap);
            let cs = axis_sizes(g.col_tracks(), size.width, gap);
            let ro = axis_offsets(g.row_tracks(), size.height, gap);
            let rs = axis_sizes(g.row_tracks(), size.height, gap);
            &&& rect.x == co[a.cols.start as int]
            &&& rect.y == ro[a.rows.start as int]
            &&& rect.x + rect.width == min_int(
                size.width as int,
                co[a.cols.end - 1] + cs[a.cols.end - 1],
            )
            &&& rect.y + rect.height == min_int(
                size.height as int,
                ro[a.rows.end - 1] + rs[a.rows.end - 1],
            )
            &&& rect.width == min_int(
                seq_sum(cs.subrange(a.cols.start as int, a.cols.end as int)) + gap * (a.cols.end
                    - a.cols.start - 1),
                size.width - rect.x,
            )
            &&& rect.height == min_int(
                seq_sum(rs.subrange(a.rows.start as int, a.rows.end as int)) + gap * (a.rows.end
                    - a.rows.start - 1),
                size.height - rect.y,
            )
        }),
{
    let a = g.zone_areas()[i];
    let gap = g.gap_cells();
    assert(area_in_bounds(a, g.row_tracks().len() as int, g.col_tracks().len() as int));
    lemma_span_reaches_last_track(g.col_tracks(), size.width, gap, a.cols);
    lemma_span_reaches_last_track(g.row_tracks(), size.height, gap, a.rows);
    let co = axis_offsets(g.col_tracks(), size.width, gap);
    let ro = axis_offsets(g.row_tracks(), size.height, gap);
    let x = co[a.cols.start as int];
    let y = ro[a.rows.start as int];
    let w = span_cells(axis_sizes(g.col_tracks(), size.width, gap), a.cols, gap);
    let h = span_cells(axis_sizes(g.row_tracks(), size.height, gap), a.rows, gap);
    lemma_axis_sizes_sum(g.col_tracks(), size.width, gap);
    lemma_axis_sizes_sum(g.row_tracks(), size.height, gap);
    lemma_seq_sum_nonneg(axis_sizes(g.col_tracks(), size.width, gap).subrange(
        a.cols.start as int,
        a.cols.end as int,
    ));
    lemma_seq_sum_nonneg(axis_sizes(g.row_tracks(), size.height, gap).subrange(
        a.rows.start as int,
        a.rows.end as int,
    ));
    assert((x as u16) as int == x);
    assert((y as u16) as int == y);
    assert(minus_floor(size.width as int, x) == size.width - x);
    assert(minus_floor(size.height as int, y) == size.height - y);
    let mw = min_int(w, minus_floor(size.width as int, x));
    let mh = min_int(h, minus_floor(size.height as int, y));
    assert(0 <= mw <= u16::MAX);
    assert(0 <= mh <= u16::MAX);
    assert((mw as u16) as int == mw);
    assert((mh as u16) as int == mh);
}

} // verus!

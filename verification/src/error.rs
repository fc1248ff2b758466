//! Errors surfaced by the layout engine, and their messages.
use vstd::prelude::*;

use crate::layout::grid::GridError;
use crate::text::{chars_of, decimal, push_chars, push_decimal};

verus! {

/// Errors surfaced by the layout engine and the runtime.
#[derive(Debug, Clone, PartialEq, Eq)]
pub enum LayoutError {
    /// The layout holds no zones.
    EmptyLayout,
    /// No zone has this id.
    ZoneNotFound(String),
    /// A token stream could not be routed to zones.
    TokenRouting(String),
    /// A terminal or runtime backend failure.
    Backend(String),
    /// A grid placement failure.
    Grid(GridError),
}

/// Result type of the layout engine.
pub type Result<T> = core::result::Result<T, LayoutError>;

/// The message of a grid error.
pub open spec fn grid_error_text(e: GridError) -> Seq<char> {
    match e {
        GridError::OutOfBounds { zone, row_start, row_end, row_count, col_start, col_end, col_count } =>
            "Zone '"@ + zone@ + "' out of bounds: rows "@ + decimal(row_start as nat) + ".."@
            + decimal(row_end as nat) + " (grid has "@ + decimal(row_count as nat) + "), cols "@
            + decimal(col_start as nat) + ".."@ + decimal(col_end as nat) + " (grid has "@
            + decimal(col_count as nat) + ")"@,
        GridError::DuplicateZone { zone } => "Zone '"@ + zone@ + "' already exists in grid"@,
        GridError::OverlappingAreas { zone1, zone2 } => "Zones '"@ + zone1@ + "' and '"@ + zone2@
            + "' overlap"@,
    }
}

/// The message of a layout error.
pub open spec fn layout_error_text(e: LayoutError) -> Seq<char> {
    match e {
        LayoutError::EmptyLayout => "layout tree is empty"@,
        LayoutError::ZoneNotFound(z) => "zone `"@ + z@ + "` not found"@,
        LayoutError::TokenRouting(m) => "token routing failure: "@ + m@,
        LayoutError::Backend(m) => "terminal backend error: "@ + m@,
        LayoutError::Grid(g) => "grid layout error: "@ + grid_error_text(g),
    }
}

fn push_str(s: &mut String, t: &str)
    ensures
        final(s)@ == old(s)@ + t@,
{
    push_chars(s, &chars_of(t));
}

fn push_usize(s: &mut String, n: usize)
    ensures
        final(s)@ == old(s)@ + decimal(n as nat),
{
    push_decimal(s, n as u64);
}

impl GridError {
    /// The error's message.
    pub fn message(&self) -> (r: String)
        ensures
            r@ == grid_error_text(*self),
    {
        let mut s = String::new();
        match self {
            GridError::OutOfBounds { zone, row_start, row_end, row_count, col_start, col_end, col_count } => {
                push_str(&mut s, "Zone '");
                push_str(&mut s, zone.as_str());
                push_str(&mut s, "' out of bounds: rows ");
                push_usize(&mut s, *row_start);
                push_str(&mut s, "..");
                push_usize(&mut s, *row_end);
                push_str(&mut s, " (grid has ");
                push_usize(&mut s, *row_count);
                push_str(&mut s, "), cols ");
                push_usize(&mut s, *col_start);
                push_str(&mut s, "..");
                push_usize(&mut s, *col_end);
                push_str(&mut s, " (grid has ");
                push_usize(&mut s, *col_count);
                push_str(&mut s, ")");
            },
            GridError::DuplicateZone { zone } => {
                push_str(&mut s, "Zone '");
                push_str(&mut s, zone.as_str());
                push_str(&mut s, "' already exists in grid");
            },
            GridError::OverlappingAreas { zone1, zone2 } => {
                push_str(&mut s, "Zones '");
                push_str(&mut s, zone1.as_str());
                push_str(&mut s, "' and '");
                push_str(&mut s, zone2.as_str());
                push_str(&mut s, "' overlap");
            },
        }
        s
    }
}

impl LayoutError {
    /// The error's message.
    pub fn message(&self) -> (r: String)
        ensures
            r@ == layout_error_text(*self),
    {
        let mut s = String::new();
        match self {
            LayoutError::EmptyLayout => push_str(&mut s, "layout tree is empty"),
            LayoutError::ZoneNotFound(z) => {
                push_str(&mut s, "zone `");
                push_str(&mut s, z.as_str());
                push_str(&mut s, "` not found");
            },
            LayoutError::TokenRouting(m) => {
                push_str(&mut s, "token routing failure: ");
                push_str(&mut s, m.as_str());
            },
            LayoutError::Backend(m) => {
                push_str(&mut s, "terminal backend error: ");
                push_str(&mut s, m.as_str());
            },
            LayoutError::Grid(g) => {
                push_str(&mut s, "grid layout error: ");
                let inner = g.message();
                push_str(&mut s, inner.as_str());
            },
        }
        s
    }
}

impl From<GridError> for LayoutError {
    fn from(e: GridError) -> (r: Self) {
        LayoutError::Grid(e)
    }
}

impl vstd::std_specs::convert::FromSpecImpl<GridError> for LayoutError {
    open spec fn obeys_from_spec() -> bool {
        true
    }

    open spec fn from_spec(e: GridError) -> Self {
        LayoutError::Grid(e)
    }
}

} // verus!

//! Runtime vocabulary and the per-plugin context: what plugins may request during a
//! hook (zone updates, renders, exit, cursor changes, errors), and the cursor tracker
//! that turns cursor requests into cursor events.
use vstd::prelude::*;

use crate::geometry::Rect;

pub mod audit;
pub mod events;
pub mod bundles;
pub mod coordinator;
pub mod diagnostics;
pub mod driver;
pub mod focus;
pub mod screens;
pub mod shared_state;

verus! {

/// Configuration for a bounded simulated loop.
#[derive(Clone, Copy, Debug, PartialEq, Eq)]
pub struct SimulatedLoop {
    /// Maximum number of iterations to execute before the runtime tears down.
    pub max_iterations: usize,
    /// Whether to emit synthetic tick events each iteration.
    pub dispatch_ticks: bool,
}

impl SimulatedLoop {
    /// A loop of `max_iterations` iterations emitting ticks.
    pub fn ticks(max_iterations: usize) -> (r: Self)
        ensures
            r.max_iterations == max_iterations,
            r.dispatch_ticks,
    {
        SimulatedLoop { max_iterations, dispatch_ticks: true }
    }

    /// A loop of `max_iterations` iterations without ticks.
    pub fn silent(max_iterations: usize) -> (r: Self)
        ensures
            r.max_iterations == max_iterations,
            !r.dispatch_ticks,
    {
        SimulatedLoop { max_iterations, dispatch_ticks: false }
    }
}

/// Kinds of events that enter the runtime's main loop.
#[derive(Debug, Clone, Copy, PartialEq, Eq, Structural)]
pub enum LoopEventKind {
    Tick,
    Key,
    Mouse,
    Paste,
    FocusGained,
    FocusLost,
    Resize,
    Raw,
}

impl LoopEventKind {
    /// The kind's label, as used in audit and log records.
    pub fn as_str(&self) -> (r: &'static str)
        ensures
            r@ == (match *self {
                LoopEventKind::Tick => "tick"@,
                LoopEventKind::Key => "key"@,
                LoopEventKind::Mouse => "mouse"@,
                LoopEventKind::Paste => "paste"@,
                LoopEventKind::FocusGained => "focus_gained"@,
                LoopEventKind::FocusLost => "focus_lost"@,
                LoopEventKind::Resize => "resize"@,
                LoopEventKind::Raw => "raw"@,
            }),
    {
        match self {
            LoopEventKind::Tick => "tick",
            LoopEventKind::Key => "key",
            LoopEventKind::Mouse => "mouse",
            LoopEventKind::Paste => "paste",
            LoopEventKind::FocusGained => "focus_gained",
            LoopEventKind::FocusLost => "focus_lost",
            LoopEventKind::Resize => "resize",
            LoopEventKind::Raw => "raw",
        }
    }
}

/// An error reported by a plugin.
#[derive(Debug, Clone)]
pub struct RuntimeError {
    pub category: String,
    pub source: Option<String>,
    pub message: String,
    pub recoverable: bool,
}

/// Colours and attributes of the cursor glyph.
#[derive(Debug, Default, PartialEq, Eq)]
pub struct CursorStyle {
    pub fg_color: Option<String>,
    pub bg_color: Option<String>,
    pub attributes: Vec<String>,
}

/// An optional string read as a plain value.
pub open spec fn opt_view(o: Option<String>) -> Option<Seq<char>> {
    match o {
        Some(s) => Some(s@),
        None => None,
    }
}

/// A cursor style read as plain values.
pub struct StyleView {
    pub fg_color: Option<Seq<char>>,
    pub bg_color: Option<Seq<char>>,
    pub attributes: Seq<Seq<char>>,
}

impl View for CursorStyle {
    type V = StyleView;

    open spec fn view(&self) -> StyleView {
        StyleView {
            fg_color: opt_view(self.fg_color),
            bg_color: opt_view(self.bg_color),
            attributes: self.attributes@.map_values(|a: String| a@),
        }
    }
}

/// An optional style read as plain values.
pub open spec fn style_view(o: Option<CursorStyle>) -> Option<StyleView> {
    match o {
        Some(s) => Some(s@),
        None => None,
    }
}

fn clone_string_option(o: &Option<String>) -> (r: Option<String>)
    ensures
        r == *o,
{
    match o {
        Some(s) => Some(s.clone()),
        None => None,
    }
}

fn clone_strings(v: &Vec<String>) -> (r: Vec<String>)
    ensures
        r@ == v@,
{
    let mut out: Vec<String> = Vec::new();
    let mut i: usize = 0;
    while i < v.len()
        invariant
            i <= v.len(),
            out@ == v@.take(i as int),
        decreases v.len() - i,
    {
        out.push(v[i].clone());
        assert(v@.take(i as int + 1) == v@.take(i as int).push(v@[i as int]));
        i += 1;
    }
    assert(v@.take(v.len() as int) == v@);
    out
}

impl Clone for CursorStyle {
    fn clone(&self) -> (r: Self)
        ensures
            r@ == self@,
    {
        CursorStyle {
            fg_color: clone_string_option(&self.fg_color),
            bg_color: clone_string_option(&self.bg_color),
            attributes: clone_strings(&self.attributes),
        }
    }
}

fn clone_style_option(o: &Option<CursorStyle>) -> (r: Option<CursorStyle>)
    ensures
        style_view(r) == style_view(*o),
{
    match o {
        Some(s) => Some(s.clone()),
        None => None,
    }
}

/// The terminal cursor as plugins see it.
#[derive(Debug, PartialEq, Eq)]
pub struct Cursor {
    pub position: (u16, u16),
    pub visible: bool,
    pub char: Option<char>,
    pub style: Option<CursorStyle>,
}

/// A cursor read as plain values.
pub struct CursorView {
    pub position: (u16, u16),
    pub visible: bool,
    pub char: Option<char>,
    pub style: Option<StyleView>,
}

impl View for Cursor {
    type V = CursorView;

    open spec fn view(&self) -> CursorView {
        CursorView {
            position: self.position,
            visible: self.visible,
            char: self.char,
            style: style_view(self.style),
        }
    }
}

impl Clone for Cursor {
    fn clone(&self) -> (r: Self)
        ensures
            r@ == self@,
    {
        Cursor {
            position: self.position,
            visible: self.visible,
            char: self.char,
            style: clone_style_option(&self.style),
        }
    }
}

impl Default for Cursor {
    /// A visible cursor at the origin, with no glyph or style override.
    fn default() -> (r: Self)
        ensures
            r.position == (0u16, 0u16),
            r.visible,
            r.char is None,
            r.style is None,
    {
        Cursor { position: (0, 0), visible: true, char: None, style: None }
    }
}

/// Cursor changes delivered to plugins.
#[derive(Debug, Clone)]
pub enum CursorEvent {
    Moved(Cursor),
    Shown(Cursor),
    Hidden(Cursor),
}

/// A cursor event read as plain values.
pub enum CursorEventView {
    Moved(CursorView),
    Shown(CursorView),
    Hidden(CursorView),
}

impl View for CursorEvent {
    type V = CursorEventView;

    open spec fn view(&self) -> CursorEventView {
        match self {
            CursorEvent::Moved(c) => CursorEventView::Moved(c@),
            CursorEvent::Shown(c) => CursorEventView::Shown(c@),
            CursorEvent::Hidden(c) => CursorEventView::Hidden(c@),
        }
    }
}

/// A focused zone and its owner.
#[derive(Debug, Clone, PartialEq, Eq)]
pub struct FocusTarget {
    pub owner: Option<String>,
    pub zone: String,
}

/// A change of focus.
#[derive(Debug, Clone, PartialEq, Eq)]
pub struct FocusChange {
    pub from: Option<FocusTarget>,
    pub to: Option<FocusTarget>,
}

/// Control the propagation of an event across plugins.
#[derive(Debug, Clone, Copy, PartialEq, Eq, Structural)]
pub enum EventFlow {
    Continue,
    Consumed,
}

/// What a boxed zone does when its rectangle is below the minimum size.
#[derive(Debug, Clone, Copy, PartialEq, Eq, Structural)]
pub enum CollapseMode {
    Hide,
    Show,
}

/// A content update queued for a zone.
#[derive(Debug)]
pub struct ZoneUpdate {
    pub zone: String,
    pub content: String,
    pub pre_rendered: bool,
}

/// Cursor changes requested during one hook; `None` leaves that aspect alone.
#[derive(Debug, Default)]
pub struct CursorUpdate {
    pub position: Option<(u16, u16)>,
    pub visible: Option<bool>,
    pub char: Option<Option<char>>,
    pub style: Option<Option<CursorStyle>>,
}

impl CursorUpdate {
    /// No aspect of the cursor is touched.
    pub open spec fn spec_empty(&self) -> bool {
        self.position is None && self.visible is None && self.char is None && self.style is None
    }

    pub fn is_empty(&self) -> (r: bool)
        ensures
            r == self.spec_empty(),
    {
        self.position.is_none() && self.visible.is_none() && self.char.is_none()
            && self.style.is_none()
    }
}

/// Everything a plugin requested during one hook.
pub struct ContextOutcome {
    pub zone_updates: Vec<ZoneUpdate>,
    pub redraw_requested: bool,
    pub exit_requested: bool,
    pub cursor_hint: Option<(u16, u16)>,
    pub cursor_update: CursorUpdate,
    pub error: Option<RuntimeError>,
}

/// Solved zone rectangles read as plain values.
pub open spec fn rect_views(rects: Seq<(String, Rect)>) -> Seq<(Seq<char>, Rect)> {
    rects.map_values(|p: (String, Rect)| (p.0@, p.1))
}

/// `v` restricted to `lo..=hi` (for `lo <= hi`).
pub open spec fn clamp_int(v: int, lo: int, hi: int) -> int {
    if v < lo {
        lo
    } else if v > hi {
        hi
    } else {
        v
    }
}

/// The cell at (`row_offset`, `col_offset`) inside `rect`, clamped to the rectangle.
pub open spec fn cell_in_rect(rect: Rect, row_offset: int, col_offset: int) -> (u16, u16) {
    (
        clamp_int(rect.y + row_offset, rect.y as int, rect.y + rect.height - 1) as u16,
        clamp_int(rect.x + col_offset, rect.x as int, rect.x + rect.width - 1) as u16,
    )
}

/// Context passed to plugins: read access to the solved rectangles and a record of
/// the requests the plugin makes.
pub struct RuntimeContext<'a> {
    rects: &'a Vec<(String, Rect)>,
    zone_updates: Vec<ZoneUpdate>,
    redraw_requested: bool,
    exit_requested: bool,
    cursor_hint: Option<(u16, u16)>,
    cursor_update: CursorUpdate,
    reported_error: Option<RuntimeError>,
}

impl<'a> RuntimeContext<'a> {
    /// The solved rectangles the plugin sees.
    pub closed spec fn rects(&self) -> Seq<(Seq<char>, Rect)> {
        rect_views(self.rects@)
    }

    /// Zone updates queued so far, in order.
    pub closed spec fn updates(&self) -> Seq<ZoneUpdate> {
        self.zone_updates@
    }

    pub closed spec fn redraw(&self) -> bool {
        self.redraw_requested
    }

    pub closed spec fn exit(&self) -> bool {
        self.exit_requested
    }

    pub closed spec fn hint(&self) -> Option<(u16, u16)> {
        self.cursor_hint
    }

    pub closed spec fn cursor(&self) -> CursorUpdate {
        self.cursor_update
    }

    pub closed spec fn error(&self) -> Option<RuntimeError> {
        self.reported_error
    }

    /// A context over `rects` with nothing requested yet.
    pub fn new(rects: &'a Vec<(String, Rect)>) -> (r: Self)
        ensures
            r.rects() == rect_views(rects@),
            r.updates() == Seq::<ZoneUpdate>::empty(),
            !r.redraw(),
            !r.exit(),
            r.hint() is None,
            r.cursor().spec_empty(),
            r.error() is None,
    {
        RuntimeContext {
            rects,
            zone_updates: Vec::new(),
            redraw_requested: false,
            exit_requested: false,
            cursor_hint: None,
            cursor_update: CursorUpdate { position: None, visible: None, char: None, style: None },
            reported_error: None,
        }
    }

    /// Queues new content for a zone (applied after the plugin returns) and requests a
    /// render.
    pub fn set_zone(&mut self, zone_id: String, content: String)
        ensures
            final(self).updates() == old(self).updates().push(
                ZoneUpdate { zone: zone_id, content, pre_rendered: false },
            ),
            final(self).redraw(),
            final(self).rects() == old(self).rects(),
            final(self).exit() == old(self).exit(),
            final(self).hint() == old(self).hint(),
            final(self).cursor() == old(self).cursor(),
            final(self).error() == old(self).error(),
    {
        self.zone_updates.push(ZoneUpdate { zone: zone_id, content, pre_rendered: false });
        self.redraw_requested = true;
    }

    /// Queues pre-rendered content for a zone (shown verbatim) and requests a render.
    pub fn set_zone_pre_rendered(&mut self, zone_id: String, content: String)
        ensures
            final(self).updates() == old(self).updates().push(
                ZoneUpdate { zone: zone_id, content, pre_rendered: true },
            ),
            final(self).redraw(),
            final(self).rects() == old(self).rects(),
            final(self).exit() == old(self).exit(),
            final(self).hint() == old(self).hint(),
            final(self).cursor() == old(self).cursor(),
            final(self).error() == old(self).error(),
    {
        self.zone_updates.push(ZoneUpdate { zone: zone_id, content, pre_rendered: true });
        self.redraw_requested = true;
    }

    /// Requests a render even if no zone changed.
    pub fn request_render(&mut self)
        ensures
            final(self).redraw(),
            final(self).updates() == old(self).updates(),
            final(self).rects() == old(self).rects(),
            final(self).exit() == old(self).exit(),
            final(self).hint() == old(self).hint(),
            final(self).cursor() == old(self).cursor(),
            final(self).error() == old(self).error(),
    {
        self.redraw_requested = true;
    }

    /// Asks the runtime to stop at the end of the frame.
    pub fn request_exit(&mut self)
        ensures
            final(self).exit(),
            final(self).redraw() == old(self).redraw(),
            final(self).updates() == old(self).updates(),
            final(self).rects() == old(self).rects(),
            final(self).hint() == old(self).hint(),
            final(self).cursor() == old(self).cursor(),
            final(self).error() == old(self).error(),
    {
        self.exit_requested = true;
    }

    /// Where the cursor goes after rendering: sets the hint and the cursor position.
    pub fn set_cursor_hint(&mut self, row: u16, col: u16)
        ensures
            final(self).hint() == Some((row, col)),
            final(self).cursor() == (CursorUpdate { position: Some((row, col)), ..old(self).cursor() }),
            final(self).redraw() == old(self).redraw(),
            final(self).updates() == old(self).updates(),
            final(self).rects() == old(self).rects(),
            final(self).exit() == old(self).exit(),
            final(self).error() == old(self).error(),
    {
        self.cursor_hint = Some((row, col));
        self.cursor_update.position = Some((row, col));
    }

    /// Positions the cursor at the given absolute coordinates.
    pub fn set_cursor_position(&mut self, row: u16, col: u16)
        ensures
            final(self).hint() == Some((row, col)),
            final(self).cursor() == (CursorUpdate { position: Some((row, col)), ..old(self).cursor() }),
            final(self).redraw() == old(self).redraw(),
            final(self).updates() == old(self).updates(),
            final(self).rects() == old(self).rects(),
            final(self).exit() == old(self).exit(),
            final(self).error() == old(self).error(),
    {
        self.set_cursor_hint(row, col);
    }

    /// The rectangle of `zone_id` (the first one listed), if solved.
    pub fn rect(&self, zone_id: &str) -> (r: Option<&Rect>)
        ensures
            r matches Some(rect) ==> exists|i: int|
                0 <= i < self.rects().len() && self.rects()[i].0 == zone_id@ && #[trigger] self.rects()[i].1
                    == *rect && forall|j: int| 0 <= j < i ==> self.rects()[j].0 != zone_id@,
            r is None ==> forall|i: int|
                0 <= i < self.rects().len() ==> #[trigger] self.rects()[i].0 != zone_id@,
    {
        let key = String::from_str(zone_id);
        let n = self.rects.len();
        let mut i: usize = 0;
        while i < n
            invariant
                n == self.rects.len(),
                i <= n,
                key@ == zone_id@,
                forall|j: int| 0 <= j < i ==> self.rects()[j].0 != zone_id@,
            decreases n - i,
        {
            if self.rects[i].0 == key {
                assert(self.rects()[i as int].0 == zone_id@);
                assert(self.rects()[i as int].1 == self.rects@[i as int].1);
                return Some(&self.rects[i].1);
            }
            i += 1;
        }
        None
    }

    /// Positions the cursor at (`row_offset`, `col_offset`) inside `zone_id`, clamped to
    /// the zone; nothing happens for an unknown or empty zone.
    pub fn set_cursor_in_zone(&mut self, zone_id: &str, row_offset: i32, col_offset: i32)
        requires
            forall|i: int|
                0 <= i < old(self).rects().len() && #[trigger] old(self).rects()[i].0 == zone_id@
                    && (forall|j: int| 0 <= j < i ==> old(self).rects()[j].0 != zone_id@)
                    && old(self).rects()[i].1.width > 0 && old(self).rects()[i].1.height > 0
                    ==> old(self).rects()[i].1.y + row_offset <= i32::MAX && old(self).rects()[i].1.x
                    + col_offset <= i32::MAX && old(self).rects()[i].1.y + row_offset >= i32::MIN
                    && old(self).rects()[i].1.x + col_offset >= i32::MIN,
        ensures
            final(self).redraw() == old(self).redraw(),
            final(self).updates() == old(self).updates(),
            final(self).rects() == old(self).rects(),
            final(self).exit() == old(self).exit(),
            final(self).error() == old(self).error(),
            (exists|i: int|
                0 <= i < old(self).rects().len() && #[trigger] old(self).rects()[i].0 == zone_id@
                    && old(self).rects()[i].1.width > 0 && old(self).rects()[i].1.height > 0
                    && (forall|j: int| 0 <= j < i ==> old(self).rects()[j].0 != zone_id@) && {
                    let cell = cell_in_rect(old(self).rects()[i].1, row_offset as int, col_offset as int);
                    &&& final(self).hint() == Some(cell)
                    &&& final(self).cursor() == (CursorUpdate { position: Some(cell), ..old(self).cursor() })
                }) || (final(self).hint() == old(self).hint() && final(self).cursor() == old(self).cursor()
                && forall|i: int|
                0 <= i < old(self).rects().len() && #[trigger] old(self).rects()[i].0 == zone_id@
                    && (forall|j: int| 0 <= j < i ==> old(self).rects()[j].0 != zone_id@) ==> (
                old(self).rects()[i].1.width == 0 || old(self).rects()[i].1.height == 0)),
    {
        let found = match self.rect(zone_id) {
            Some(r) => Some(*r),
            None => None,
        };
        if let Some(rect) = found {
            let row_min = rect.y as i32;
            let row_max = row_min + rect.height as i32 - 1;
            let col_min = rect.x as i32;
            let col_max = col_min + rect.width as i32 - 1;
            if row_max >= row_min && col_max >= col_min {
                let r0 = row_min + row_offset;
                let c0 = col_min + col_offset;
                let row = if r0 < row_min {
                    row_min
                } else if r0 > row_max {
                    row_max
                } else {
                    r0
                };
                let col = if c0 < col_min {
                    col_min
                } else if c0 > col_max {
                    col_max
                } else {
                    c0
                };
                if row >= 0 && col >= 0 {
                    self.set_cursor_hint(row as u16, col as u16);
                }
            }
        }
    }

    /// Hides the cursor after the next render.
    pub fn hide_cursor(&mut self)
        ensures
            final(self).cursor() == (CursorUpdate { visible: Some(false), ..old(self).cursor() }),
            final(self).hint() == old(self).hint(),
            final(self).redraw() == old(self).redraw(),
            final(self).updates() == old(self).updates(),
            final(self).rects() == old(self).rects(),
            final(self).exit() == old(self).exit(),
            final(self).error() == old(self).error(),
    {
        self.cursor_update.visible = Some(false);
    }

    /// Shows the cursor after the next render.
    pub fn show_cursor(&mut self)
        ensures
            final(self).cursor() == (CursorUpdate { visible: Some(true), ..old(self).cursor() }),
            final(self).hint() == old(self).hint(),
            final(self).redraw() == old(self).redraw(),
            final(self).updates() == old(self).updates(),
            final(self).rects() == old(self).rects(),
            final(self).exit() == old(self).exit(),
            final(self).error() == old(self).error(),
    {
        self.cursor_update.visible = Some(true);
    }

    /// Overrides the cursor glyph (`None` restores the default glyph).
    pub fn set_cursor_char(&mut self, ch: Option<char>)
        ensures
            final(self).cursor() == (CursorUpdate { char: Some(ch), ..old(self).cursor() }),
            final(self).hint() == old(self).hint(),
            final(self).redraw() == old(self).redraw(),
            final(self).updates() == old(self).updates(),
            final(self).rects() == old(self).rects(),
            final(self).exit() == old(self).exit(),
            final(self).error() == old(self).error(),
    {
        self.cursor_update.char = Some(ch);
    }

    /// Applies a style to the cursor (`None` clears it).
    pub fn set_cursor_style(&mut self, style: Option<CursorStyle>)
        ensures
            final(self).cursor() == (CursorUpdate { style: Some(style), ..old(self).cursor() }),
            final(self).hint() == old(self).hint(),
            final(self).redraw() == old(self).redraw(),
            final(self).updates() == old(self).updates(),
            final(self).rects() == old(self).rects(),
            final(self).exit() == old(self).exit(),
            final(self).error() == old(self).error(),
    {
        self.cursor_update.style = Some(style);
    }

    /// Reports a runtime error; the latest report of a hook wins.
    pub fn report_error(&mut self, error: RuntimeError)
        ensures
            final(self).error() == Some(error),
            final(self).cursor() == old(self).cursor(),
            final(self).hint() == old(self).hint(),
            final(self).redraw() == old(self).redraw(),
            final(self).updates() == old(self).updates(),
            final(self).rects() == old(self).rects(),
            final(self).exit() == old(self).exit(),
    {
        self.reported_error = Some(error);
    }

    /// Everything the plugin requested.
    pub fn into_outcome(self) -> (r: ContextOutcome)
        ensures
            r.zone_updates@ == self.updates(),
            r.redraw_requested == self.redraw(),
            r.exit_requested == self.exit(),
            r.cursor_hint == self.hint(),
            r.cursor_update == self.cursor(),
            r.error == self.error(),
    {
        ContextOutcome {
            zone_updates: self.zone_updates,
            redraw_requested: self.redraw_requested,
            exit_requested: self.exit_requested,
            cursor_hint: self.cursor_hint,
            cursor_update: self.cursor_update,
            error: self.reported_error,
        }
    }
}

/// The cursor after `update`: each aspect the update sets is replaced.
pub open spec fn cursor_after(current: CursorView, update: CursorUpdate) -> CursorView {
    CursorView {
        position: match update.position {
            Some(p) => p,
            None => current.position,
        },
        visible: match update.visible {
            Some(v) => v,
            None => current.visible,
        },
        char: match update.char {
            Some(c) => c,
            None => current.char,
        },
        style: match update.style {
            Some(s) => style_view(s),
            None => current.style,
        },
    }
}

/// Events for `update` applied to `current`: `Moved` when the position changed or the
/// glyph or style was set, then `Shown` or `Hidden` when visibility flipped.
pub open spec fn cursor_events(current: CursorView, update: CursorUpdate) -> Seq<CursorEventView> {
    let next = cursor_after(current, update);
    let moved = if next.position != current.position || update.char is Some || update.style is Some {
        seq![CursorEventView::Moved(next)]
    } else {
        Seq::empty()
    };
    let shown = if !current.visible && next.visible {
        seq![CursorEventView::Shown(next)]
    } else if current.visible && !next.visible {
        seq![CursorEventView::Hidden(next)]
    } else {
        Seq::empty()
    };
    moved + shown
}

/// Events read as plain values.
pub open spec fn event_views(v: Seq<CursorEvent>) -> Seq<CursorEventView> {
    v.map_values(|e: CursorEvent| e@)
}

/// Tracks the cursor and reports how requested updates change it.
pub struct CursorManager {
    current: Cursor,
}

impl CursorManager {
    /// The tracked cursor.
    pub closed spec fn cursor(&self) -> CursorView {
        self.current@
    }

    /// Tracks the default cursor.
    pub fn new() -> (r: Self)
        ensures
            r.cursor().position == (0u16, 0u16),
            r.cursor().visible,
            r.cursor().char is None,
            r.cursor().style is None,
    {
        CursorManager { current: Cursor::default() }
    }

    /// Applies `update`: an empty update changes nothing and reports nothing; otherwise
    /// the cursor becomes `cursor_after` and the changes are reported as `cursor_events`.
    pub fn apply_update(&mut self, update: &CursorUpdate) -> (r: Vec<CursorEvent>)
        ensures
            update.spec_empty() ==> r@ == Seq::<CursorEvent>::empty() && final(self).cursor()
                == old(self).cursor(),
            !update.spec_empty() ==> event_views(r@) == cursor_events(old(self).cursor(), *update)
                && final(self).cursor() == cursor_after(old(self).cursor(), *update),
    {
        if update.is_empty() {
            return Vec::new();
        }
        let mut next = self.current.clone();
        if let Some(position) = update.position {
            next.position = position;
        }
        if let Some(visible) = update.visible {
            next.visible = visible;
        }
        if let Some(char_update) = update.char {
            next.char = char_update;
        }
        match &update.style {
            Some(style_update) => {
                next.style = clone_style_option(style_update);
            },
            None => {},
        }
        assert(next@ == cursor_after(self.current@, *update));
        let mut events: Vec<CursorEvent> = Vec::new();
        if next.position.0 != self.current.position.0 || next.position.1 != self.current.position.1
            || update.char.is_some() || update.style.is_some() {
            events.push(CursorEvent::Moved(next.clone()));
        }
        if !self.current.visible && next.visible {
            events.push(CursorEvent::Shown(next.clone()));
        } else if self.current.visible && !next.visible {
            events.push(CursorEvent::Hidden(next.clone()));
        }
        assert(event_views(events@) =~= cursor_events(self.current@, *update));
        self.current = next;
        events
    }
}

} // verus!

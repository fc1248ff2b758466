//! The runtime's decision state: solved rectangles, the zone registry, the renderer
//! settings, lifecycle flags, and the queues of cursor events, focus changes and
//! errors waiting to be announced. The coordinator around it calls the plugins and
//! performs the I/O; every state change goes through the methods here.
use vstd::prelude::*;

use super::audit::RuntimeAuditStage;
use super::focus::{entry_view, FocusEntry};
use super::{
    cursor_after, cursor_events, event_views, ContextOutcome, CursorEvent, CursorEventView,
    CursorManager, CursorView, EventFlow, FocusChange, FocusTarget, RuntimeError, ZoneUpdate,
};
use crate::error::LayoutError;
use crate::geometry::{Rect, Size};
use crate::registry::{
    apply_view, lemma_applied_view, solved_ids, zone_views, ZoneRegistry, ZoneState, ZoneView,
};
use crate::render::{drawable, frame_text, AnsiRenderer, RendererSettings};
use crate::tokens::lex_lt;

verus! {

/// A rectangle the renderer can draw without its row or column numbers leaving
/// 16 bits.
pub open spec fn rect_drawable(rect: Rect) -> bool {
    rect.width == 0 || rect.height == 0 || (rect.y + rect.height <= u16::MAX && rect.x < u16::MAX)
}

/// Solved rectangles the runtime can hold: each zone once, each drawable.
pub open spec fn layout_fits(rects: Seq<(String, Rect)>) -> bool {
    &&& solved_ids(rects).no_duplicates()
    &&& forall|i: int| 0 <= i < rects.len() ==> rect_drawable(#[trigger] rects[i].1)
}

/// A cursor position the renderer can move to (its 1-based row and column fit 16 bits).
pub open spec fn position_fits(p: Option<(u16, u16)>) -> bool {
    p matches Some((row, col)) ==> row < u16::MAX && col < u16::MAX
}

/// An outcome whose cursor requests the renderer can carry out.
pub open spec fn outcome_fits(o: ContextOutcome) -> bool {
    position_fits(o.cursor_hint) && position_fits(o.cursor_update.position)
}

/// A zone update read as plain values: (zone, content, pre-rendered).
pub open spec fn update_view(u: ZoneUpdate) -> (Seq<char>, Seq<char>, bool) {
    (u.zone@, u.content@, u.pre_rendered)
}

pub open spec fn update_views(v: Seq<ZoneUpdate>) -> Seq<(Seq<char>, Seq<char>, bool)> {
    v.map_values(|u: ZoneUpdate| update_view(u))
}

/// Zones after applying `ups` in order, and the first zone that was not known (the
/// updates after it are not applied).
pub open spec fn updates_result(
    zones: Map<Seq<char>, ZoneView>,
    ups: Seq<(Seq<char>, Seq<char>, bool)>,
) -> (Map<Seq<char>, ZoneView>, Option<Seq<char>>)
    decreases ups.len(),
{
    if ups.len() == 0 {
        (zones, None)
    } else {
        let (m, missing) = updates_result(zones, ups.drop_last());
        let u = ups.last();
        if missing is Some {
            (m, missing)
        } else if !m.contains_key(u.0) {
            (m, Some(u.0))
        } else {
            (m.insert(u.0, apply_view(m[u.0], u.1, u.2)), None)
        }
    }
}

/// Where the cursor is restored after an outcome: the update's position, else the
/// hint, else where it was.
pub open spec fn restore_after(before: Option<(u16, u16)>, o: ContextOutcome) -> Option<(u16, u16)> {
    if !o.cursor_update.spec_empty() && o.cursor_update.position is Some {
        o.cursor_update.position
    } else if o.cursor_hint is Some {
        o.cursor_hint
    } else {
        before
    }
}

/// The cursor visibility requested after an outcome.
pub open spec fn visibility_after(before: Option<bool>, o: ContextOutcome) -> Option<bool> {
    if !o.cursor_update.spec_empty() && o.cursor_update.visible is Some {
        o.cursor_update.visible
    } else {
        before
    }
}

/// A focus target read as plain values: (owner, zone).
pub open spec fn target_view(t: Option<FocusTarget>) -> Option<(Option<Seq<char>>, Seq<char>)> {
    match t {
        Some(f) => Some(
            (
                match f.owner {
                    Some(o) => Some(o@),
                    None => None,
                },
                f.zone@,
            ),
        ),
        None => None,
    }
}

/// The focus target of a focus entry.
pub open spec fn entry_target(e: Option<(Seq<char>, Seq<char>)>) -> Option<(Option<Seq<char>>, Seq<char>)> {
    match e {
        Some((o, z)) => Some((Some(o), z)),
        None => None,
    }
}

/// A focus change read as plain values: (from, to).
pub open spec fn change_view(c: FocusChange) -> (
    Option<(Option<Seq<char>>, Seq<char>)>,
    Option<(Option<Seq<char>>, Seq<char>)>,
) {
    (target_view(c.from), target_view(c.to))
}

pub open spec fn change_views(v: Seq<FocusChange>) -> Seq<
    (Option<(Option<Seq<char>>, Seq<char>)>, Option<(Option<Seq<char>>, Seq<char>)>),
> {
    v.map_values(|c: FocusChange| change_view(c))
}

/// What the coordinator still has to do after an outcome was applied.
pub struct AppliedOutcome {
    /// How many zone updates were applied.
    pub zone_updates: usize,
    /// The exit request is the first one: the user-end hooks must run now.
    pub user_end: bool,
    pub exit_requested: bool,
    pub error: Option<RuntimeError>,
}

/// The runtime's decision state.
pub struct RuntimeCore {
    rects: Vec<(String, Rect)>,
    registry: ZoneRegistry,
    renderer: AnsiRenderer,
    current_size: Size,
    should_exit: bool,
    redraw_requested: bool,
    user_ready_emitted: bool,
    user_end_emitted: bool,
    fatal_active: bool,
    cursor_manager: CursorManager,
    pending_cursor_events: Vec<CursorEvent>,
    pending_focus_changes: Vec<FocusChange>,
    pending_errors: Vec<RuntimeError>,
    last_focus_entry: Option<FocusEntry>,
}

/// Whether `rects` can be handed to the runtime: each zone once, each drawable.
pub fn check_layout(rects: &Vec<(String, Rect)>) -> (r: bool)
    ensures
        r == layout_fits(rects@),
{
    let n = rects.len();
    let mut i: usize = 0;
    while i < n
        invariant
            n == rects.len(),
            i <= n,
            forall|a: int| 0 <= a < i ==> rect_drawable(#[trigger] rects@[a].1),
            forall|a: int, b: int|
                0 <= a < i && 0 <= b < n && a != b ==> solved_ids(rects@)[a] != solved_ids(
                    rects@,
                )[b],
        decreases n - i,
    {
        let r = rects[i].1;
        if !(r.width == 0 || r.height == 0 || (r.height <= u16::MAX - r.y && r.x < u16::MAX)) {
            return false;
        }
        let mut j: usize = 0;
        while j < n
            invariant
                n == rects.len(),
                i < n,
                j <= n,
                forall|b: int| 0 <= b < j && b != i ==> solved_ids(rects@)[i as int] != solved_ids(
                    rects@,
                )[b],
            decreases n - j,
        {
            if j != i && rects[j].0 == rects[i].0 {
                assert(solved_ids(rects@)[i as int] == solved_ids(rects@)[j as int]);
                assert(!solved_ids(rects@).no_duplicates());
                return false;
            }
            j += 1;
        }
        i += 1;
    }
    true
}

impl RuntimeCore {
    pub closed spec fn rects_view(&self) -> Seq<(String, Rect)> {
        self.rects@
    }

    pub closed spec fn zones(&self) -> Map<Seq<char>, ZoneState> {
        self.registry.zones()
    }

    pub closed spec fn dirty_ids(&self) -> Seq<Seq<char>> {
        self.registry.dirty_ids()
    }

    pub closed spec fn settings(&self) -> RendererSettings {
        self.renderer.settings()
    }

    pub closed spec fn size(&self) -> Size {
        self.current_size
    }

    pub closed spec fn exit_flag(&self) -> bool {
        self.should_exit
    }

    pub closed spec fn redraw(&self) -> bool {
        self.redraw_requested
    }

    pub closed spec fn user_ready(&self) -> bool {
        self.user_ready_emitted
    }

    pub closed spec fn user_end(&self) -> bool {
        self.user_end_emitted
    }

    pub closed spec fn fatal(&self) -> bool {
        self.fatal_active
    }

    pub closed spec fn cursor(&self) -> CursorView {
        self.cursor_manager.cursor()
    }

    pub closed spec fn pending_cursor(&self) -> Seq<CursorEventView> {
        event_views(self.pending_cursor_events@)
    }

    pub closed spec fn pending_focus(&self) -> Seq<
        (Option<(Option<Seq<char>>, Seq<char>)>, Option<(Option<Seq<char>>, Seq<char>)>),
    > {
        change_views(self.pending_focus_changes@)
    }

    pub closed spec fn pending_errors(&self) -> Seq<RuntimeError> {
        self.pending_errors@
    }

    pub closed spec fn last_focus(&self) -> Option<(Seq<char>, Seq<char>)> {
        entry_view(self.last_focus_entry)
    }

    /// The id of the `i`-th dirty zone, as the registry holds it.
    pub closed spec fn dirty_state_name(&self, i: int) -> String {
        self.registry.dirty_name(i)
    }

    /// The state invariant: a consistent registry whose zones are those of the solved
    /// rectangles and are all drawable, and a restore position the renderer can reach.
    pub closed spec fn wf(&self) -> bool {
        &&& self.registry.wf()
        &&& layout_fits(self.rects@)
        &&& forall|k: Seq<char>| #[trigger]
            self.registry.zones().contains_key(k) ==> rect_drawable(self.registry.zones()[k].rect)
        &&& position_fits(self.renderer.settings().restore_cursor)
    }

    /// In a well-formed state the dirty list names each zone whose state is dirty,
    /// exactly once, and no other: the zones the next frame draws.
    pub proof fn lemma_dirty_list_matches(&self)
        requires
            self.wf(),
        ensures
            self.dirty_ids().no_duplicates(),
            forall|k: Seq<char>|
                #[trigger] self.dirty_ids().contains(k) <==> (self.zones().contains_key(k)
                    && self.zones()[k].is_dirty),
    {
        self.registry.lemma_dirty_list_matches();
    }

    /// Syncs the registry to `rects`; every zone keeps its drawable rectangle.
    fn sync(&mut self)
        requires
            old(self).registry.wf(),
            layout_fits(old(self).rects@),
        ensures
            final(self).registry.wf(),
            final(self).rects == old(self).rects,
            forall|k: Seq<char>| #[trigger]
                final(self).registry.zones().contains_key(k) ==> rect_drawable(
                    final(self).registry.zones()[k].rect,
                ),
            forall|k: Seq<char>|
                final(self).registry.zones().contains_key(k) <==> #[trigger] solved_ids(
                    old(self).rects@,
                ).contains(k),
            forall|i: int|
                0 <= i < old(self).rects.len() ==> crate::registry::synced(
                    old(self).registry.zones(),
                    (#[trigger] old(self).rects@[i]).0@,
                    old(self).rects@[i].1,
                    final(self).registry.zones()[old(self).rects@[i].0@],
                ),
            final(self).renderer == old(self).renderer,
            final(self).current_size == old(self).current_size,
            final(self).should_exit == old(self).should_exit,
            final(self).redraw_requested == old(self).redraw_requested,
            final(self).user_ready_emitted == old(self).user_ready_emitted,
            final(self).user_end_emitted == old(self).user_end_emitted,
            final(self).fatal_active == old(self).fatal_active,
            final(self).cursor_manager == old(self).cursor_manager,
            final(self).pending_cursor_events == old(self).pending_cursor_events,
            final(self).pending_focus_changes == old(self).pending_focus_changes,
            final(self).pending_errors == old(self).pending_errors,
            final(self).last_focus_entry == old(self).last_focus_entry,
    {
        self.registry.sync_layout(&self.rects);
        assert forall|k: Seq<char>| #[trigger]
            self.registry.zones().contains_key(k) implies rect_drawable(
            self.registry.zones()[k].rect,
        ) by {
            assert(solved_ids(self.rects@).contains(k));
            let i = choose|i: int| 0 <= i < self.rects@.len() && solved_ids(self.rects@)[i] == k;
            assert(self.rects@[i].0@ == k);
            assert(rect_drawable(self.rects@[i].1));
        }
    }

    /// A runtime state for a layout solved to `rects` at `size`: every zone fresh and
    /// dirty, a first render requested, no flag raised, nothing pending.
    pub fn new(rects: Vec<(String, Rect)>, size: Size, renderer: AnsiRenderer) -> (r: Self)
        requires
            layout_fits(rects@),
            position_fits(renderer.settings().restore_cursor),
        ensures
            r.wf(),
            r.rects_view() == rects@,
            forall|k: Seq<char>| r.zones().contains_key(k) <==> #[trigger] solved_ids(rects@).contains(k),
            forall|i: int|
                0 <= i < rects.len() ==> r.zones()[(#[trigger] rects@[i]).0@].fresh(rects@[i].1),
            r.settings() == renderer.settings(),
            r.size() == size,
            !r.exit_flag(),
            r.redraw(),
            !r.user_ready(),
            !r.user_end(),
            !r.fatal(),
            r.cursor().position == (0u16, 0u16),
            r.cursor().visible,
            r.cursor().char is None,
            r.cursor().style is None,
            r.pending_cursor() == Seq::<CursorEventView>::empty(),
            r.pending_focus().len() == 0,
            r.pending_errors() == Seq::<RuntimeError>::empty(),
            r.last_focus() is None,
    {
        let mut core = RuntimeCore {
            rects,
            registry: ZoneRegistry::new(),
            renderer,
            current_size: size,
            should_exit: false,
            redraw_requested: true,
            user_ready_emitted: false,
            user_end_emitted: false,
            fatal_active: false,
            cursor_manager: CursorManager::new(),
            pending_cursor_events: Vec::new(),
            pending_focus_changes: Vec::new(),
            pending_errors: Vec::new(),
            last_focus_entry: None,
        };
        core.sync();
        assert(core.pending_cursor() =~= Seq::<CursorEventView>::empty());
        core
    }

    /// Takes a layout solved to `rects` at `size`: zones are synced (kept, moved or
    /// created as `ZoneRegistry::sync_layout` says) and a render is requested.
    pub fn set_layout(&mut self, size: Size, rects: Vec<(String, Rect)>)
        requires
            old(self).wf(),
            layout_fits(rects@),
        ensures
            final(self).wf(),
            final(self).rects_view() == rects@,
            final(self).size() == size,
            forall|k: Seq<char>|
                final(self).zones().contains_key(k) <==> #[trigger] solved_ids(rects@).contains(k),
            forall|i: int|
                0 <= i < rects.len() ==> crate::registry::synced(
                    old(self).zones(),
                    (#[trigger] rects@[i]).0@,
                    rects@[i].1,
                    final(self).zones()[rects@[i].0@],
                ),
            final(self).redraw(),
            final(self).settings() == old(self).settings(),
            final(self).exit_flag() == old(self).exit_flag(),
            final(self).user_ready() == old(self).user_ready(),
            final(self).user_end() == old(self).user_end(),
            final(self).fatal() == old(self).fatal(),
            final(self).cursor() == old(self).cursor(),
            final(self).pending_cursor() == old(self).pending_cursor(),
            final(self).pending_focus() == old(self).pending_focus(),
            final(self).pending_errors() == old(self).pending_errors(),
            final(self).last_focus() == old(self).last_focus(),
    {
        self.current_size = size;
        self.rects = rects;
        self.sync();
        self.redraw_requested = true;
    }

    /// Resets the lifecycle for a new bootstrap: no exit, a render requested, user
    /// ready and user end not yet announced, no fatal error, nothing pending, no focus
    /// seen.
    pub fn reset_for_bootstrap(&mut self)
        requires
            old(self).wf(),
        ensures
            final(self).wf(),
            !final(self).exit_flag(),
            final(self).redraw(),
            !final(self).user_ready(),
            !final(self).user_end(),
            !final(self).fatal(),
            final(self).pending_cursor() == Seq::<CursorEventView>::empty(),
            final(self).pending_focus().len() == 0,
            final(self).pending_errors() == Seq::<RuntimeError>::empty(),
            final(self).last_focus() is None,
            final(self).rects_view() == old(self).rects_view(),
            final(self).zones() == old(self).zones(),
            final(self).dirty_ids() == old(self).dirty_ids(),
            final(self).settings() == old(self).settings(),
            final(self).size() == old(self).size(),
            final(self).cursor() == old(self).cursor(),
    {
        self.should_exit = false;
        self.redraw_requested = true;
        self.user_ready_emitted = false;
        self.user_end_emitted = false;
        self.fatal_active = false;
        self.pending_cursor_events = Vec::new();
        self.pending_focus_changes = Vec::new();
        self.pending_errors = Vec::new();
        self.last_focus_entry = None;
        assert(self.pending_cursor() =~= Seq::<CursorEventView>::empty());
    }

    /// The solved rectangles, for the contexts handed to plugins.
    pub fn rects(&self) -> (r: &Vec<(String, Rect)>)
        ensures
            r@ == self.rects_view(),
    {
        &self.rects
    }

    /// The terminal size the layout was last solved for.
    pub fn current_size(&self) -> (r: Size)
        ensures
            r == self.size(),
    {
        self.current_size
    }

    /// Whether the runtime should stop after the current frame.
    pub fn should_exit(&self) -> (r: bool)
        ensures
            r == self.exit_flag(),
    {
        self.should_exit
    }

    /// Whether an unrecovered error ended the session.
    pub fn fatal_active(&self) -> (r: bool)
        ensures
            r == self.fatal(),
    {
        self.fatal_active
    }

    /// The number of zones of the current layout.
    pub fn zone_count(&self) -> (r: usize)
        ensures
            r == self.rects_view().len(),
    {
        self.rects.len()
    }

    /// Stops the runtime after the current frame.
    pub fn request_exit(&mut self)
        ensures
            final(self).exit_flag(),
            final(self).wf() == old(self).wf(),
            final(self).zones() == old(self).zones(),
            final(self).redraw() == old(self).redraw(),
            final(self).fatal() == old(self).fatal(),
    {
        self.should_exit = true;
    }
}

impl RuntimeCore {
    /// The stages recorded when the runtime cleans up: `FatalCleanup` first after a
    /// fatal error, then `Cleanup`.
    pub fn cleanup_stages(&self) -> (r: Vec<RuntimeAuditStage>)
        ensures
            r@ == if self.fatal() {
                seq![RuntimeAuditStage::FatalCleanup, RuntimeAuditStage::Cleanup]
            } else {
                seq![RuntimeAuditStage::Cleanup]
            },
    {
        let mut v: Vec<RuntimeAuditStage> = Vec::new();
        if self.fatal_active {
            v.push(RuntimeAuditStage::FatalCleanup);
        }
        v.push(RuntimeAuditStage::Cleanup);
        assert(v@ =~= if self.fatal() {
            seq![RuntimeAuditStage::FatalCleanup, RuntimeAuditStage::Cleanup]
        } else {
            seq![RuntimeAuditStage::Cleanup]
        });
        v
    }

    /// The stages recorded when the session closes: `FatalClose` first after a fatal
    /// error, then `Close`.
    pub fn close_stages(&self) -> (r: Vec<RuntimeAuditStage>)
        ensures
            r@ == if self.fatal() {
                seq![RuntimeAuditStage::FatalClose, RuntimeAuditStage::Close]
            } else {
                seq![RuntimeAuditStage::Close]
            },
    {
        let mut v: Vec<RuntimeAuditStage> = Vec::new();
        if self.fatal_active {
            v.push(RuntimeAuditStage::FatalClose);
        }
        v.push(RuntimeAuditStage::Close);
        assert(v@ =~= if self.fatal() {
            seq![RuntimeAuditStage::FatalClose, RuntimeAuditStage::Close]
        } else {
            seq![RuntimeAuditStage::Close]
        });
        v
    }

    /// The stage that ends a bounded simulated loop: aborted after a fatal error,
    /// complete otherwise.
    pub fn simulated_end_stage(&self) -> (r: RuntimeAuditStage)
        ensures
            r == if self.fatal() {
                RuntimeAuditStage::LoopSimulatedAborted
            } else {
                RuntimeAuditStage::LoopSimulatedComplete
            },
    {
        if self.fatal_active {
            RuntimeAuditStage::LoopSimulatedAborted
        } else {
            RuntimeAuditStage::LoopSimulatedComplete
        }
    }
}

/// Once an update names an unknown zone, later updates change nothing.
proof fn lemma_updates_missing_persists(
    zones: Map<Seq<char>, ZoneView>,
    ups: Seq<(Seq<char>, Seq<char>, bool)>,
    k: int,
)
    requires
        0 <= k <= ups.len(),
        updates_result(zones, ups.take(k)).1 is Some,
    ensures
        updates_result(zones, ups) == updates_result(zones, ups.take(k)),
    decreases ups.len() - k,
{
    if k < ups.len() {
        assert(ups.take(k + 1).drop_last() =~= ups.take(k));
        lemma_updates_missing_persists(zones, ups, k + 1);
    } else {
        assert(ups.take(k) =~= ups);
    }
}

/// The zones after an outcome's updates.
pub open spec fn outcome_zones(zones: Map<Seq<char>, ZoneState>, o: ContextOutcome) -> Map<
    Seq<char>,
    ZoneView,
> {
    updates_result(zone_views(zones), update_views(o.zone_updates@)).0
}

/// The first unknown zone an outcome's updates name, if any.
pub open spec fn outcome_missing(zones: Map<Seq<char>, ZoneState>, o: ContextOutcome) -> Option<
    Seq<char>,
> {
    updates_result(zone_views(zones), update_views(o.zone_updates@)).1
}

impl RuntimeCore {
    /// The parts of the state an outcome never touches.
    pub open spec fn keeps_lifecycle(&self, before: &Self) -> bool {
        &&& self.rects_view() == before.rects_view()
        &&& self.size() == before.size()
        &&& self.exit_flag() == before.exit_flag()
        &&& self.user_ready() == before.user_ready()
        &&& self.fatal() == before.fatal()
        &&& self.pending_focus() == before.pending_focus()
        &&& self.pending_errors() == before.pending_errors()
        &&& self.last_focus() == before.last_focus()
    }

    /// Applies what one plugin hook requested. The zone updates are applied in order;
    /// the first one that names an unknown zone fails with `ZoneNotFound` and nothing
    /// after it is applied. Otherwise a render is requested when a zone was updated or a
    /// render was asked for; the cursor hint and the cursor update move the restore
    /// position, the update sets the visibility and its cursor events are queued; and
    /// the first exit request marks the user end, which the caller announces before it
    /// settles the rest of the outcome.
    pub fn apply_outcome(&mut self, outcome: ContextOutcome) -> (r: Result<AppliedOutcome, LayoutError>)
        requires
            old(self).wf(),
            outcome_fits(outcome),
        ensures
            final(self).wf(),
            final(self).keeps_lifecycle(old(self)),
            zone_views(final(self).zones()) == outcome_zones(old(self).zones(), outcome),
            match outcome_missing(old(self).zones(), outcome) {
                Some(z) => {
                    &&& r matches Err(LayoutError::ZoneNotFound(e)) && e@ == z
                    &&& final(self).redraw() == old(self).redraw()
                    &&& final(self).user_end() == old(self).user_end()
                    &&& final(self).settings() == old(self).settings()
                    &&& final(self).cursor() == old(self).cursor()
                    &&& final(self).pending_cursor() == old(self).pending_cursor()
                },
                None => {
                    &&& r matches Ok(a) && {
                        &&& a.zone_updates == outcome.zone_updates.len()
                        &&& a.exit_requested == outcome.exit_requested
                        &&& a.error == outcome.error
                        &&& a.user_end == (outcome.exit_requested && !old(self).user_end())
                    }
                    &&& final(self).user_end() == (old(self).user_end() || outcome.exit_requested)
                    &&& final(self).redraw() == (old(self).redraw() || outcome.zone_updates.len() > 0
                        || outcome.redraw_requested)
                    &&& final(self).settings().restore_cursor == restore_after(
                        old(self).settings().restore_cursor,
                        outcome,
                    )
                    &&& final(self).settings().cursor_visible == visibility_after(
                        old(self).settings().cursor_visible,
                        outcome,
                    )
                    &&& outcome.cursor_update.spec_empty() ==> final(self).cursor() == old(
                        self,
                    ).cursor() && final(self).pending_cursor() == old(self).pending_cursor()
                    &&& !outcome.cursor_update.spec_empty() ==> final(self).cursor() == cursor_after(
                        old(self).cursor(),
                        outcome.cursor_update,
                    ) && final(self).pending_cursor() == old(self).pending_cursor() + cursor_events(
                        old(self).cursor(),
                        outcome.cursor_update,
                    )
                },
            },
    {
        let ContextOutcome {
            zone_updates,
            redraw_requested,
            exit_requested,
            cursor_hint,
            cursor_update,
            error,
        } = outcome;
        let n = zone_updates.len();
        let ghost z0 = zone_views(self.registry.zones());
        let ghost ups = update_views(zone_updates@);
        assert(ups.take(0) =~= Seq::<(Seq<char>, Seq<char>, bool)>::empty());
        let mut i: usize = 0;
        while i < n
            invariant
                n == zone_updates.len(),
                i <= n,
                old(self).wf(),
                zone_updates@ == outcome.zone_updates@,
                ups == update_views(zone_updates@),
                z0 == zone_views(old(self).registry.zones()),
                self.registry.wf(),
                updates_result(z0, ups.take(i as int)) == (
                    zone_views(self.registry.zones()),
                    None::<Seq<char>>,
                ),
                forall|k: Seq<char>| #[trigger]
                    self.registry.zones().contains_key(k) ==> rect_drawable(
                        self.registry.zones()[k].rect,
                    ),
                self.rects == old(self).rects,
                self.renderer == old(self).renderer,
                self.current_size == old(self).current_size,
                self.should_exit == old(self).should_exit,
                self.redraw_requested == old(self).redraw_requested,
                self.user_ready_emitted == old(self).user_ready_emitted,
                self.user_end_emitted == old(self).user_end_emitted,
                self.fatal_active == old(self).fatal_active,
                self.cursor_manager == old(self).cursor_manager,
                self.pending_cursor_events == old(self).pending_cursor_events,
                self.pending_focus_changes == old(self).pending_focus_changes,
                self.pending_errors == old(self).pending_errors,
                self.last_focus_entry == old(self).last_focus_entry,
            decreases n - i,
        {
            let ghost before = self.registry.zones();
            let u = &zone_updates[i];
            let ghost uv = update_view(*u);
            assert(ups.take(i as int + 1).drop_last() =~= ups.take(i as int));
            assert(ups.take(i as int + 1).last() == uv);
            let res = if u.pre_rendered {
                self.registry.apply_pre_rendered(&u.zone, u.content.clone())
            } else {
                self.registry.apply_content(&u.zone, u.content.clone())
            };
            match res {
                Err(e) => {
                    proof {
                        assert(!before.contains_key(uv.0));
                        assert(self.registry.zones() == before);
                        assert(!zone_views(before).contains_key(uv.0));
                        assert(updates_result(z0, ups.take(i as int + 1)).1 == Some(uv.0));
                        lemma_updates_missing_persists(z0, ups, i as int + 1);
                    }
                    return Err(e);
                },
                Ok(()) => {
                    proof {
                        let after = self.registry.zones();
                        lemma_applied_view(after[uv.0], before[uv.0], uv.1, uv.2);
                        assert(zone_views(after) =~= zone_views(before).insert(
                            uv.0,
                            apply_view(zone_views(before)[uv.0], uv.1, uv.2),
                        ));
                        assert forall|k: Seq<char>| #[trigger]
                            after.contains_key(k) implies rect_drawable(after[k].rect) by {
                            assert(before.contains_key(k));
                        }
                    }
                },
            }
            i += 1;
        }
        assert(ups.take(n as int) =~= ups);
        if n > 0 {
            self.redraw_requested = true;
        }
        if redraw_requested {
            self.redraw_requested = true;
        }
        if let Some(c) = cursor_hint {
            self.renderer.settings_mut().restore_cursor = Some(c);
        }
        if !cursor_update.is_empty() {
            if let Some(p) = cursor_update.position {
                self.renderer.settings_mut().restore_cursor = Some(p);
            }
            if let Some(v) = cursor_update.visible {
                self.renderer.settings_mut().cursor_visible = Some(v);
            }
            let mut events = self.cursor_manager.apply_update(&cursor_update);
            let ghost pending = self.pending_cursor_events@;
            let ghost fresh = events@;
            self.pending_cursor_events.append(&mut events);
            assert(event_views(self.pending_cursor_events@) =~= event_views(pending) + event_views(
                fresh,
            ));
        }
        let user_end = exit_requested && !self.user_end_emitted;
        if user_end {
            self.user_end_emitted = true;
        }
        Ok(AppliedOutcome { zone_updates: n, user_end, exit_requested, error })
    }

    /// Settles the rest of an applied outcome, after the user-end hooks ran: an exit
    /// request stops the runtime and a reported error is queued.
    pub fn settle_outcome(&mut self, applied: AppliedOutcome)
        requires
            old(self).wf(),
        ensures
            final(self).wf(),
            final(self).exit_flag() == (old(self).exit_flag() || applied.exit_requested),
            final(self).pending_errors() == match applied.error {
                Some(e) => old(self).pending_errors().push(e),
                None => old(self).pending_errors(),
            },
            final(self).rects_view() == old(self).rects_view(),
            final(self).zones() == old(self).zones(),
            final(self).dirty_ids() == old(self).dirty_ids(),
            final(self).settings() == old(self).settings(),
            final(self).size() == old(self).size(),
            final(self).redraw() == old(self).redraw(),
            final(self).user_ready() == old(self).user_ready(),
            final(self).user_end() == old(self).user_end(),
            final(self).fatal() == old(self).fatal(),
            final(self).cursor() == old(self).cursor(),
            final(self).pending_cursor() == old(self).pending_cursor(),
            final(self).pending_focus() == old(self).pending_focus(),
            final(self).last_focus() == old(self).last_focus(),
    {
        if applied.exit_requested {
            self.should_exit = true;
        }
        if let Some(e) = applied.error {
            self.pending_errors.push(e);
        }
    }

    /// Compares the focus the plugins left with the last one seen; a difference is
    /// queued as a focus change (with the owners as targets' owners) and remembered.
    pub fn observe_focus(&mut self, current: Option<FocusEntry>) -> (changed: bool)
        requires
            old(self).wf(),
        ensures
            final(self).wf(),
            changed == (entry_view(current) != old(self).last_focus()),
            final(self).last_focus() == entry_view(current),
            final(self).pending_focus() == if changed {
                old(self).pending_focus().push(
                    (entry_target(old(self).last_focus()), entry_target(entry_view(current))),
                )
            } else {
                old(self).pending_focus()
            },
            final(self).rects_view() == old(self).rects_view(),
            final(self).zones() == old(self).zones(),
            final(self).dirty_ids() == old(self).dirty_ids(),
            final(self).settings() == old(self).settings(),
            final(self).size() == old(self).size(),
            final(self).exit_flag() == old(self).exit_flag(),
            final(self).redraw() == old(self).redraw(),
            final(self).user_ready() == old(self).user_ready(),
            final(self).user_end() == old(self).user_end(),
            final(self).fatal() == old(self).fatal(),
            final(self).cursor() == old(self).cursor(),
            final(self).pending_cursor() == old(self).pending_cursor(),
            final(self).pending_errors() == old(self).pending_errors(),
    {
        let same = match (&current, &self.last_focus_entry) {
            (Some(a), Some(b)) => a.owner == b.owner && a.zone_id == b.zone_id,
            (None, None) => true,
            _ => false,
        };
        if same {
            return false;
        }
        let from = match &self.last_focus_entry {
            Some(e) => Some(FocusTarget { owner: Some(e.owner.clone()), zone: e.zone_id.clone() }),
            None => None,
        };
        let to = match &current {
            Some(e) => Some(FocusTarget { owner: Some(e.owner.clone()), zone: e.zone_id.clone() }),
            None => None,
        };
        let ghost before = self.pending_focus_changes@;
        self.pending_focus_changes.push(FocusChange { from, to });
        assert(change_views(self.pending_focus_changes@) =~= change_views(before).push(
            change_view(FocusChange { from, to }),
        ));
        self.last_focus_entry = current;
        true
    }

    /// Hands out the queued cursor events, in order, and empties the queue.
    pub fn take_cursor_events(&mut self) -> (r: Vec<CursorEvent>)
        requires
            old(self).wf(),
        ensures
            final(self).wf(),
            event_views(r@) == old(self).pending_cursor(),
            final(self).pending_cursor() == Seq::<CursorEventView>::empty(),
            final(self).pending_focus() == old(self).pending_focus(),
            final(self).pending_errors() == old(self).pending_errors(),
            final(self).keeps_lifecycle(old(self)),
            final(self).zones() == old(self).zones(),
            final(self).settings() == old(self).settings(),
            final(self).redraw() == old(self).redraw(),
            final(self).user_end() == old(self).user_end(),
            final(self).cursor() == old(self).cursor(),
    {
        let mut taken: Vec<CursorEvent> = Vec::new();
        core::mem::swap(&mut taken, &mut self.pending_cursor_events);
        assert(self.pending_cursor() =~= Seq::<CursorEventView>::empty());
        taken
    }

    /// Hands out the queued focus changes, in order, and empties the queue.
    pub fn take_focus_changes(&mut self) -> (r: Vec<FocusChange>)
        requires
            old(self).wf(),
        ensures
            final(self).wf(),
            change_views(r@) == old(self).pending_focus(),
            final(self).pending_focus().len() == 0,
            final(self).pending_cursor() == old(self).pending_cursor(),
            final(self).pending_errors() == old(self).pending_errors(),
            final(self).rects_view() == old(self).rects_view(),
            final(self).size() == old(self).size(),
            final(self).exit_flag() == old(self).exit_flag(),
            final(self).user_ready() == old(self).user_ready(),
            final(self).fatal() == old(self).fatal(),
            final(self).last_focus() == old(self).last_focus(),
            final(self).zones() == old(self).zones(),
            final(self).settings() == old(self).settings(),
            final(self).redraw() == old(self).redraw(),
            final(self).user_end() == old(self).user_end(),
            final(self).cursor() == old(self).cursor(),
    {
        let mut taken: Vec<FocusChange> = Vec::new();
        core::mem::swap(&mut taken, &mut self.pending_focus_changes);
        taken
    }

    /// Hands out the queued errors, in order, and empties the queue.
    pub fn take_errors(&mut self) -> (r: Vec<RuntimeError>)
        requires
            old(self).wf(),
        ensures
            final(self).wf(),
            r@ == old(self).pending_errors(),
            final(self).pending_errors() == Seq::<RuntimeError>::empty(),
            final(self).pending_cursor() == old(self).pending_cursor(),
            final(self).pending_focus() == old(self).pending_focus(),
            final(self).rects_view() == old(self).rects_view(),
            final(self).size() == old(self).size(),
            final(self).exit_flag() == old(self).exit_flag(),
            final(self).user_ready() == old(self).user_ready(),
            final(self).fatal() == old(self).fatal(),
            final(self).last_focus() == old(self).last_focus(),
            final(self).zones() == old(self).zones(),
            final(self).settings() == old(self).settings(),
            final(self).redraw() == old(self).redraw(),
            final(self).user_end() == old(self).user_end(),
            final(self).cursor() == old(self).cursor(),
    {
        let mut taken: Vec<RuntimeError> = Vec::new();
        core::mem::swap(&mut taken, &mut self.pending_errors);
        taken
    }

    /// An error was not recovered: the session is fatal and the runtime stops.
    pub fn mark_fatal(&mut self)
        requires
            old(self).wf(),
        ensures
            final(self).wf(),
            final(self).fatal(),
            final(self).exit_flag(),
            final(self).pending_cursor() == old(self).pending_cursor(),
            final(self).pending_focus() == old(self).pending_focus(),
            final(self).pending_errors() == old(self).pending_errors(),
            final(self).rects_view() == old(self).rects_view(),
            final(self).size() == old(self).size(),
            final(self).user_ready() == old(self).user_ready(),
            final(self).last_focus() == old(self).last_focus(),
            final(self).zones() == old(self).zones(),
            final(self).settings() == old(self).settings(),
            final(self).redraw() == old(self).redraw(),
            final(self).user_end() == old(self).user_end(),
            final(self).cursor() == old(self).cursor(),
    {
        self.fatal_active = true;
        self.should_exit = true;
    }

    /// Starts a render: `false` (nothing to do) when none was requested, else the
    /// request is consumed and `true` returned.
    pub fn begin_render(&mut self) -> (r: bool)
        requires
            old(self).wf(),
        ensures
            final(self).wf(),
            r == old(self).redraw(),
            !final(self).redraw(),
            final(self).keeps_lifecycle(old(self)),
            final(self).zones() == old(self).zones(),
            final(self).dirty_ids() == old(self).dirty_ids(),
            final(self).settings() == old(self).settings(),
            final(self).user_end() == old(self).user_end(),
            final(self).cursor() == old(self).cursor(),
            final(self).pending_cursor() == old(self).pending_cursor(),
    {
        if !self.redraw_requested {
            return false;
        }
        self.redraw_requested = false;
        true
    }

    /// The frame for the zones that changed, and how many they are; `None` when no zone
    /// changed. Either way every zone is clean afterwards.
    pub fn take_frame(&mut self) -> (r: Option<(String, usize)>)
        requires
            old(self).wf(),
        ensures
            final(self).wf(),
            final(self).dirty_ids() == Seq::<Seq<char>>::empty(),
            final(self).zones().dom() == old(self).zones().dom(),
            forall|k: Seq<char>|
                #[trigger] old(self).zones().contains_key(k) ==> final(self).zones()[k] == (
                ZoneState { is_dirty: false, ..old(self).zones()[k] }),
            old(self).dirty_ids().len() == 0 ==> r is None,
            old(self).dirty_ids().len() > 0 ==> (r matches Some((text, count)) && count
                == old(self).dirty_ids().len() && text@ == frame_text(
                Seq::new(
                    old(self).dirty_ids().len(),
                    |i: int|
                        (
                            old(self).dirty_state_name(i),
                            ZoneState {
                                is_dirty: false,
                                ..old(self).zones()[old(self).dirty_ids()[i]]
                            },
                        ),
                ),
                old(self).settings().restore_cursor,
            )),
            final(self).keeps_lifecycle(old(self)),
            final(self).settings() == old(self).settings(),
            final(self).redraw() == old(self).redraw(),
            final(self).user_end() == old(self).user_end(),
            final(self).cursor() == old(self).cursor(),
            final(self).pending_cursor() == old(self).pending_cursor(),
    {
        let dirty = self.registry.take_dirty();
        if dirty.len() == 0 {
            return None;
        }
        assert forall|i: int| 0 <= i < dirty.len() implies drawable((#[trigger] dirty@[i]).1) by {
            let k = old(self).registry.dirty_ids()[i];
            assert(old(self).registry.zones().contains_key(k));
        }
        let text = self.renderer.frame(&dirty);
        assert(dirty@ =~= Seq::new(
            old(self).dirty_ids().len(),
            |i: int|
                (
                    old(self).dirty_state_name(i),
                    ZoneState { is_dirty: false, ..old(self).zones()[old(self).dirty_ids()[i]] },
                ),
        ));
        Some((text, dirty.len()))
    }

    /// Marks user-ready as announced; `true` when this is the first time since bootstrap.
    pub fn mark_user_ready(&mut self) -> (first: bool)
        requires
            old(self).wf(),
        ensures
            final(self).wf(),
            first == !old(self).user_ready(),
            final(self).user_ready(),
            final(self).rects_view() == old(self).rects_view(),
            final(self).size() == old(self).size(),
            final(self).exit_flag() == old(self).exit_flag(),
            final(self).fatal() == old(self).fatal(),
            final(self).pending_focus() == old(self).pending_focus(),
            final(self).pending_errors() == old(self).pending_errors(),
            final(self).last_focus() == old(self).last_focus(),
            final(self).zones() == old(self).zones(),
            final(self).dirty_ids() == old(self).dirty_ids(),
            final(self).settings() == old(self).settings(),
            final(self).redraw() == old(self).redraw(),
            final(self).user_end() == old(self).user_end(),
            final(self).cursor() == old(self).cursor(),
            final(self).pending_cursor() == old(self).pending_cursor(),
    {
        if self.user_ready_emitted {
            return false;
        }
        self.user_ready_emitted = true;
        true
    }

    /// Ends a render: zones that changed during the after-render hooks request the
    /// next render.
    pub fn finish_render(&mut self)
        requires
            old(self).wf(),
        ensures
            final(self).wf(),
            final(self).redraw() == (old(self).redraw() || exists|k: Seq<char>|
                old(self).zones().contains_key(k) && #[trigger] old(self).zones()[k].is_dirty),
            final(self).keeps_lifecycle(old(self)),
            final(self).zones() == old(self).zones(),
            final(self).dirty_ids() == old(self).dirty_ids(),
            final(self).settings() == old(self).settings(),
            final(self).user_end() == old(self).user_end(),
            final(self).cursor() == old(self).cursor(),
            final(self).pending_cursor() == old(self).pending_cursor(),
    {
        let d = self.registry.has_dirty();
        proof {
            if d {
                let k = choose|k: Seq<char>|
                    self.registry.zones().contains_key(k) && #[trigger] self.registry.zones()[k].is_dirty;
                assert(self.zones()[k].is_dirty);
            }
            if exists|k: Seq<char>| self.zones().contains_key(k) && #[trigger] self.zones()[k].is_dirty {
                let k = choose|k: Seq<char>|
                    self.zones().contains_key(k) && #[trigger] self.zones()[k].is_dirty;
                assert(self.registry.zones()[k].is_dirty);
            }
        }
        if d {
            self.redraw_requested = true;
        }
    }
}

fn fits_position(p: Option<(u16, u16)>) -> (r: bool)
    ensures
        r == position_fits(p),
{
    match p {
        Some((row, col)) => row < u16::MAX && col < u16::MAX,
        None => true,
    }
}

impl ContextOutcome {
    /// Whether the renderer can carry out this outcome's cursor requests.
    pub fn fits(&self) -> (r: bool)
        ensures
            r == outcome_fits(*self),
    {
        fits_position(self.cursor_hint) && fits_position(self.cursor_update.position)
    }
}

/// Whether the renderer's restore position can be reached.
pub fn renderer_fits(renderer: &AnsiRenderer) -> (r: bool)
    ensures
        r == position_fits(renderer.settings().restore_cursor),
{
    fits_position(renderer.restore_cursor())
}

/// The audit stage announcing a cursor event.
pub fn cursor_event_stage(event: &CursorEvent) -> (r: RuntimeAuditStage)
    ensures
        r == match *event {
            CursorEvent::Moved(_) => RuntimeAuditStage::CursorMoved,
            CursorEvent::Shown(_) => RuntimeAuditStage::CursorShown,
            CursorEvent::Hidden(_) => RuntimeAuditStage::CursorHidden,
        },
{
    match event {
        CursorEvent::Moved(_) => RuntimeAuditStage::CursorMoved,
        CursorEvent::Shown(_) => RuntimeAuditStage::CursorShown,
        CursorEvent::Hidden(_) => RuntimeAuditStage::CursorHidden,
    }
}

/// The zone a focus target names, empty for no target.
pub open spec fn target_zone(t: Option<FocusTarget>) -> Seq<char> {
    match t {
        Some(f) => f.zone@,
        None => Seq::empty(),
    }
}

/// The zones a focus change goes from and to, as recorded in audit and log events
/// (empty when there is none).
pub fn focus_change_zones(change: &FocusChange) -> (r: (String, String))
    ensures
        r.0@ == target_zone(change.from),
        r.1@ == target_zone(change.to),
{
    let from = match &change.from {
        Some(t) => t.zone.clone(),
        None => String::new(),
    };
    let to = match &change.to {
        Some(t) => t.zone.clone(),
        None => String::new(),
    };
    (from, to)
}

/// Plugin order: by priority, then by name.
pub open spec fn plugin_before(a: (i32, Seq<char>), b: (i32, Seq<char>)) -> bool {
    a.0 < b.0 || (a.0 == b.0 && lex_lt(a.1, b.1))
}

/// Registered plugins as (priority, name).
pub open spec fn plugin_keys(v: Seq<(i32, String)>) -> Seq<(i32, Seq<char>)> {
    v.map_values(|p: (i32, String)| (p.0, p.1@))
}

/// Plugins in strictly increasing order (so no name occurs twice).
pub open spec fn plugins_sorted(s: Seq<(i32, Seq<char>)>) -> bool {
    forall|i: int, j: int| 0 <= i < j < s.len() ==> plugin_before(#[trigger] s[i], #[trigger] s[j])
}

proof fn lemma_plugin_before_transitive(a: (i32, Seq<char>), b: (i32, Seq<char>), c: (i32, Seq<char>))
    requires
        plugin_before(a, b),
        plugin_before(b, c),
    ensures
        plugin_before(a, c),
{
    if a.0 == b.0 && b.0 == c.0 {
        crate::tokens::lemma_lex_transitive(a.1, b.1, c.1);
    }
}

/// Where a plugin with `priority` and `name` goes among the registered ones, which are
/// kept by priority and then by name; `None` when the name is already registered.
pub fn plugin_slot(existing: &Vec<(i32, String)>, priority: i32, name: &String) -> (r: Option<usize>)
    requires
        plugins_sorted(plugin_keys(existing@)),
    ensures
        r is None <==> exists|i: int| 0 <= i < existing.len() && (#[trigger] existing@[i]).1@ == name@,
        r matches Some(j) ==> j <= existing.len() && plugins_sorted(
            plugin_keys(existing@).insert(j as int, (priority, name@)),
        ),
{
    let ghost keys = plugin_keys(existing@);
    let ghost x = (priority, name@);
    let n = existing.len();
    let mut i: usize = 0;
    while i < n
        invariant
            n == existing.len(),
            i <= n,
            forall|a: int| 0 <= a < i ==> (#[trigger] existing@[a]).1@ != name@,
        decreases n - i,
    {
        if existing[i].1 == *name {
            return None;
        }
        i += 1;
    }
    let mut j: usize = 0;
    while j < n
        invariant
            n == existing.len(),
            j <= n,
            keys == plugin_keys(existing@),
            x == (priority, name@),
            forall|a: int| 0 <= a < j ==> plugin_before(#[trigger] keys[a], x),
        ensures
            j <= n,
            forall|a: int| 0 <= a < j ==> plugin_before(#[trigger] keys[a], x),
            j < n ==> !plugin_before(keys[j as int], x),
        decreases n - j,
    {
        let p = existing[j].0;
        assert(keys[j as int] == (p, existing@[j as int].1@));
        let before = p < priority || (p == priority && crate::tokens::lex_less_strings(
            &existing[j].1,
            name,
        ));
        if !before {
            break;
        }
        j += 1;
    }
    proof {
        if j < n {
            let k = keys[j as int];
            assert(k.1 != x.1) by {
                assert(existing@[j as int].1@ != name@);
            }
            if k.0 == x.0 {
                crate::tokens::lemma_lex_total(k.1, x.1);
            }
            assert(plugin_before(x, k));
        }
        let t = keys.insert(j as int, x);
        assert forall|a: int, b: int| 0 <= a < b < t.len() implies plugin_before(
            #[trigger] t[a],
            #[trigger] t[b],
        ) by {
            if a < j && b == j {
            } else if a < j && b > j {
                assert(t[b] == keys[b - 1]);
            } else if a == j && b > j {
                assert(t[b] == keys[b - 1]);
                if b - 1 > j {
                    lemma_plugin_before_transitive(x, keys[j as int], keys[b - 1]);
                }
            } else if a > j {
                assert(t[a] == keys[a - 1]);
                assert(t[b] == keys[b - 1]);
            }
        }
    }
    Some(j)
}

/// Whether the loop guard stops the loop: a limit is set and `iterations` reached it.
pub fn loop_guard_tripped(limit: Option<usize>, iterations: usize) -> (r: bool)
    ensures
        r == (limit matches Some(l) && iterations >= l),
{
    match limit {
        Some(l) => iterations >= l,
        None => false,
    }
}

/// Whether a metrics snapshot is due: metrics are on, the interval is not zero, and
/// no snapshot was emitted yet or the interval has passed since the last one. Both
/// durations are given in nanoseconds, so they compare exactly.
pub fn metrics_due(enabled: bool, interval_ns: u128, since_last_ns: Option<u128>) -> (r: bool)
    ensures
        r == (enabled && interval_ns != 0 && match since_last_ns {
            Some(e) => e >= interval_ns,
            None => true,
        }),
{
    if !enabled || interval_ns == 0 {
        return false;
    }
    match since_last_ns {
        Some(e) => e >= interval_ns,
        None => true,
    }
}

/// The next step of dispatching an event.
#[derive(Debug, Clone, Copy, PartialEq, Eq, Structural)]
pub enum DispatchStep {
    /// The screen manager consumed the event: the plugins do not see it.
    DoneByScreen,
    /// Hand the event to the plugin at this position.
    CallPlugin(usize),
    /// Dispatch is over; `consumed_by` is the position of the plugin that consumed the
    /// event, if one did.
    Done { consumed_by: Option<usize> },
}

/// How an event propagates: the screen manager sees it first (`screen_flow`, `None`
/// when there is none), then the plugins in order, until one consumes it. `done` is
/// the number of plugins that have seen the event and `last` what the last of them
/// answered.
pub fn dispatch_next(
    n_plugins: usize,
    screen_flow: Option<EventFlow>,
    done: usize,
    last: Option<EventFlow>,
) -> (r: DispatchStep)
    requires
        done <= n_plugins,
    ensures
        screen_flow == Some(EventFlow::Consumed) ==> r == DispatchStep::DoneByScreen,
        screen_flow != Some(EventFlow::Consumed) && last == Some(EventFlow::Consumed) && done > 0
            ==> r == (DispatchStep::Done { consumed_by: Some((done - 1) as usize) }),
        screen_flow != Some(EventFlow::Consumed) && !(last == Some(EventFlow::Consumed) && done
            > 0) && done < n_plugins ==> r == DispatchStep::CallPlugin(done),
        screen_flow != Some(EventFlow::Consumed) && !(last == Some(EventFlow::Consumed) && done
            > 0) && done >= n_plugins ==> r == (DispatchStep::Done { consumed_by: None }),
{
    if screen_flow == Some(EventFlow::Consumed) {
        return DispatchStep::DoneByScreen;
    }
    if last == Some(EventFlow::Consumed) && done > 0 {
        return DispatchStep::Done { consumed_by: Some(done - 1) };
    }
    if done < n_plugins {
        DispatchStep::CallPlugin(done)
    } else {
        DispatchStep::Done { consumed_by: None }
    }
}

/// A lifecycle hook of the plugins.
#[derive(Debug, Clone, Copy, PartialEq, Eq, Structural)]
pub enum LifecycleHook {
    Boot,
    Setup,
    Error,
    RecoverOrFatal,
    Fatal,
}

/// One step the coordinator performs around the plugins.
#[derive(Debug, Clone, Copy, PartialEq, Eq, Structural)]
pub enum RuntimeStep {
    /// Record an audit stage (with its log line).
    Record(RuntimeAuditStage),
    /// Call a lifecycle hook on every plugin.
    Notify(LifecycleHook),
    /// Initialise every plugin, recording `PluginInitialized` for each.
    InitPlugins,
    /// Apply the configured focus.
    ApplyFocus,
    /// Stop the runtime after a fatal error.
    MarkFatal,
    /// Emit a metrics snapshot if one is due.
    EmitMetrics,
    /// Announce pending cursor events and focus changes.
    FlushNotifications,
    /// Handle pending errors.
    ProcessErrors,
}

/// Bootstrap: started, boot (and its hook), plugins initialised, focus, setup (and
/// its hook).
pub open spec fn bootstrap_plan() -> Seq<RuntimeStep> {
    seq![
        RuntimeStep::Record(RuntimeAuditStage::BootstrapStarted),
        RuntimeStep::Record(RuntimeAuditStage::Boot),
        RuntimeStep::Notify(LifecycleHook::Boot),
        RuntimeStep::InitPlugins,
        RuntimeStep::ApplyFocus,
        RuntimeStep::Record(RuntimeAuditStage::Setup),
        RuntimeStep::Notify(LifecycleHook::Setup),
    ]
}

/// The steps of bootstrapping, in order.
pub fn bootstrap_steps() -> (r: Vec<RuntimeStep>)
    ensures
        r@ == bootstrap_plan(),
{
    let mut r: Vec<RuntimeStep> = Vec::new();
    r.push(RuntimeStep::Record(RuntimeAuditStage::BootstrapStarted));
    r.push(RuntimeStep::Record(RuntimeAuditStage::Boot));
    r.push(RuntimeStep::Notify(LifecycleHook::Boot));
    r.push(RuntimeStep::InitPlugins);
    r.push(RuntimeStep::ApplyFocus);
    r.push(RuntimeStep::Record(RuntimeAuditStage::Setup));
    r.push(RuntimeStep::Notify(LifecycleHook::Setup));
    assert(r@ =~= bootstrap_plan());
    r
}

/// A pending error is first recorded and shown to the plugins' error hook, which may
/// make it recoverable.
pub open spec fn error_report_plan() -> Seq<RuntimeStep> {
    seq![RuntimeStep::Record(RuntimeAuditStage::Error), RuntimeStep::Notify(LifecycleHook::Error)]
}

/// Then the outcome is recorded and announced; an unrecovered error is fatal: it is
/// recorded, announced, and stops the runtime.
pub open spec fn error_outcome_plan(recovered: bool) -> Seq<RuntimeStep> {
    let head = seq![
        RuntimeStep::Record(RuntimeAuditStage::RecoverOrFatal),
        RuntimeStep::Notify(LifecycleHook::RecoverOrFatal),
    ];
    if recovered {
        head
    } else {
        head + seq![
            RuntimeStep::Record(RuntimeAuditStage::Fatal),
            RuntimeStep::Notify(LifecycleHook::Fatal),
            RuntimeStep::MarkFatal,
        ]
    }
}

/// The first steps of handling a pending error.
pub fn error_report_steps() -> (r: Vec<RuntimeStep>)
    ensures
        r@ == error_report_plan(),
{
    let mut r: Vec<RuntimeStep> = Vec::new();
    r.push(RuntimeStep::Record(RuntimeAuditStage::Error));
    r.push(RuntimeStep::Notify(LifecycleHook::Error));
    assert(r@ =~= error_report_plan());
    r
}

/// The last steps of handling a pending error, once the hooks said whether it is
/// `recovered`.
pub fn error_outcome_steps(recovered: bool) -> (r: Vec<RuntimeStep>)
    ensures
        r@ == error_outcome_plan(recovered),
{
    let mut r: Vec<RuntimeStep> = Vec::new();
    r.push(RuntimeStep::Record(RuntimeAuditStage::RecoverOrFatal));
    r.push(RuntimeStep::Notify(LifecycleHook::RecoverOrFatal));
    if !recovered {
        r.push(RuntimeStep::Record(RuntimeAuditStage::Fatal));
        r.push(RuntimeStep::Notify(LifecycleHook::Fatal));
        r.push(RuntimeStep::MarkFatal);
    }
    assert(r@ =~= error_outcome_plan(recovered));
    r
}

/// Before an event is dispatched: a main-loop event is recorded as entering the loop.
pub open spec fn dispatch_open_plan(is_loop_event: bool) -> Seq<RuntimeStep> {
    if is_loop_event {
        seq![RuntimeStep::Record(RuntimeAuditStage::LoopIn)]
    } else {
        Seq::empty()
    }
}

/// After an event is dispatched: it is recorded and metrics may be emitted. When the
/// screen manager consumed it, that is all; otherwise a main-loop event is recorded
/// as leaving the loop, and pending notifications and errors are handled.
pub open spec fn dispatch_close_plan(by_screen: bool, is_loop_event: bool) -> Seq<RuntimeStep> {
    let head = seq![RuntimeStep::Record(RuntimeAuditStage::EventDispatched), RuntimeStep::EmitMetrics];
    if by_screen {
        head
    } else {
        let out = if is_loop_event {
            seq![RuntimeStep::Record(RuntimeAuditStage::LoopOut)]
        } else {
            Seq::empty()
        };
        head + out + seq![RuntimeStep::FlushNotifications, RuntimeStep::ProcessErrors]
    }
}

/// The steps before an event is dispatched.
pub fn dispatch_open_steps(is_loop_event: bool) -> (r: Vec<RuntimeStep>)
    ensures
        r@ == dispatch_open_plan(is_loop_event),
{
    let mut r: Vec<RuntimeStep> = Vec::new();
    if is_loop_event {
        r.push(RuntimeStep::Record(RuntimeAuditStage::LoopIn));
    }
    assert(r@ =~= dispatch_open_plan(is_loop_event));
    r
}

/// The steps after an event is dispatched.
pub fn dispatch_close_steps(by_screen: bool, is_loop_event: bool) -> (r: Vec<RuntimeStep>)
    ensures
        r@ == dispatch_close_plan(by_screen, is_loop_event),
{
    let mut r: Vec<RuntimeStep> = Vec::new();
    r.push(RuntimeStep::Record(RuntimeAuditStage::EventDispatched));
    r.push(RuntimeStep::EmitMetrics);
    if !by_screen {
        if is_loop_event {
            r.push(RuntimeStep::Record(RuntimeAuditStage::LoopOut));
        }
        r.push(RuntimeStep::FlushNotifications);
        r.push(RuntimeStep::ProcessErrors);
    }
    assert(r@ =~= dispatch_close_plan(by_screen, is_loop_event));
    r
}

} // verus!

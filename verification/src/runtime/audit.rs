//! Runtime lifecycle audit: stage records, a no-op sink, and a sink that holds
//! events back until the first frame is committed.
use serde_json::Value;
use std::time::SystemTime;
use vstd::prelude::*;

verus! {

#[verifier::external_type_specification]
#[verifier::external_body]
pub struct ExSystemTime(SystemTime);

#[verifier::external_type_specification]
#[verifier::external_body]
pub struct ExJsonValue(Value);

/// The current wall-clock time: a call of `SystemTime::now`. Nothing is stated of it.
#[verifier::external_body]
fn now() -> SystemTime {
    SystemTime::now()
}

/// Distinct lifecycle checkpoints emitted by the runtime.
#[derive(Debug, Clone, Copy, PartialEq, Eq, Structural)]
pub enum RuntimeAuditStage {
    /// A new runtime instance was constructed.
    RuntimeConstructed,
    /// Driver is preparing terminal (raw mode, alternate screen).
    Open,
    /// Runtime boot sequence starting.
    Boot,
    /// Runtime setup finished pre-first render.
    Setup,
    /// First frame committed; user interaction can begin.
    UserReady,
    /// Event dispatch about to run.
    LoopIn,
    /// Event dispatch finished.
    LoopOut,
    /// User-requested session end in progress.
    UserEnd,
    /// Runtime cleanup prior to driver teardown.
    Cleanup,
    /// Driver exiting alternate screen / raw mode.
    End,
    /// Session fully closed.
    Close,
    /// Recoverable or fatal-error candidate detected.
    Error,
    /// Recovery attempted; payload indicates outcome.
    RecoverOrFatal,
    /// Fatal teardown initiated.
    Fatal,
    /// Fatal cleanup in progress.
    FatalCleanup,
    /// Fatal teardown completed.
    FatalClose,
    /// Cursor moved or changed characteristics.
    CursorMoved,
    /// Cursor became visible.
    CursorShown,
    /// Cursor became hidden.
    CursorHidden,
    /// Focus changed between zones/components.
    FocusChanged,
    /// Bootstrap has started (plugins running their `init` hooks).
    BootstrapStarted,
    /// A plugin was registered with the runtime.
    PluginRegistered,
    /// A plugin finished initialising.
    PluginInitialized,
    /// A runtime event finished propagating.
    EventDispatched,
    /// Synthetic tick dispatched.
    TickDispatched,
    /// Rendering flushed dirty zones.
    RenderCommitted,
    /// Render attempt skipped because nothing was dirty.
    RenderSkipped,
    /// Runtime stopped (typically after exit request).
    RuntimeStopped,
    /// The loop iteration limit was reached.
    LoopGuardTriggered,
    /// The loop was stopped by its iteration limit.
    LoopAborted,
    /// A bounded simulated loop is starting.
    LoopSimulated,
    /// A bounded simulated loop ended after a fatal error.
    LoopSimulatedAborted,
    /// A bounded simulated loop ran to completion or exit.
    LoopSimulatedComplete,
}

/// Structured audit entry.
#[derive(Debug)]
pub struct RuntimeAuditEvent {
    pub timestamp: SystemTime,
    pub stage: RuntimeAuditStage,
    pub details: Vec<(String, Value)>,
}

impl RuntimeAuditEvent {
    fn new(stage: RuntimeAuditStage) -> (r: Self)
        ensures
            r.stage == stage,
            r.details@.len() == 0,
    {
        RuntimeAuditEvent { timestamp: now(), stage, details: Vec::new() }
    }
}

/// Builder helper to append fields ergonomically.
pub struct RuntimeAuditEventBuilder {
    event: RuntimeAuditEvent,
}

impl RuntimeAuditEventBuilder {
    /// The event under construction.
    pub closed spec fn event(&self) -> RuntimeAuditEvent {
        self.event
    }

    /// A builder for an event of `stage`, stamped now, with no details.
    pub fn new(stage: RuntimeAuditStage) -> (r: Self)
        ensures
            r.event().stage == stage,
            r.event().details@.len() == 0,
    {
        RuntimeAuditEventBuilder { event: RuntimeAuditEvent::new(stage) }
    }

    /// Appends the detail `key` with `value`.
    pub fn detail(&mut self, key: &str, value: Value) -> (r: &mut Self)
        ensures
            r.event().stage == old(self).event().stage,
            r.event().timestamp == old(self).event().timestamp,
            r.event().details@.len() == old(self).event().details@.len() + 1,
            forall|i: int|
                0 <= i < old(self).event().details@.len() ==> r.event().details@[i] == old(
                    self,
                ).event().details@[i],
            r.event().details@.last().0@ == key@,
            r.event().details@.last().1 == value,
            *final(self) == *final(r),
    {
        self.event.details.push((String::from_str(key), value));
        self
    }

    /// The finished event.
    pub fn finish(self) -> (r: RuntimeAuditEvent)
        ensures
            r == self.event(),
    {
        self.event
    }
}

/// Trait implemented by any audit sink.
pub trait RuntimeAudit: Send + Sync {
    fn record(&mut self, event: RuntimeAuditEvent);
}

/// Default no-op implementation used when auditing is disabled.
#[derive(Debug)]
pub struct NullRuntimeAudit;

impl RuntimeAudit for NullRuntimeAudit {
    fn record(&mut self, event: RuntimeAuditEvent) {
    }
}

impl Default for NullRuntimeAudit {
    fn default() -> (r: Self)
        ensures
            r == NullRuntimeAudit,
    {
        NullRuntimeAudit
    }
}

/// What a bootstrap audit has done so far.
pub struct AuditView {
    /// Whether events are still held back.
    pub buffering: bool,
    /// The events held back, in arrival order.
    pub buffered: Seq<RuntimeAuditEvent>,
    /// The events handed to the inner sink, in the order they were handed on.
    pub forwarded: Seq<RuntimeAuditEvent>,
}

/// Whether `stage` ends the holding back, for a sink released by `release_stage`.
pub open spec fn releases(release_stage: RuntimeAuditStage, stage: RuntimeAuditStage) -> bool {
    stage == release_stage || stage == RuntimeAuditStage::RuntimeStopped
}

/// The state after recording `e`.
pub open spec fn record_step(
    v: AuditView,
    release_stage: RuntimeAuditStage,
    e: RuntimeAuditEvent,
) -> AuditView {
    if !v.buffering {
        AuditView { buffering: false, buffered: v.buffered, forwarded: v.forwarded.push(e) }
    } else if releases(release_stage, e.stage) {
        AuditView {
            buffering: false,
            buffered: Seq::empty(),
            forwarded: v.forwarded + v.buffered.push(e),
        }
    } else {
        AuditView { buffering: true, buffered: v.buffered.push(e), forwarded: v.forwarded }
    }
}

/// The state after a manual release.
pub open spec fn release_step(v: AuditView) -> AuditView {
    if v.buffering {
        AuditView { buffering: false, buffered: Seq::empty(), forwarded: v.forwarded + v.buffered }
    } else {
        v
    }
}

/// The state after recording `events` in order.
pub open spec fn record_all(
    v: AuditView,
    release_stage: RuntimeAuditStage,
    events: Seq<RuntimeAuditEvent>,
) -> AuditView
    decreases events.len(),
{
    if events.len() == 0 {
        v
    } else {
        record_step(record_all(v, release_stage, events.drop_last()), release_stage, events.last())
    }
}

/// A consistent state: nothing held back once released, nothing handed on before.
pub open spec fn audit_wf(v: AuditView) -> bool {
    &&& !v.buffering ==> v.buffered.len() == 0
    &&& v.buffering ==> v.forwarded.len() == 0
}

/// Audit sink that holds lifecycle events back until bootstrap commits the first
/// frame, then hands them all on in order. If the runtime stops before a render, the
/// held events are handed on at `RuntimeStopped`, so none is lost.
pub struct BootstrapAudit<A: RuntimeAudit> {
    inner: A,
    release_stage: RuntimeAuditStage,
    buffering: bool,
    buffer: Vec<RuntimeAuditEvent>,
    forwarded: Ghost<Seq<RuntimeAuditEvent>>,
}

impl<A: RuntimeAudit> BootstrapAudit<A> {
    /// What the sink has done so far.
    pub closed spec fn view(&self) -> AuditView {
        AuditView { buffering: self.buffering, buffered: self.buffer@, forwarded: self.forwarded@ }
    }

    /// The stage that ends the holding back.
    pub closed spec fn release_stage(&self) -> RuntimeAuditStage {
        self.release_stage
    }

    pub closed spec fn wf(&self) -> bool {
        audit_wf(self.view())
    }

    /// The sink events are handed on to.
    pub closed spec fn inner_sink(&self) -> A {
        self.inner
    }

    /// A sink that holds events back until the first render commits.
    pub fn new(inner: A) -> (r: Self)
        ensures
            r.wf(),
            r.release_stage() == RuntimeAuditStage::RenderCommitted,
            r.inner_sink() == inner,
            r.view() == (AuditView { buffering: true, buffered: Seq::empty(), forwarded: Seq::empty() }),
    {
        Self::with_release_stage(inner, RuntimeAuditStage::RenderCommitted)
    }

    /// A sink that holds events back until `release_stage` occurs.
    pub fn with_release_stage(inner: A, release_stage: RuntimeAuditStage) -> (r: Self)
        ensures
            r.wf(),
            r.release_stage() == release_stage,
            r.inner_sink() == inner,
            r.view() == (AuditView { buffering: true, buffered: Seq::empty(), forwarded: Seq::empty() }),
    {
        BootstrapAudit {
            inner,
            release_stage,
            buffering: true,
            buffer: Vec::new(),
            forwarded: Ghost(Seq::empty()),
        }
    }

    /// The inner sink.
    pub fn inner(&self) -> (r: &A)
        ensures
            *r == self.inner_sink(),
    {
        &self.inner
    }

    /// Hands every held event on, in order.
    fn flush(&mut self)
        requires
            !old(self).buffering,
        ensures
            final(self).buffering == old(self).buffering,
            final(self).release_stage == old(self).release_stage,
            final(self).buffer@.len() == 0,
            final(self).forwarded@ == old(self).forwarded@ + old(self).buffer@,
    {
        let mut held: Vec<RuntimeAuditEvent> = Vec::new();
        core::mem::swap(&mut held, &mut self.buffer);
        let ghost all = held@;
        let ghost start = self.forwarded@;
        while held.len() > 0
            invariant
                !self.buffering,
                self.buffering == old(self).buffering,
                self.release_stage == old(self).release_stage,
                self.buffer@.len() == 0,
                held@.len() <= all.len(),
                all == old(self).buffer@,
                start == old(self).forwarded@,
                held@ == all.skip(all.len() - held@.len()),
                self.forwarded@ == start + all.take(all.len() - held@.len()),
            decreases held@.len(),
        {
            let ghost k = all.len() - held@.len();
            let e = held.remove(0);
            assert(e == all[k]);
            self.forwarded = Ghost(self.forwarded@.push(e));
            assert(all.take(k + 1) == all.take(k).push(all[k]));
            assert(held@ =~= all.skip(k + 1));
            self.inner.record(e);
        }
        assert(all.take(all.len() as int) =~= all);
    }

    /// Hands held events on now, even if the release stage has not been seen. Does
    /// nothing once the events were handed on.
    pub fn release(&mut self)
        ensures
            old(self).wf() ==> final(self).wf(),
            final(self).release_stage() == old(self).release_stage(),
            final(self).view() == release_step(old(self).view()),
    {
        if !self.buffering {
            return;
        }
        self.buffering = false;
        self.flush();
        assert(self.buffer@ =~= Seq::<RuntimeAuditEvent>::empty());
    }
}

impl<A: RuntimeAudit> RuntimeAudit for BootstrapAudit<A> {
    /// Records `event`: holds it back while buffering, hands everything on when it is
    /// the release stage or `RuntimeStopped`, and hands it straight on afterwards.
    fn record(&mut self, event: RuntimeAuditEvent)
        ensures
            old(self).wf() ==> final(self).wf(),
            final(self).release_stage() == old(self).release_stage(),
            final(self).view() == record_step(old(self).view(), old(self).release_stage(), event),
    {
        if self.buffering {
            let stage = event.stage;
            self.buffer.push(event);
            if stage == self.release_stage || stage == RuntimeAuditStage::RuntimeStopped {
                self.buffering = false;
                self.flush();
                assert(self.buffer@ =~= Seq::<RuntimeAuditEvent>::empty());
            }
            return;
        }
        self.forwarded = Ghost(self.forwarded@.push(event));
        self.inner.record(event);
    }
}

/// Every recorded event is handed on or still held, exactly once and in arrival
/// order, whatever the events are.
pub proof fn lemma_audit_keeps_every_event(
    v: AuditView,
    release_stage: RuntimeAuditStage,
    events: Seq<RuntimeAuditEvent>,
)
    requires
        audit_wf(v),
    ensures
        audit_wf(record_all(v, release_stage, events)),
        record_all(v, release_stage, events).forwarded + record_all(v, release_stage, events).buffered
            == v.forwarded + v.buffered + events,
    decreases events.len(),
{
    if events.len() > 0 {
        let prev = record_all(v, release_stage, events.drop_last());
        lemma_audit_keeps_every_event(v, release_stage, events.drop_last());
        let e = events.last();
        assert(events =~= events.drop_last().push(e));
        let next = record_step(prev, release_stage, e);
        if !prev.buffering {
            assert(next.forwarded + next.buffered =~= (prev.forwarded + prev.buffered).push(e));
        } else if releases(release_stage, e.stage) {
            assert(next.forwarded + next.buffered =~= (prev.forwarded + prev.buffered).push(e));
        } else {
            assert(next.forwarded + next.buffered =~= (prev.forwarded + prev.buffered).push(e));
        }
    }
}

/// Until the release stage or `RuntimeStopped` arrives, nothing is handed on.
pub proof fn lemma_audit_holds_until_release(
    release_stage: RuntimeAuditStage,
    events: Seq<RuntimeAuditEvent>,
)
    requires
        forall|i: int| 0 <= i < events.len() ==> !releases(release_stage, #[trigger] events[i].stage),
    ensures
        record_all(
            AuditView { buffering: true, buffered: Seq::empty(), forwarded: Seq::empty() },
            release_stage,
            events,
        ) == (AuditView { buffering: true, buffered: events, forwarded: Seq::empty() }),
    decreases events.len(),
{
    if events.len() > 0 {
        let init = AuditView { buffering: true, buffered: Seq::empty(), forwarded: Seq::empty() };
        assert forall|i: int| 0 <= i < events.drop_last().len() implies !releases(
            release_stage,
            #[trigger] events.drop_last()[i].stage,
        ) by {
            assert(events.drop_last()[i] == events[i]);
        }
        lemma_audit_holds_until_release(release_stage, events.drop_last());
        assert(!releases(release_stage, events[events.len() - 1].stage));
        assert(events.drop_last().push(events.last()) =~= events);
    } else {
        assert(events =~= Seq::<RuntimeAuditEvent>::empty());
    }
}

/// A second release changes nothing.
pub proof fn lemma_release_is_idempotent(v: AuditView)
    ensures
        release_step(release_step(v)) == release_step(v),
{
}

} // verus!

use room_mvp::layout::grid::solve_axis;
use room_mvp::runtime::coordinator::{
    bootstrap_steps, dispatch_close_steps, dispatch_next, dispatch_open_steps,
    error_outcome_steps, error_report_steps, DispatchStep, LifecycleHook, RuntimeStep,
};
use room_mvp::runtime::driver::{decode_plain, DecodedInbound, KeyName, ModifierSet};
use room_mvp::runtime::screens::{
    activate_steps, finish_steps, ScreenSide, SwitchStep,
};
use room_mvp::{
    EventFlow, GridSize, RuntimeAuditStage, JsonInbound, Rect, RuntimeContext, ScreenLifecycleEvent, Size,
    ZoneRegistry,
};

#[test]
fn screen_manager_consuming_skips_the_plugins() {
    assert_eq!(dispatch_next(3, Some(EventFlow::Consumed), 0, None), DispatchStep::DoneByScreen);
}

#[test]
fn plugins_are_walked_until_one_consumes() {
    assert_eq!(dispatch_next(3, None, 0, None), DispatchStep::CallPlugin(0));
    assert_eq!(
        dispatch_next(3, Some(EventFlow::Continue), 1, Some(EventFlow::Continue)),
        DispatchStep::CallPlugin(1)
    );
    assert_eq!(
        dispatch_next(3, None, 2, Some(EventFlow::Consumed)),
        DispatchStep::Done { consumed_by: Some(1) }
    );
    assert_eq!(
        dispatch_next(3, None, 3, Some(EventFlow::Continue)),
        DispatchStep::Done { consumed_by: None }
    );
    assert_eq!(dispatch_next(0, None, 0, None), DispatchStep::Done { consumed_by: None });
}

#[test]
fn decode_reads_key_code_and_modifiers() {
    let plain = decode_plain(JsonInbound::Key {
        code: "Escape".to_string(),
        modifiers: vec!["Control".to_string(), "alt".to_string()],
    });
    assert_eq!(
        plain,
        DecodedInbound::Key {
            code: KeyName::Esc,
            modifiers: ModifierSet { ctrl: true, alt: true, shift: false },
        }
    );
    assert_eq!(decode_plain(JsonInbound::Tick { ms: 250 }), DecodedInbound::Tick { ms: 250 });
    assert_eq!(
        decode_plain(JsonInbound::Resize { width: 80, height: 24 }),
        DecodedInbound::Resize(Size::new(80, 24))
    );
    assert_eq!(
        decode_plain(JsonInbound::Paste { data: "hi".to_string() }),
        DecodedInbound::Paste("hi".to_string())
    );
}

#[test]
fn screen_switch_order() {
    assert_eq!(
        activate_steps(true),
        vec![
            SwitchStep::Notify(ScreenSide::Outgoing, ScreenLifecycleEvent::WillDisappear),
            SwitchStep::Notify(ScreenSide::Incoming, ScreenLifecycleEvent::WillAppear),
            SwitchStep::BuildLayout,
        ]
    );
    assert_eq!(activate_steps(false).len(), 2);
    assert_eq!(
        finish_steps(true),
        vec![
            SwitchStep::ApplyLayout,
            SwitchStep::RegisterPanels,
            SwitchStep::Notify(ScreenSide::Incoming, ScreenLifecycleEvent::DidAppear),
            SwitchStep::ApplyFocus,
            SwitchStep::Notify(ScreenSide::Outgoing, ScreenLifecycleEvent::DidDisappear),
        ]
    );
    assert_eq!(finish_steps(false).len(), 4);
}

#[test]
fn axis_solver_offsets_and_sizes() {
    let tracks = vec![GridSize::Fixed(3), GridSize::Flex(nz(1)), GridSize::Flex(nz(1))];
    let (offsets, sizes) = solve_axis(&tracks, 11, 1);
    assert_eq!(sizes, vec![3, 3, 3]);
    assert_eq!(offsets, vec![0, 4, 8, 11]);
    let (offsets, sizes) = solve_axis(&Vec::new(), 10, 2);
    assert_eq!(offsets, vec![0]);
    assert!(sizes.is_empty());
}

fn nz(n: u16) -> room_mvp::NonZeroU16 {
    room_mvp::NonZeroU16::new(n).unwrap()
}

#[test]
fn cursor_in_empty_zone_ignores_huge_offsets() {
    let rects = vec![
        ("zone".to_string(), Rect::new(0, 0, 0, 3)),
        ("zone".to_string(), Rect::new(1, 1, 4, 4)),
    ];
    let mut ctx = RuntimeContext::new(&rects);
    ctx.set_cursor_in_zone("zone", i32::MAX, i32::MAX);
    let outcome = ctx.into_outcome();
    assert_eq!(outcome.cursor_hint, None);
}

#[test]
fn changed_content_is_listed_dirty_again() {
    let mut registry = ZoneRegistry::new();
    registry.sync_layout(&vec![("a".to_string(), Rect::new(0, 0, 4, 1))]);
    assert_eq!(registry.take_dirty().len(), 1);
    registry.apply_content(&"a".to_string(), "hello".to_string()).unwrap();
    assert_eq!(registry.take_dirty().len(), 1);
    registry.apply_content(&"a".to_string(), "hello".to_string()).unwrap();
    assert!(registry.take_dirty().is_empty());
    assert!(registry.apply_content(&"b".to_string(), "x".to_string()).is_err());
    assert!(!registry.has_dirty());
}

#[test]
fn bootstrap_stage_order() {
    assert_eq!(
        bootstrap_steps(),
        vec![
            RuntimeStep::Record(RuntimeAuditStage::BootstrapStarted),
            RuntimeStep::Record(RuntimeAuditStage::Boot),
            RuntimeStep::Notify(LifecycleHook::Boot),
            RuntimeStep::InitPlugins,
            RuntimeStep::ApplyFocus,
            RuntimeStep::Record(RuntimeAuditStage::Setup),
            RuntimeStep::Notify(LifecycleHook::Setup),
        ]
    );
}

#[test]
fn error_stage_order() {
    assert_eq!(
        error_report_steps(),
        vec![RuntimeStep::Record(RuntimeAuditStage::Error), RuntimeStep::Notify(LifecycleHook::Error)]
    );
    assert_eq!(error_outcome_steps(true).len(), 2);
    assert_eq!(
        error_outcome_steps(false),
        vec![
            RuntimeStep::Record(RuntimeAuditStage::RecoverOrFatal),
            RuntimeStep::Notify(LifecycleHook::RecoverOrFatal),
            RuntimeStep::Record(RuntimeAuditStage::Fatal),
            RuntimeStep::Notify(LifecycleHook::Fatal),
            RuntimeStep::MarkFatal,
        ]
    );
}

#[test]
fn dispatch_stage_order() {
    assert_eq!(dispatch_open_steps(true), vec![RuntimeStep::Record(RuntimeAuditStage::LoopIn)]);
    assert!(dispatch_open_steps(false).is_empty());
    assert_eq!(
        dispatch_close_steps(true, true),
        vec![RuntimeStep::Record(RuntimeAuditStage::EventDispatched), RuntimeStep::EmitMetrics]
    );
    assert_eq!(
        dispatch_close_steps(false, true),
        vec![
            RuntimeStep::Record(RuntimeAuditStage::EventDispatched),
            RuntimeStep::EmitMetrics,
            RuntimeStep::Record(RuntimeAuditStage::LoopOut),
            RuntimeStep::FlushNotifications,
            RuntimeStep::ProcessErrors,
        ]
    );
    assert_eq!(dispatch_close_steps(false, false).len(), 4);
}

use room_mvp::{
    BootstrapAudit, NullRuntimeAudit, RuntimeAudit, RuntimeAuditEvent, RuntimeAuditEventBuilder,
    RuntimeAuditStage,
};

#[derive(Default)]
struct RecordingAudit {
    stages: Vec<RuntimeAuditStage>,
}

impl RecordingAudit {
    fn snapshot(&self) -> Vec<RuntimeAuditStage> {
        self.stages.clone()
    }
}

impl RuntimeAudit for RecordingAudit {
    fn record(&mut self, event: RuntimeAuditEvent) {
        self.stages.push(event.stage);
    }
}

fn event(stage: RuntimeAuditStage) -> RuntimeAuditEvent {
    RuntimeAuditEventBuilder::new(stage).finish()
}

#[test]
fn buffers_until_first_render_commits() {
    let mut audit = BootstrapAudit::new(RecordingAudit::default());
    audit.record(event(RuntimeAuditStage::BootstrapStarted));
    assert_eq!(audit.inner().snapshot(), Vec::<RuntimeAuditStage>::new());

    audit.record(event(RuntimeAuditStage::RenderCommitted));
    assert_eq!(
        audit.inner().snapshot(),
        vec![
            RuntimeAuditStage::BootstrapStarted,
            RuntimeAuditStage::RenderCommitted
        ]
    );
}

#[test]
fn flushes_on_manual_release() {
    let mut audit = BootstrapAudit::new(RecordingAudit::default());
    audit.record(event(RuntimeAuditStage::BootstrapStarted));
    assert!(audit.inner().snapshot().is_empty());

    audit.release();
    assert_eq!(
        audit.inner().snapshot(),
        vec![RuntimeAuditStage::BootstrapStarted]
    );
}

#[test]
fn release_stage_short_circuits_after_flush() {
    let mut audit = BootstrapAudit::new(RecordingAudit::default());
    audit.record(event(RuntimeAuditStage::BootstrapStarted));
    audit.record(event(RuntimeAuditStage::RenderCommitted));
    assert_eq!(audit.inner().snapshot().len(), 2);

    audit.record(event(RuntimeAuditStage::TickDispatched));
    assert_eq!(
        audit.inner().snapshot(),
        vec![
            RuntimeAuditStage::BootstrapStarted,
            RuntimeAuditStage::RenderCommitted,
            RuntimeAuditStage::TickDispatched,
        ]
    );
}

#[test]
fn runtime_stopped_flushes_without_a_render() {
    let mut audit = BootstrapAudit::new(RecordingAudit::default());
    audit.record(event(RuntimeAuditStage::Boot));
    audit.record(event(RuntimeAuditStage::Setup));
    assert!(audit.inner().snapshot().is_empty());
    audit.record(event(RuntimeAuditStage::RuntimeStopped));
    assert_eq!(
        audit.inner().snapshot(),
        vec![
            RuntimeAuditStage::Boot,
            RuntimeAuditStage::Setup,
            RuntimeAuditStage::RuntimeStopped
        ]
    );
}

#[test]
fn custom_release_stage_and_second_release() {
    let mut audit =
        BootstrapAudit::with_release_stage(RecordingAudit::default(), RuntimeAuditStage::UserReady);
    audit.record(event(RuntimeAuditStage::RenderCommitted));
    assert!(audit.inner().snapshot().is_empty());
    audit.record(event(RuntimeAuditStage::UserReady));
    assert_eq!(audit.inner().snapshot().len(), 2);
    audit.release();
    audit.release();
    assert_eq!(audit.inner().snapshot().len(), 2);
}

#[test]
fn builder_appends_details_in_order() {
    let mut builder = RuntimeAuditEventBuilder::new(RuntimeAuditStage::PluginRegistered);
    builder
        .detail("plugin", serde_json::Value::String("p".to_string()))
        .detail("priority", serde_json::Value::from(3));
    let event = builder.finish();
    assert_eq!(event.stage, RuntimeAuditStage::PluginRegistered);
    assert_eq!(event.details.len(), 2);
    assert_eq!(event.details[0].0, "plugin");
    assert_eq!(event.details[1].1, serde_json::Value::from(3));
}

#[test]
fn null_audit_accepts_events() {
    let mut sink = NullRuntimeAudit::default();
    sink.record(event(RuntimeAuditStage::Boot));
}

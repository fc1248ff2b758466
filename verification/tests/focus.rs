use room_mvp::{FocusController, FocusRegistry};

#[test]
fn set_and_get_focus() {
    let mut registry = FocusRegistry::new();
    registry.set_focus("plugin", "zone");
    let entry = registry.current().unwrap();
    assert_eq!(entry.owner, "plugin");
    assert_eq!(entry.zone_id, "zone");
}

#[test]
fn clear_focus_by_owner() {
    let mut registry = FocusRegistry::new();
    registry.set_focus("plugin", "zone");
    registry.clear_focus("plugin");
    assert!(registry.current().is_none());
}

#[test]
fn clear_other_owner_noop() {
    let mut registry = FocusRegistry::new();
    registry.set_focus("plugin", "zone");
    registry.clear_focus("other");
    assert!(registry.current().is_some());
}

#[test]
fn controller_release_undoes_its_focus() {
    let mut registry = FocusRegistry::new();
    let mut controller = FocusController::new("owner");
    controller.focus(&mut registry, "app:input");
    assert_eq!(controller.last_zone(), Some("app:input"));
    let entry = controller.current(&registry).unwrap();
    assert_eq!(entry.owner, "owner");
    assert_eq!(entry.zone_id, "app:input");
    controller.release(&mut registry);
    assert!(registry.current().is_none());
}

#[test]
fn controller_release_keeps_other_owners_focus() {
    let mut registry = FocusRegistry::new();
    let controller = FocusController::new("owner");
    registry.set_focus("someone", "zone");
    controller.release(&mut registry);
    assert_eq!(registry.current().unwrap().owner, "someone");
}

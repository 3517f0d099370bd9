use navis_extension::component::{component_load_gate, component_load_operation, component_load_request};
use navis_extension::models::ComponentKind;
use navis_extension::component::{
    component_execute_gate, component_list_operations, ensure_event_pattern, ensure_invoke, ComponentTable,
    ensure_network, ensure_storage_scope, OperationDescription,
};
use navis_extension::models::{ComponentCapabilities, ExtensionStatus};
use navis_extension::operation::{
    OperationHandlerKind, OperationRegistration, OperationRegistry, OperationType, PermissionLevel,
};

fn capabilities(invoke: &[&str], events: &[&str]) -> ComponentCapabilities {
    ComponentCapabilities {
        invoke: invoke.iter().map(|s| s.to_string()).collect(),
        storage: vec!["global".to_string()],
        network: None,
        events: events.iter().map(|s| s.to_string()).collect(),
    }
}

fn registry() -> OperationRegistry {
    let mut registry = OperationRegistry::default();
    for (ext, op) in [("ext.alpha", "query"), ("ext.alpha", "write"), ("ext.beta", "read")] {
        registry
            .register(OperationRegistration {
                id: format!("{ext}.{op}"),
                extension_id: ext.to_string(),
                label: format!("Op {op}"),
                operation_type: OperationType::FileRead,
                permission_level: PermissionLevel::LightCheck,
                params_schema: None,
                handler_kind: OperationHandlerKind::Extension,
            })
            .unwrap();
    }
    registry
}

#[test]
fn invoke_and_storage_need_a_listed_grant() {
    let caps = capabilities(&["operation.list"], &[]);
    assert!(ensure_invoke("app", &caps, "operation.list").is_ok());
    assert_eq!(
        ensure_invoke("app", &caps, "operation.execute").unwrap_err(),
        "Component 'app' not granted invoke capability 'operation.execute'"
    );
    assert!(ensure_storage_scope("app", &caps, "global").is_ok());
    assert_eq!(
        ensure_storage_scope("app", &caps, "worktree").unwrap_err(),
        "Component 'app' not granted storage scope 'worktree'"
    );
}

#[test]
fn event_patterns_grant_by_prefix_or_exactly() {
    let caps = capabilities(&[], &["session.*", "tools.execute"]);
    assert!(ensure_event_pattern("app", &caps, "session.created").is_ok());
    assert!(ensure_event_pattern("app", &caps, "tools.execute").is_ok());
    assert_eq!(
        ensure_event_pattern("app", &caps, "tools.pre-execute").unwrap_err(),
        "Component 'app' not granted event pattern 'tools.pre-execute'"
    );
    let everything = capabilities(&[], &["*"]);
    assert!(ensure_event_pattern("app", &everything, "agent.step").is_ok());
}

#[test]
fn network_needs_a_declared_capability() {
    let mut caps = capabilities(&[], &[]);
    assert_eq!(ensure_network("app", &caps).unwrap_err(), "Component 'app' network capability not granted");
    caps.network = Some("{\"hosts\":[]}".to_string());
    assert!(ensure_network("app", &caps).is_ok());
}

#[test]
fn execute_gate_checks_capability_status_registration_and_owner() {
    let registry = registry();
    let caps = capabilities(&["operation.execute"], &[]);
    let op = component_execute_gate("app", "ext.alpha", &caps, Some(ExtensionStatus::Enabled), &registry, "ext.alpha.query")
        .unwrap();
    assert_eq!(op.id, "ext.alpha.query");
    assert_eq!(
        component_execute_gate("app", "ext.alpha", &capabilities(&[], &[]), Some(ExtensionStatus::Enabled), &registry, "ext.alpha.query")
            .unwrap_err(),
        "Component 'app' not granted invoke capability 'operation.execute'"
    );
    assert_eq!(
        component_execute_gate("app", "ext.alpha", &caps, Some(ExtensionStatus::Disabled), &registry, "ext.alpha.query")
            .unwrap_err(),
        "Extension 'ext.alpha' is not enabled"
    );
    assert_eq!(
        component_execute_gate("app", "ext.alpha", &caps, Some(ExtensionStatus::Enabled), &registry, "ext.alpha.missing")
            .unwrap_err(),
        "Operation 'ext.alpha.missing' is not registered"
    );
    assert_eq!(
        component_execute_gate("app", "ext.alpha", &caps, Some(ExtensionStatus::Enabled), &registry, "ext.beta.read")
            .unwrap_err(),
        "Operation 'ext.beta.read' belongs to extension 'ext.beta', not 'ext.alpha'"
    );
}

#[test]
fn listing_shows_only_the_extensions_operations_when_granted() {
    let registry = registry();
    let listed = component_list_operations("app", "ext.alpha", &capabilities(&["operation.list"], &[]), &registry);
    assert_eq!(
        listed,
        vec![
            OperationDescription { id: "ext.alpha.query".to_string(), label: "Op query".to_string() },
            OperationDescription { id: "ext.alpha.write".to_string(), label: "Op write".to_string() },
        ]
    );
    assert!(component_list_operations("app", "ext.alpha", &capabilities(&[], &[]), &registry).is_empty());
}

#[test]
fn table_keeps_components_in_key_order() {
    let mut table: ComponentTable<u32> = ComponentTable::new();
    assert!(table.insert("ext.b", "main", 1).is_ok());
    assert!(table.insert("ext.a", "worker", 2).is_ok());
    assert!(table.insert("ext.a", "logic", 3).is_ok());
    assert_eq!(
        table.list(None),
        vec![
            ("ext.a".to_string(), "logic".to_string()),
            ("ext.a".to_string(), "worker".to_string()),
            ("ext.b".to_string(), "main".to_string()),
        ]
    );
    assert_eq!(
        table.list(Some("ext.a")),
        vec![
            ("ext.a".to_string(), "logic".to_string()),
            ("ext.a".to_string(), "worker".to_string()),
        ]
    );
    assert!(table.list(Some("ext.c")).is_empty());
}

#[test]
fn table_refuses_a_second_load_of_the_same_key() {
    let mut table: ComponentTable<u32> = ComponentTable::new();
    assert!(table.insert("ext.a", "logic", 1).is_ok());
    let error = table.insert("ext.a", "logic", 2).unwrap_err();
    assert_eq!(error, "Component 'ext.a:logic' is already loaded");
    assert_eq!(table.get("ext.a", "logic"), Some(&1));
    assert!(table.contains("ext.a", "logic"));
    assert!(!table.contains("ext.a", "other"));
}

#[test]
fn table_remove_and_dispose_all() {
    let mut table: ComponentTable<u32> = ComponentTable::new();
    table.insert("ext.a", "one", 1).unwrap();
    table.insert("ext.a", "two", 2).unwrap();
    table.insert("ext.b", "three", 3).unwrap();
    assert_eq!(table.remove("ext.b", "three"), Ok(3));
    assert_eq!(
        table.remove("ext.b", "three").unwrap_err(),
        "Component 'ext.b:three' is not loaded"
    );
    table.insert("ext.b", "three", 4).unwrap();
    assert_eq!(table.remove_all_for_extension("ext.a"), vec![1, 2]);
    assert_eq!(table.remove_all_for_extension("ext.a"), Vec::<u32>::new());
    assert_eq!(table.list(None), vec![("ext.b".to_string(), "three".to_string())]);
    assert_eq!(table.get("ext.a", "one"), None);
}

fn logic_component(id: &str, kind: navis_extension::models::ComponentKind) -> navis_extension::models::ComponentRegistration {
    navis_extension::models::ComponentRegistration {
        id: id.to_string(),
        entry: format!("{id}.wasm"),
        kind,
        run_on: vec![],
        autostart: false,
        capabilities: capabilities(&[], &[]),
    }
}

#[test]
fn load_gate_needs_an_enabled_extension_and_a_logic_component() {
    let logic = logic_component("worker", ComponentKind::Logic);
    assert_eq!(component_load_gate("ext.a", &logic, Some(ExtensionStatus::Enabled)), Ok(()));
    assert_eq!(
        component_load_gate("ext.a", &logic, None),
        Err("Extension 'ext.a' is not installed".to_string())
    );
    assert_eq!(
        component_load_gate("ext.a", &logic, Some(ExtensionStatus::Disabled)),
        Err("Extension 'ext.a' is not enabled".to_string())
    );
    let native = logic_component("bin", ComponentKind::Native);
    assert_eq!(
        component_load_gate("ext.a", &native, Some(ExtensionStatus::Enabled)),
        Err("Component 'ext.a:bin' kind 'native' is not supported by the component registry; use backendServices".to_string())
    );
}

#[test]
fn load_request_and_operation_name() {
    let request = component_load_request("ext.a", "/ext/a/worker.wasm");
    assert_eq!(request.operation_type, OperationType::CommandExecute);
    assert_eq!(request.target, "/ext/a/worker.wasm");
    assert_eq!(request.actor, "extension:ext.a");
    assert!(request.session_id.is_none() && request.worktree.is_none());
    assert_eq!(component_load_operation("ext.a", "worker"), "component.load:ext.a:worker");
}

#[test]
fn removing_a_component_just_loaded_restores_the_table() {
    let mut table: ComponentTable<u32> = ComponentTable::new();
    table.insert("ext.a", "one", 1).unwrap();
    table.insert("ext.c", "three", 3).unwrap();
    let before = table.list(None);
    table.insert("ext.b", "two", 2).unwrap();
    assert_eq!(table.remove("ext.b", "two"), Ok(2));
    assert_eq!(table.list(None), before);
}

#[test]
fn host_operation_requires_registered_operation() {
    let caps = capabilities(&["operation.execute"], &[]);
    let empty = OperationRegistry::default();
    assert!(component_execute_gate("app", "ext.alpha", &caps, None, &empty, "ext.alpha.query")
        .unwrap_err()
        .contains("not installed"));
    assert!(component_execute_gate("app", "ext.alpha", &caps, Some(ExtensionStatus::Enabled), &empty, "ext.alpha.query")
        .unwrap_err()
        .contains("not registered"));
}

#[test]
fn host_operation_denied_when_capability_not_granted() {
    let registry = registry();
    let caps = ComponentCapabilities { invoke: vec![], storage: vec![], network: None, events: vec![] };
    assert!(component_execute_gate("app", "ext.alpha", &caps, Some(ExtensionStatus::Enabled), &registry, "ext.alpha.query")
        .unwrap_err()
        .contains("not granted invoke capability"));
}

use navis_extension::operation::{clear_extension_operations, file_read_request};
use navis_extension::models::ExtensionStatus;
use navis_extension::operation::{
    authorize_execution, dispatch_operation, ensure_extension_enabled, register_operation,
    require_allowed, validate_operation_id, CheckResult, OperationDispatch,
    OperationExecuteRequest, OperationHandlerKind, OperationRegisterRequest, OperationRegistration,
    OperationRegistry, OperationType, PermissionLevel,
};

fn registration(extension_id: &str, op: &str, handler_kind: OperationHandlerKind) -> OperationRegistration {
    OperationRegistration {
        id: format!("{extension_id}.{op}"),
        extension_id: extension_id.to_string(),
        label: format!("Op {op}"),
        operation_type: OperationType::FileRead,
        permission_level: PermissionLevel::LightCheck,
        params_schema: None,
        handler_kind,
    }
}

fn register_op(registry: &mut OperationRegistry, extension_id: &str, op: &str, handler_kind: OperationHandlerKind) {
    registry.register(registration(extension_id, op, handler_kind)).unwrap();
}

fn execute_request(extension_id: &str, operation_id: &str, params: &str) -> OperationExecuteRequest {
    OperationExecuteRequest {
        extension_id: extension_id.into(),
        operation_id: operation_id.into(),
        params: params.into(),
        session_id: None,
        worktree: None,
    }
}

#[test]
fn registry_validates_namespace_and_label() {
    let mut registry = OperationRegistry::default();
    let base = OperationRegistration {
        id: "ext.alpha.query".into(),
        extension_id: "ext.alpha".into(),
        label: "Query".into(),
        operation_type: OperationType::FileRead,
        permission_level: PermissionLevel::LightCheck,
        params_schema: None,
        handler_kind: OperationHandlerKind::Extension,
    };

    assert!(registry.register(base.clone()).is_ok());
    assert!(registry.register(base.clone()).is_err());
    let mut no_label = base.clone();
    no_label.id = "ext.alpha.other".into();
    no_label.label = "   ".into();
    assert!(registry.register(no_label).is_err());
    let mut bad_prefix = base.clone();
    bad_prefix.id = "ext.beta.query".into();
    assert!(registry.register(bad_prefix).is_err());
    let mut empty_op = base;
    empty_op.id = "ext.alpha.".into();
    assert!(registry.register(empty_op).is_err());

    let beta = OperationRegistration {
        id: "ext.beta.query".into(),
        extension_id: "ext.beta".into(),
        label: "Beta Query".into(),
        operation_type: OperationType::FileRead,
        permission_level: PermissionLevel::LightCheck,
        params_schema: None,
        handler_kind: OperationHandlerKind::Extension,
    };
    assert!(registry.register(beta).is_ok());
    assert!(registry.get("ext.alpha.query").is_some());
    assert!(registry.get("ext.beta.query").is_some());
    assert_eq!(registry.list(Some("ext.alpha")).len(), 1);
    assert_eq!(registry.list(None).len(), 2);
}

#[test]
fn unregister_extension_cleans_only_matching_extension() {
    let mut registry = OperationRegistry::default();
    register_op(&mut registry, "ext.alpha", "query", OperationHandlerKind::Builtin);
    register_op(&mut registry, "ext.beta", "query", OperationHandlerKind::Builtin);

    assert_eq!(registry.unregister_extension("ext.alpha"), 1);
    assert!(registry.get("ext.alpha.query").is_none());
    assert!(registry.get("ext.beta.query").is_some());
    assert_eq!(registry.list(None).len(), 1);

    assert_eq!(registry.unregister_extension("ext.alpha"), 0);
}

#[test]
fn require_allowed_rejects_confirm_and_denied() {
    let allowed = CheckResult::allowed(PermissionLevel::LightCheck);
    assert!(require_allowed(&allowed, "op").is_ok());

    let needs_confirm = CheckResult::needs_confirm(PermissionLevel::UserConfirm, "confirm me");
    assert!(require_allowed(&needs_confirm, "op").is_err());

    let denied = CheckResult::denied(PermissionLevel::UserConfirm, "blocked");
    assert!(require_allowed(&denied, "op").is_err());
}

#[test]
fn require_allowed_names_the_reason() {
    let denied = CheckResult::denied(PermissionLevel::StrictCheck, "blocked");
    assert_eq!(require_allowed(&denied, "op").unwrap_err(), "Operation 'op' denied by sandbox: blocked");
    let confirm = CheckResult::needs_confirm(PermissionLevel::UserConfirm, "confirm me");
    assert_eq!(require_allowed(&confirm, "op").unwrap_err(), "Operation 'op' denied by sandbox: confirm me");
}

#[test]
fn register_operation_requires_enabled_extension() {
    let mut registry = OperationRegistry::default();
    let request = OperationRegisterRequest {
        extension_id: "ext.alpha".into(),
        id: "ext.alpha.query".into(),
        label: "Query".into(),
        permission_level: PermissionLevel::LightCheck,
        operation_type: OperationType::FileRead,
        params_schema: None,
        handler_kind: OperationHandlerKind::Extension,
    };
    assert!(register_operation(Some(ExtensionStatus::Disabled), &mut registry, request.clone()).is_err());
    assert!(register_operation(None, &mut registry, request.clone()).is_err());
    let reg = register_operation(Some(ExtensionStatus::Enabled), &mut registry, request).unwrap();
    assert_eq!(reg.id, "ext.alpha.query");
    assert_eq!(registry.list(None).len(), 1);
}

#[test]
fn list_returns_only_requested_extension() {
    let mut registry = OperationRegistry::default();
    register_op(&mut registry, "ext.alpha", "query", OperationHandlerKind::Builtin);
    register_op(&mut registry, "ext.beta", "query", OperationHandlerKind::Builtin);

    let alpha = registry.list(Some("ext.alpha"));
    assert_eq!(alpha.len(), 1);
    assert_eq!(alpha[0].extension_id, "ext.alpha");
    assert_eq!(registry.list(None).len(), 2);
}

#[test]
fn list_is_ordered_by_id() {
    let mut registry = OperationRegistry::new();
    register_op(&mut registry, "ext.b", "z", OperationHandlerKind::Builtin);
    register_op(&mut registry, "ext.a", "y", OperationHandlerKind::Builtin);
    register_op(&mut registry, "ext.b", "a", OperationHandlerKind::Builtin);
    let ids: Vec<String> = registry.list(None).into_iter().map(|r| r.id).collect();
    assert_eq!(ids, vec!["ext.a.y", "ext.b.a", "ext.b.z"]);
}

#[test]
fn operation_ids_are_namespaced() {
    assert!(validate_operation_id("ext.a.q", "ext.a").is_ok());
    assert_eq!(
        validate_operation_id("ext.b.q", "ext.a").unwrap_err(),
        "Operation id 'ext.b.q' must be namespaced by extension 'ext.a'"
    );
    assert_eq!(
        validate_operation_id("ext.a.", "ext.a").unwrap_err(),
        "Operation id 'ext.a.' has an empty operation part"
    );
}

#[test]
fn enabled_check_messages() {
    assert!(ensure_extension_enabled(Some(ExtensionStatus::Enabled), "e").is_ok());
    assert_eq!(ensure_extension_enabled(None, "e").unwrap_err(), "Extension 'e' is not installed");
    assert_eq!(
        ensure_extension_enabled(Some(ExtensionStatus::Loading), "e").unwrap_err(),
        "Extension 'e' is not enabled"
    );
}

#[test]
fn execution_fails_closed_before_the_sandbox() {
    let mut registry = OperationRegistry::new();
    register_op(&mut registry, "ext.beta", "query", OperationHandlerKind::Extension);
    let unregistered = execute_request("ext.alpha", "ext.alpha.query", "{}");
    assert_eq!(
        authorize_execution(Some(ExtensionStatus::Enabled), &registry, &unregistered).unwrap_err(),
        "Operation 'ext.alpha.query' is not registered"
    );
    let disabled = execute_request("ext.beta", "ext.beta.query", "{}");
    assert!(authorize_execution(Some(ExtensionStatus::Disabled), &registry, &disabled).is_err());
    let spoofed = execute_request("ext.alpha", "ext.beta.query", "{}");
    assert_eq!(
        authorize_execution(Some(ExtensionStatus::Enabled), &registry, &spoofed).unwrap_err(),
        "Operation 'ext.beta.query' belongs to extension 'ext.beta', not 'ext.alpha'"
    );
    let (op, request) = authorize_execution(Some(ExtensionStatus::Enabled), &registry, &disabled).unwrap();
    assert_eq!(op.id, "ext.beta.query");
    assert_eq!(request.target, "ext.beta.query");
    assert_eq!(request.actor, "extension:ext.beta");
}

#[test]
fn dispatch_after_sandbox() {
    let ext_op = registration("ext.alpha", "query", OperationHandlerKind::Extension);
    let request = execute_request("ext.alpha", "ext.alpha.query", "{\"query\":\"SELECT 1\"}");
    let allowed = CheckResult::allowed(PermissionLevel::LightCheck);
    match dispatch_operation(&allowed, &ext_op, &request).unwrap() {
        OperationDispatch::ExtensionHandler { operation_id, params } => {
            assert_eq!(operation_id, "ext.alpha.query");
            assert_eq!(params, "{\"query\":\"SELECT 1\"}");
        }
        other => panic!("unexpected dispatch {other:?}"),
    }
    let confirm = CheckResult::needs_confirm(PermissionLevel::UserConfirm, "confirm");
    assert!(dispatch_operation(&confirm, &ext_op, &request).is_err());

    let read = registration("ext.alpha", "file.read", OperationHandlerKind::Builtin);
    let request = execute_request("ext.alpha", "ext.alpha.file.read", "{\"path\":\"sample.txt\"}");
    match dispatch_operation(&allowed, &read, &request).unwrap() {
        OperationDispatch::ReadFile { path, .. } => assert_eq!(path, "sample.txt"),
        other => panic!("unexpected dispatch {other:?}"),
    }
    let missing = execute_request("ext.alpha", "ext.alpha.file.read", "{}");
    assert_eq!(
        dispatch_operation(&allowed, &read, &missing).unwrap_err(),
        "file.read requires a 'path' parameter"
    );

    let write = registration("ext.alpha", "write", OperationHandlerKind::Builtin);
    let request = execute_request("ext.alpha", "ext.alpha.write", "{\"path\":\"/tmp/x\"}");
    let error = dispatch_operation(&allowed, &write, &request).unwrap_err();
    assert!(error.contains("Builtin operation not implemented"));
}

#[test]
fn clearing_an_extension_keeps_the_others() {
    let mut registry = OperationRegistry::default();
    registry.register(registration("ext.a", "one", OperationHandlerKind::Builtin)).unwrap();
    registry.register(registration("ext.b", "two", OperationHandlerKind::Builtin)).unwrap();
    clear_extension_operations(&mut registry, "ext.a");
    assert!(registry.get("ext.a.one").is_none());
    assert!(registry.get("ext.b.two").is_some());
}

#[test]
fn file_read_request_targets_the_resolved_path() {
    let request = file_read_request("ext.a", "/work/notes.txt", Some("/work"));
    assert_eq!(request.operation_type, OperationType::FileRead);
    assert_eq!(request.target, "/work/notes.txt");
    assert_eq!(request.actor, "extension:ext.a");
    assert_eq!(request.worktree.as_deref(), Some("/work"));
    assert!(request.session_id.is_none());
}

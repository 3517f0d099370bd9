use navis_extension::loader::{is_valid_extension_id, ExtensionLoader, ManifestErrorKind};
use navis_extension::models::{
    BackendProtocol, ComponentCapabilities, BackendServiceRegistration, BackendTransport, BuiltinAction,
    CommandRegistration, ComponentKind, ComponentRegistration, EventHandlerReference,
    EventSubscriptionRegistration, ExtensionContributes, ExtensionManifest, ExtensionPermissions,
    HookAction, HookPhase, HookRegistration, KeybindingRegistration, KeybindingScope,
    MenuRegistration, ResourceLimits, ToolbarItemRegistration, ToolbarPosition,
    TrayItemRegistration, TrayPosition, TriggerRegistration, TriggerScope, ViewRegistration,
};

fn create_valid_manifest(id: &str) -> ExtensionManifest {
    ExtensionManifest {
        id: id.to_string(),
        name: format!("Extension {}", id),
        version: "1.0.0".into(),
        description: "test".into(),
        author: "tester".into(),
        permissions: ExtensionPermissions {
            filesystem: vec![],
            terminal: vec![],
            network: vec![],
            ipc: vec![],
            events: vec![],
            resources: ResourceLimits { max_memory_mb: 512, timeout_ms: 30000 },
        },
        contributes: ExtensionContributes::empty(),
    }
}

fn valid_event_subscription(id: &str) -> EventSubscriptionRegistration {
    EventSubscriptionRegistration {
        id: id.into(),
        topic: "session.completed".into(),
        scope_key: Some("session:active".into()),
        handler: EventHandlerReference {
            module: "./runtime/events".into(),
            export: "onSessionCompleted".into(),
        },
    }
}

fn view(id: &str, placement: Option<&str>, renderer: &str) -> ViewRegistration {
    ViewRegistration {
        id: id.into(),
        name: "Test View".into(),
        icon: None,
        entry: None,
        zone: None,
        placement: placement.map(str::to_string),
        renderer: renderer.into(),
        activation_events: vec![],
        allow_close: None,
        default_visible: None,
        config: None,
    }
}

fn trigger(prefix: &str) -> TriggerRegistration {
    TriggerRegistration {
        prefix: prefix.into(),
        label: "PR".into(),
        description: "desc".into(),
        icon: None,
        placeholder: None,
        search_module: "./s.js".into(),
        select_module: "./s.js".into(),
        scope: TriggerScope::Global,
    }
}

fn open_view_command(view_id: &str) -> CommandRegistration {
    CommandRegistration {
        id: "test.cmd".into(),
        label: "Test".into(),
        description: None,
        icon: None,
        category: None,
        when: None,
        action: BuiltinAction::OpenView { view_id: view_id.into() },
    }
}

fn valid_backend_service(id: &str) -> BackendServiceRegistration {
    BackendServiceRegistration {
        id: id.into(),
        entry: "ExtensionBackend/server".into(),
        transport: BackendTransport::Stdio,
        protocol: BackendProtocol::JsonRpc,
        args: vec![],
        env: vec![],
        autostart: false,
    }
}

fn valid_component(id: &str) -> ComponentRegistration {
    ComponentRegistration {
        id: id.into(),
        entry: "ExtensionUI/scripts/app.component.wasm".into(),
        kind: ComponentKind::Logic,
        run_on: vec![],
        autostart: false,
        capabilities: ComponentCapabilities {
            invoke: vec![],
            storage: vec![],
            network: None,
            events: vec![],
        },
    }
}

fn error_of(manifest: &ExtensionManifest) -> String {
    ExtensionLoader::new().validate(manifest, true).unwrap_err().to_string()
}

#[test]
fn test_validate_empty_id() {
    let loader = ExtensionLoader::new();
    let mut manifest = create_valid_manifest("test");
    manifest.id = "".to_string();

    let result = loader.validate(&manifest, true);
    assert!(result.is_err());
    assert!(result.unwrap_err().to_string().contains("ID is empty"));
}

#[test]
fn test_validate_empty_name() {
    let loader = ExtensionLoader::new();
    let mut manifest = create_valid_manifest("test");
    manifest.name = "".to_string();

    let result = loader.validate(&manifest, true);
    assert!(result.is_err());
    assert!(result.unwrap_err().to_string().contains("name is empty"));
}

#[test]
fn test_validate_zero_memory() {
    let loader = ExtensionLoader::new();
    let mut manifest = create_valid_manifest("test");
    manifest.permissions.resources.max_memory_mb = 0;
    assert!(loader.validate(&manifest, true).is_err());
}

#[test]
fn test_validate_invalid_cpu_percent() {
    let loader = ExtensionLoader::new();
    let manifest = create_valid_manifest("test");
    let result = loader.validate(&manifest, false);
    assert!(result.is_err());
    assert_eq!(result.unwrap_err().kind, ManifestErrorKind::CpuPercentOutOfRange);
    assert!(loader.validate(&manifest, true).is_ok());
}

#[test]
fn test_validate_zero_timeout() {
    let loader = ExtensionLoader::new();
    let mut manifest = create_valid_manifest("test");
    manifest.permissions.resources.timeout_ms = 0;
    assert!(loader.validate(&manifest, true).is_err());
}

#[test]
fn test_validate_event_subscriptions_accepts_valid_declarations() {
    let loader = ExtensionLoader::new();
    let mut manifest = create_valid_manifest("test");
    manifest.contributes.event_subscriptions = Some(vec![
        valid_event_subscription("session-completed"),
        valid_event_subscription("project-changed"),
    ]);
    loader.validate(&manifest, true).unwrap();
}

#[test]
fn test_validate_event_subscriptions_rejects_empty_or_duplicate_ids() {
    let mut manifest = create_valid_manifest("test");
    let mut empty_id = valid_event_subscription("valid-id");
    empty_id.id = "  ".into();
    manifest.contributes.event_subscriptions = Some(vec![empty_id]);
    assert!(error_of(&manifest).contains("Event subscription ID is empty"));

    let mut manifest = create_valid_manifest("test");
    manifest.contributes.event_subscriptions = Some(vec![
        valid_event_subscription("duplicate-id"),
        valid_event_subscription("duplicate-id"),
    ]);
    assert!(error_of(&manifest).contains("Duplicate Event subscription ID"));
}

#[test]
fn test_validate_event_subscriptions_rejects_invalid_topics_and_scope_keys() {
    for (topic, expected_message) in [
        ("", "topic is empty"),
        ("session..completed", "dot-separated name segments"),
        ("session.*", "dot-separated name segments"),
        ("session completed", "ASCII topic without whitespace"),
    ] {
        let mut manifest = create_valid_manifest("test");
        let mut subscription = valid_event_subscription("invalid-topic");
        subscription.topic = topic.into();
        manifest.contributes.event_subscriptions = Some(vec![subscription]);
        let error = error_of(&manifest);
        assert!(error.contains(expected_message), "unexpected error: {error}");
    }

    let mut manifest = create_valid_manifest("test");
    let mut subscription = valid_event_subscription("invalid-scope");
    subscription.scope_key = Some(" ".into());
    manifest.contributes.event_subscriptions = Some(vec![subscription]);
    assert!(error_of(&manifest).contains("scopeKey must be a non-empty value"));
}

#[test]
fn test_validate_event_subscriptions_rejects_invalid_handler_module_paths() {
    for module in [
        "",
        "/runtime/events",
        "C:/runtime/events",
        "./runtime/../events",
        "./runtime\\events",
        "./runtime//events",
        "./runtime/./events",
    ] {
        let mut manifest = create_valid_manifest("test");
        let mut subscription = valid_event_subscription("invalid-module");
        subscription.handler.module = module.into();
        manifest.contributes.event_subscriptions = Some(vec![subscription]);
        let error = error_of(&manifest);
        assert!(
            error.contains("handler module") || error.contains("path segment"),
            "unexpected error for module '{module}': {error}"
        );
    }
}

#[test]
fn test_validate_event_subscriptions_rejects_invalid_handler_exports() {
    for export in ["", " ", "on-session-completed", "handler.name", "1handler"] {
        let mut manifest = create_valid_manifest("test");
        let mut subscription = valid_event_subscription("invalid-export");
        subscription.handler.export = export.into();
        manifest.contributes.event_subscriptions = Some(vec![subscription]);
        let error = error_of(&manifest);
        assert!(error.contains("handler export"), "unexpected error: {error}");
    }
}

#[test]
fn test_validate_trigger_prefix_must_start_with_slash() {
    let mut manifest = create_valid_manifest("test");
    manifest.contributes.triggers = Some(vec![trigger("pr")]);
    assert!(error_of(&manifest).contains("must start with '/'"));
}

#[test]
fn test_validate_trigger_prefix_uppercase_rejected() {
    let mut manifest = create_valid_manifest("test");
    manifest.contributes.triggers = Some(vec![trigger("/PR")]);
    assert!(error_of(&manifest).contains("lowercase letters, digits, '-' or '.'"));
}

#[test]
fn test_validate_trigger_valid_prefix() {
    let loader = ExtensionLoader::new();
    let mut manifest = create_valid_manifest("test");
    manifest.contributes.triggers = Some(vec![trigger("/pr123")]);
    assert!(loader.validate(&manifest, true).is_ok());
}

#[test]
fn test_validate_duplicate_hook_id_rejected() {
    let mut manifest = create_valid_manifest("test");
    manifest.contributes.hooks = Some(vec![
        HookRegistration {
            id: "guard".into(),
            name: "Guard".into(),
            phase: HookPhase::PreToolUse,
            priority: None,
            module: "./hooks/guard.js".into(),
            when: None,
            action: HookAction::default(),
        },
        HookRegistration {
            id: "guard".into(),
            name: "Guard Again".into(),
            phase: HookPhase::PostToolUse,
            priority: None,
            module: "./hooks/guard-again.js".into(),
            when: None,
            action: HookAction::default(),
        },
    ]);
    assert!(error_of(&manifest).contains("Duplicate Hook ID"));
}

#[test]
fn test_validate_menu_references_command() {
    let mut manifest = create_valid_manifest("test");
    manifest.contributes.menus = Some(vec![MenuRegistration {
        id: "test.menu".into(),
        label: "Test Menu".into(),
        target: "Tools".to_string(),
        command: "nonexistent.cmd".into(),
        group: None,
        when: None,
        icon: None,
        shortcut: None,
        risk: None,
    }]);
    assert!(error_of(&manifest).contains("non-existent command"));
}

#[test]
fn test_validate_builtin_action_open_view_references() {
    let mut manifest = create_valid_manifest("test");
    manifest.contributes.commands = Some(vec![open_view_command("nonexistent.view")]);
    assert!(error_of(&manifest).contains("non-existent view"));
}

#[test]
fn test_validate_builtin_action_valid_references() {
    let loader = ExtensionLoader::new();
    let mut manifest = create_valid_manifest("test");
    manifest.contributes.views = Some(vec![view("test.view", Some("rightWorkspace"), "host:panel")]);
    manifest.contributes.commands = Some(vec![open_view_command("test.view")]);
    assert!(loader.validate(&manifest, true).is_ok());
}

#[test]
fn test_validate_rejects_dynamic_view_renderer() {
    let mut manifest = create_valid_manifest("test");
    manifest.contributes.views = Some(vec![view(
        "test.view",
        Some("rightWorkspace"),
        "extension:unsupported-renderer",
    )]);
    assert!(error_of(&manifest).contains("unsupported renderer"));
}

#[test]
fn test_validate_rejects_unsupported_view_placement() {
    let mut manifest = create_valid_manifest("test");
    manifest.contributes.views = Some(vec![view("test.view", Some("floatingDock"), "host:panel")]);
    assert!(error_of(&manifest).contains("invalid zone"));
}

#[test]
fn test_validate_rejects_view_without_placement() {
    let mut manifest = create_valid_manifest("test");
    manifest.contributes.views = Some(vec![view("test.view", None, "host:panel")]);
    assert!(error_of(&manifest).contains("must declare a zone"));
}

#[test]
fn test_validate_toolbar_references_command() {
    let mut manifest = create_valid_manifest("test");
    manifest.contributes.toolbar_items = Some(vec![ToolbarItemRegistration {
        id: "test.toolbar".into(),
        label: "Test".into(),
        icon: "test".into(),
        command: "nonexistent.cmd".into(),
        position: ToolbarPosition::Main,
        group: None,
        when: None,
    }]);
    assert!(error_of(&manifest).contains("non-existent command"));
}

#[test]
fn test_validate_tray_references_command() {
    let mut manifest = create_valid_manifest("test");
    manifest.contributes.tray_items = Some(vec![TrayItemRegistration {
        id: "test.tray".into(),
        label: "Test".into(),
        icon: None,
        command: "nonexistent.cmd".into(),
        position: TrayPosition::Bottom,
        when: None,
    }]);
    assert!(error_of(&manifest).contains("non-existent command"));
}

#[test]
fn test_validate_keybinding_references_command() {
    let mut manifest = create_valid_manifest("test");
    manifest.contributes.keybindings = Some(vec![KeybindingRegistration {
        command: "nonexistent.cmd".into(),
        key: "Ctrl+Shift+T".into(),
        when: None,
        scope: KeybindingScope::App,
    }]);
    assert!(error_of(&manifest).contains("non-existent command"));
}

#[test]
fn test_validate_backend_services_accepts_valid_declarations() {
    let loader = ExtensionLoader::new();
    let mut manifest = create_valid_manifest("test");
    manifest.contributes.backend_services = Some(vec![
        valid_backend_service("search"),
        valid_backend_service("language-server"),
    ]);
    loader.validate(&manifest, true).unwrap();
}

#[test]
fn test_validate_backend_services_rejects_entry_outside_extension_backend() {
    for entry in ["bin/server", "ExtensionUI/server", "ExtensionBackend"] {
        let mut manifest = create_valid_manifest("test");
        let mut service = valid_backend_service("search");
        service.entry = entry.into();
        manifest.contributes.backend_services = Some(vec![service]);
        let error = error_of(&manifest);
        assert!(
            error.contains("ExtensionBackend directory"),
            "unexpected error for entry '{entry}': {error}"
        );
    }
}

#[test]
fn test_validate_backend_services_rejects_empty_entry() {
    let mut manifest = create_valid_manifest("test");
    let mut service = valid_backend_service("search");
    service.entry = "".into();
    manifest.contributes.backend_services = Some(vec![service]);
    assert!(error_of(&manifest).contains("entry is empty"));
}

#[test]
fn test_validate_backend_services_rejects_unsafe_entries() {
    for entry in [
        "/server",
        "C:/server",
        "ExtensionBackend\\server",
        "ExtensionBackend/../server",
        "ExtensionBackend/./server",
        "ExtensionBackend//server",
        "ExtensionBackend/server:8080",
    ] {
        let mut manifest = create_valid_manifest("test");
        let mut service = valid_backend_service("search");
        service.entry = entry.into();
        manifest.contributes.backend_services = Some(vec![service]);
        let error = error_of(&manifest);
        assert!(
            error.contains("relative path") || error.contains("unsafe path segment"),
            "unexpected error for entry '{entry}': {error}"
        );
    }
}

#[test]
fn test_validate_backend_services_rejects_empty_or_duplicate_ids() {
    let mut manifest = create_valid_manifest("test");
    let mut empty_id = valid_backend_service("search");
    empty_id.id = "  ".into();
    manifest.contributes.backend_services = Some(vec![empty_id]);
    assert!(error_of(&manifest).contains("Backend service ID is empty"));

    let mut manifest = create_valid_manifest("test");
    let mut whitespace_id = valid_backend_service("search");
    whitespace_id.id = "search server".into();
    manifest.contributes.backend_services = Some(vec![whitespace_id]);
    assert!(error_of(&manifest).contains("whitespace or control characters"));

    let mut manifest = create_valid_manifest("test");
    manifest.contributes.backend_services = Some(vec![
        valid_backend_service("duplicate-id"),
        valid_backend_service("duplicate-id"),
    ]);
    assert!(error_of(&manifest).contains("Duplicate Backend service ID"));
}

#[test]
fn test_validate_components_accepts_valid_declarations() {
    let loader = ExtensionLoader::new();
    let mut manifest = create_valid_manifest("test");
    manifest.contributes.components = Some(vec![
        valid_component("app"),
        ComponentRegistration {
            entry: "ExtensionBackend/logic/worker.component.wasm".into(),
            ..valid_component("worker")
        },
    ]);
    loader.validate(&manifest, true).unwrap();
}

#[test]
fn test_validate_components_rejects_entry_outside_extension_dirs() {
    for entry in ["bin/worker.component.wasm", "ui/worker.component.wasm"] {
        let mut manifest = create_valid_manifest("test");
        let mut component = valid_component("worker");
        component.entry = entry.into();
        manifest.contributes.components = Some(vec![component]);
        let error = error_of(&manifest);
        assert!(
            error.contains("ExtensionUI or ExtensionBackend directory"),
            "unexpected error for entry '{entry}': {error}"
        );
    }
}

#[test]
fn test_validate_components_rejects_empty_or_duplicate_ids() {
    let mut manifest = create_valid_manifest("test");
    let mut empty_id = valid_component("worker");
    empty_id.id = "  ".into();
    manifest.contributes.components = Some(vec![empty_id]);
    assert!(error_of(&manifest).contains("Component ID is empty"));

    let mut manifest = create_valid_manifest("test");
    manifest.contributes.components = Some(vec![
        valid_component("duplicate-id"),
        valid_component("duplicate-id"),
    ]);
    assert!(error_of(&manifest).contains("Duplicate Component ID"));
}

#[test]
fn test_validate_components_rejects_non_wasm_entry() {
    let mut manifest = create_valid_manifest("test");
    let mut component = valid_component("worker");
    component.entry = "ExtensionBackend/logic/worker.component.js".into();
    manifest.contributes.components = Some(vec![component]);
    assert!(error_of(&manifest).contains("must end with '.wasm'"));
}

#[test]
fn test_validate_components_rejects_unknown_runon_trigger() {
    let mut manifest = create_valid_manifest("test");
    let mut component = valid_component("worker");
    component.run_on = vec!["view-open".into()];
    manifest.contributes.components = Some(vec![component]);
    let error = error_of(&manifest);
    assert!(error.contains("unsupported runOn trigger"), "unexpected: {error}");
}

#[test]
fn test_validate_components_accepts_known_runon_triggers() {
    let loader = ExtensionLoader::new();
    let mut manifest = create_valid_manifest("test");
    let mut component = valid_component("worker");
    component.run_on = vec!["activation".into(), "message".into()];
    manifest.contributes.components = Some(vec![component]);
    loader.validate(&manifest, true).unwrap();
}

#[test]
fn extension_ids() {
    assert!(is_valid_extension_id("com.example.my-ext_1"));
    assert!(!is_valid_extension_id(""));
    assert!(!is_valid_extension_id("com example"));
    assert!(!is_valid_extension_id("com/example"));
}

use navis_extension::models::{
    status_to_kernel_lifecycle, ExtensionPermissions, ExtensionStatus, HookAction, LanguageSource,
    LifecycleAction, NetworkPolicy, ResourceLimits, StatusPresentation, UISandboxMode,
};

#[test]
fn test_extension_status_display() {
    assert_eq!(ExtensionStatus::Installed.to_string(), "installed");
    assert_eq!(ExtensionStatus::Loading.to_string(), "loading");
    assert_eq!(ExtensionStatus::Enabled.to_string(), "enabled");
    assert_eq!(ExtensionStatus::Disabling.to_string(), "disabling");
    assert_eq!(ExtensionStatus::Disabled.to_string(), "disabled");
    assert_eq!(ExtensionStatus::Unloading.to_string(), "unloading");
    assert_eq!(ExtensionStatus::Error.to_string(), "error");
}

#[test]
fn test_resource_limits_default() {
    let limits = ResourceLimits::default();
    assert_eq!(limits.max_memory_mb, 512);
    assert_eq!(limits.timeout_ms, 30_000);
}

#[test]
fn permissions_default_grant_nothing() {
    let p = ExtensionPermissions::default();
    assert!(p.filesystem.is_empty() && p.terminal.is_empty() && p.network.is_empty());
    assert!(p.ipc.is_empty() && p.events.is_empty());
    assert_eq!(p.resources, ResourceLimits::default());
}

#[test]
fn enum_defaults() {
    assert_eq!(NetworkPolicy::default(), NetworkPolicy::Blocked);
    assert_eq!(UISandboxMode::default(), UISandboxMode::ShadowDom);
    assert_eq!(HookAction::default(), HookAction::Continue);
}

#[test]
fn only_enable_and_disable_reach_the_kernel_lifecycle() {
    assert_eq!(status_to_kernel_lifecycle(&ExtensionStatus::Enabled), Some(LifecycleAction::Enable));
    assert_eq!(status_to_kernel_lifecycle(&ExtensionStatus::Disabled), Some(LifecycleAction::Disable));
    for s in [
        ExtensionStatus::Installed,
        ExtensionStatus::Loading,
        ExtensionStatus::Disabling,
        ExtensionStatus::Unloading,
        ExtensionStatus::Error,
    ] {
        assert_eq!(status_to_kernel_lifecycle(&s), None);
    }
}

#[test]
fn status_presentation_classes() {
    assert_eq!(ExtensionStatus::Loading.status_presentation(), StatusPresentation::Active);
    assert_eq!(ExtensionStatus::Unloading.status_presentation(), StatusPresentation::Active);
    assert_eq!(ExtensionStatus::Enabled.status_presentation(), StatusPresentation::Succeeded);
    assert_eq!(ExtensionStatus::Disabled.status_presentation(), StatusPresentation::Inactive);
    assert_eq!(ExtensionStatus::Error.status_presentation(), StatusPresentation::Failed);
}

#[test]
fn language_source_owner_and_label() {
    let builtin = LanguageSource::Builtin;
    assert!(builtin.is_builtin());
    assert_eq!(builtin.owner(), None);
    assert_eq!(builtin.label(), "builtin");
    let ext = LanguageSource::Extension { owner: "ext.demo".into() };
    assert!(!ext.is_builtin());
    assert_eq!(ext.owner(), Some("ext.demo"));
    assert_eq!(ext.label(), "extension");
}

use navis_extension::host_view::{host_panel_renderer, html_sandbox_renderer};
use navis_extension::host_view::{
    effective_view_zone, validate_extension_view, validate_extension_view_with_declared_zones,
    validate_extension_zone_anchor_parent,
};
use navis_extension::models::ViewRegistration;

const HOST_PANEL_RENDERER: &str = "host:panel";
const HTML_SANDBOX_RENDERER: &str = "html:sandbox";
const RIGHT_WORKSPACE: &str = "rightWorkspace";

fn test_view(zone: Option<&str>, renderer: &str) -> ViewRegistration {
    ViewRegistration {
        id: "test.view".to_string(),
        name: "Test View".to_string(),
        icon: None,
        entry: None,
        zone: zone.map(str::to_string),
        placement: None,
        renderer: renderer.to_string(),
        activation_events: Vec::new(),
        allow_close: Some(true),
        default_visible: Some(false),
        config: None,
    }
}

fn declared(ids: &[&str]) -> Vec<String> {
    ids.iter().map(|s| s.to_string()).collect()
}

#[test]
fn view_without_zone_is_not_renderable() {
    let view = test_view(None, HOST_PANEL_RENDERER);
    assert_eq!(effective_view_zone(&view), None);
    assert!(validate_extension_view(&view).is_err());
}

#[test]
fn supported_zones_render_host_and_html_views() {
    for placement in ["rightWorkspace", "chatAside", "bottomDrawer", "settingsSection"] {
        let host_view = test_view(Some(placement), HOST_PANEL_RENDERER);
        assert!(validate_extension_view(&host_view).is_ok(), "{placement}");

        let mut html_view = test_view(Some(placement), HTML_SANDBOX_RENDERER);
        html_view.entry = Some("ExtensionUI/index.html".into());
        assert!(validate_extension_view(&html_view).is_ok(), "{placement}");
    }
}

#[test]
fn unknown_renderer_and_invalid_zone_are_rejected() {
    let renderer = test_view(Some(RIGHT_WORKSPACE), "extension:custom");
    assert!(validate_extension_view(&renderer).is_err());

    let dynamic_zone = test_view(Some("sample.ext:floatingDock"), HOST_PANEL_RENDERER);
    assert!(validate_extension_view(&dynamic_zone).is_ok());

    let invalid_zone = test_view(Some("floating Dock"), HOST_PANEL_RENDERER);
    assert!(validate_extension_view(&invalid_zone).is_err());
}

#[test]
fn html_renderer_requires_safe_relative_entry() {
    let mut view = test_view(Some(RIGHT_WORKSPACE), HTML_SANDBOX_RENDERER);
    for entry in [
        None,
        Some("../index.html"),
        Some("/index.html"),
        Some("C:/index.html"),
        Some("https://example.com/index.html"),
        Some("ExtensionUI\\index.html"),
    ] {
        view.entry = entry.map(str::to_string);
        assert!(validate_extension_view(&view).is_err(), "unsafe entry: {entry:?}");
    }

    view.entry = Some("ExtensionUI/index.html".into());
    assert!(validate_extension_view(&view).is_ok());
}

#[test]
fn host_renderer_does_not_accept_entry() {
    let mut view = test_view(Some(RIGHT_WORKSPACE), HOST_PANEL_RENDERER);
    view.entry = Some("index.html".into());
    assert!(validate_extension_view(&view).is_err());
}

#[test]
fn namespaced_view_zone_must_be_declared_by_the_extension() {
    let declared = declared(&["customPanel", "chatDock"]);

    let view = test_view(Some("sample.ext:customPanel"), HOST_PANEL_RENDERER);
    assert!(validate_extension_view_with_declared_zones(&view, "sample.ext", &declared).is_ok());

    let builtin = test_view(Some(RIGHT_WORKSPACE), HOST_PANEL_RENDERER);
    assert!(validate_extension_view_with_declared_zones(&builtin, "sample.ext", &declared).is_ok());

    let undeclared = test_view(Some("sample.ext:floatingDock"), HOST_PANEL_RENDERER);
    assert!(validate_extension_view_with_declared_zones(&undeclared, "sample.ext", &declared).is_err());

    let other_owner = test_view(Some("other.ext:customPanel"), HOST_PANEL_RENDERER);
    assert!(validate_extension_view_with_declared_zones(&other_owner, "sample.ext", &declared).is_err());
}

#[test]
fn zone_anchor_parent_must_resolve_to_builtin_or_declared_zone() {
    let declared = declared(&["customPanel"]);

    assert!(validate_extension_zone_anchor_parent(RIGHT_WORKSPACE, "sample.ext", &declared).is_ok());
    assert!(validate_extension_zone_anchor_parent("sample.ext:customPanel", "sample.ext", &declared).is_ok());

    assert!(validate_extension_zone_anchor_parent("sample.ext:missing", "sample.ext", &declared).is_err());
    assert!(validate_extension_zone_anchor_parent("other.ext:customPanel", "sample.ext", &declared).is_err());
    assert!(validate_extension_zone_anchor_parent("right Workspace", "sample.ext", &declared).is_err());
    assert!(validate_extension_zone_anchor_parent("", "sample.ext", &declared).is_err());
}

#[test]
fn anchor_errors_name_the_parent() {
    let declared = declared(&["customPanel"]);
    let e = validate_extension_zone_anchor_parent("floatingDock", "sample.ext", &declared).unwrap_err();
    assert_eq!(e.to_string(), "anchor parent 'floatingDock' must be a builtin zone or '{extId}:{zoneId}'");
    let e = validate_extension_zone_anchor_parent("  ", "sample.ext", &declared).unwrap_err();
    assert_eq!(e.to_string(), "anchor parent must not be empty");
}

#[test]
fn view_errors_name_the_view() {
    let view = test_view(Some("floating Dock"), HOST_PANEL_RENDERER);
    let e = validate_extension_view(&view).unwrap_err();
    assert_eq!(e.to_string(), "View 'test.view' uses invalid zone 'floating Dock'");
    let mut html = test_view(Some(RIGHT_WORKSPACE), HTML_SANDBOX_RENDERER);
    html.entry = Some("Other/index.html".into());
    let e = validate_extension_view(&html).unwrap_err();
    assert_eq!(
        e.to_string(),
        "View 'test.view': entry must be located below the ExtensionUI directory"
    );
}

#[test]
fn renderer_names() {
    assert_eq!(host_panel_renderer(), HOST_PANEL_RENDERER);
    assert_eq!(html_sandbox_renderer(), HTML_SANDBOX_RENDERER);
}

use std::cell::RefCell;

use navis_extension::apply::{commit_contribution_families, BackendServicePort, ComponentHostPort};
use navis_extension::contributions::{
    normalize_registration, prepare_registration, validate_registration, UiContributionRegistrar,
};
use navis_extension::gateway::{ApiProtocol, CapabilitySet, ProviderConfig};
use navis_extension::lifecycle::{check_enable_preflight, HostAvailability};
use navis_extension::models::{
    BackendProtocol, BackendServiceRegistration, BackendTransport, ComponentCapabilities, ComponentKind,
    ComponentRegistration, EditorLanguageRegistration, ExtensionContributes, LSPServerConfig, LanguageSource,
    LayoutOverrideRegistration,
};
use navis_extension::runtime::{
    ExtensionRuntimeHandle, GatewayCapabilityPort, HostCallLog, LspCapabilityPort, ProviderValidationPort,
};

/// An LSP host that records the languages it is given.
#[derive(Default)]
struct RecordingLsp {
    registered: RefCell<Vec<LSPServerConfig>>,
}

impl LspCapabilityPort for RecordingLsp {
    fn register_language(&self, config: LSPServerConfig, _source: LanguageSource) -> Result<(), String> {
        self.registered.borrow_mut().push(config);
        Ok(())
    }
    fn unregister_language(&self, _language_id: &str, _owner: &str) -> Result<(), String> {
        Ok(())
    }
}

/// Hosts that take part in no test here.
struct Unused;

impl GatewayCapabilityPort for Unused {
    fn upsert_provider(&self, _config: ProviderConfig) -> Result<(), String> {
        Err("unused".to_string())
    }
    fn set_provider_capabilities(&self, _provider_id: &str, _c: CapabilitySet) -> Result<(), String> {
        Err("unused".to_string())
    }
    fn remove_provider_capabilities(&self, _provider_id: &str) -> Result<(), String> {
        Err("unused".to_string())
    }
    fn remove_provider(&self, _id: &str) -> Result<(), String> {
        Err("unused".to_string())
    }
    fn acquire_protocol(&self, _owner: &str, _protocol: &ApiProtocol) -> Result<(), String> {
        Err("unused".to_string())
    }
    fn register_custom_protocol(&self, _owner: &str, _protocol: &ApiProtocol, _c: String) -> Result<(), String> {
        Err("unused".to_string())
    }
    fn release_protocol(&self, _owner: &str, _protocol: &ApiProtocol) -> Result<(), String> {
        Err("unused".to_string())
    }
}

impl ProviderValidationPort for Unused {
    fn register(&self, _owner: &str, _provider_id: &str) -> Result<(), String> {
        Err("unused".to_string())
    }
    fn unregister(&self, _owner: &str, _provider_id: &str) -> Result<(), String> {
        Err("unused".to_string())
    }
}

impl BackendServicePort for Unused {
    fn spawn_for_lifecycle(&self, _extension_id: &str, _service: &BackendServiceRegistration) -> Result<(), String> {
        Err("unused".to_string())
    }
    fn kill_all_for_extension(&self, _extension_id: &str) {}
}

impl ComponentHostPort for Unused {
    fn load(&mut self, _extension_id: &str, component: &ComponentRegistration) -> Result<String, String> {
        Ok(component.id.clone())
    }
    fn activate(&mut self, _extension_id: &str, _component_id: &str) -> Result<(), String> {
        Ok(())
    }
    fn dispose_all_for_extension(&mut self, _extension_id: &str) {}
}

fn no_hosts() -> HostAvailability {
    HostAvailability {
        gateway: false,
        provider_validation: false,
        mcp: false,
        lsp: false,
        backend: false,
        components: false,
    }
}

fn editor_contributes() -> ExtensionContributes {
    let mut contributes = ExtensionContributes::empty();
    contributes.editor_languages = Some(vec![EditorLanguageRegistration {
        id: "mylang".into(),
        name: "My Lang".into(),
        extensions: vec![".my".into()],
        module: "./syntax/mylang.js".into(),
    }]);
    contributes
}

fn backend_service(id: &str, autostart: bool) -> BackendServiceRegistration {
    BackendServiceRegistration {
        id: id.into(),
        entry: "ExtensionBackend/harness".into(),
        transport: BackendTransport::Stdio,
        protocol: BackendProtocol::JsonRpc,
        args: Vec::new(),
        env: Vec::new(),
        autostart,
    }
}

fn component(id: &str, entry: &str, autostart: bool) -> ComponentRegistration {
    ComponentRegistration {
        id: id.into(),
        entry: entry.into(),
        kind: ComponentKind::Logic,
        run_on: Vec::new(),
        capabilities: ComponentCapabilities { invoke: vec![], storage: vec![], network: None, events: vec![] },
        autostart,
    }
}

fn commit(
    contributes: &ExtensionContributes,
    lsp: Option<&RecordingLsp>,
    components: Option<&mut Unused>,
) -> (Result<(), String>, ExtensionRuntimeHandle) {
    let mut registrar = UiContributionRegistrar::new();
    let mut handle = ExtensionRuntimeHandle::default();
    let r = commit_contribution_families::<Unused, Unused, RecordingLsp, Unused, Unused>(
        "example",
        contributes,
        &mut registrar,
        &mut handle,
        None,
        None,
        lsp,
        None,
        components,
        &mut HostCallLog::new(),
    );
    (r, handle)
}

#[test]
fn editor_language_family_registers_languages_via_lsp_port() {
    let lsp = RecordingLsp::default();
    let contributes = editor_contributes();
    let (r, handle) = commit(&contributes, Some(&lsp), None);
    r.unwrap();
    let registered = lsp.registered.borrow();
    assert_eq!(registered.len(), 1);
    assert_eq!(registered[0].language_id, "mylang");
    assert_eq!(registered[0].language_names, vec!["My Lang"]);
    assert_eq!(registered[0].file_extensions, vec![".my"]);
    assert_eq!(handle.languages, vec!["mylang"]);
}

#[test]
fn editor_language_family_fails_closed_without_lsp_host() {
    let contributes = editor_contributes();
    let error = check_enable_preflight("example", &contributes, no_hosts()).unwrap_err().to_string();
    assert!(error.contains("editor languages"));
    assert!(error.contains("LSP host is not available"));
}

#[test]
fn default_registry_always_prepares_ui_family_without_mutating_registrar() {
    let contributes = ExtensionContributes::empty();
    let registration = normalize_registration("example", &contributes);
    let mut registrar = UiContributionRegistrar::new();

    validate_registration(&registration).unwrap();
    let prepared = prepare_registration(&registration).unwrap();
    assert_eq!(prepared.extension_id, "example");
    assert!(!registrar.contains_extension("example"));
    registrar.commit_registration(prepared).unwrap();
    assert!(registrar.contains_extension("example"));
}

#[test]
fn layout_overrides_are_explicitly_fail_closed() {
    let mut contributes = ExtensionContributes::empty();
    contributes.layout_overrides = Some(vec![LayoutOverrideRegistration {
        target: "rightWorkspace".into(),
        position: None,
        offset: None,
        size: None,
        z_index: None,
        transition: None,
    }]);
    let error = check_enable_preflight("example", &contributes, no_hosts()).unwrap_err().to_string();
    assert!(error.contains("unsupported runtime contributes"));
    assert!(error.contains("layout.override"));
}

#[test]
fn backend_service_family_fails_closed_without_backend_host() {
    let mut contributes = ExtensionContributes::empty();
    contributes.backend_services = Some(vec![backend_service("search", true)]);
    let error = check_enable_preflight("example", &contributes, no_hosts()).unwrap_err().to_string();
    assert!(error.contains("backend services"));
    assert!(error.contains("backend host is not available"));
}

#[test]
fn component_family_preflight_fails_closed_without_component_host() {
    let mut contributes = ExtensionContributes::empty();
    contributes.components = Some(vec![component("app", "ExtensionUI/scripts/app.component.wasm", true)]);
    let error = check_enable_preflight("example", &contributes, no_hosts()).unwrap_err().to_string();
    assert!(error.contains("declares components"));
    assert!(error.contains("component host is not available"));
}

#[test]
fn component_family_validate_rejects_empty_id_and_entry() {
    let mut host = Unused;
    let mut contributes = ExtensionContributes::empty();
    contributes.components = Some(vec![component("", "ExtensionUI/app.wasm", false)]);
    let (r, _) = commit(&contributes, None, Some(&mut host));
    assert!(r.unwrap_err().contains("empty id"));

    contributes.components = Some(vec![component("app", "", false)]);
    let (r, _) = commit(&contributes, None, Some(&mut host));
    assert!(r.unwrap_err().contains("empty entry"));
}

#[test]
fn component_family_commit_fails_closed_without_component_host() {
    let mut contributes = ExtensionContributes::empty();
    contributes.components = Some(vec![component("app", "ExtensionUI/app.wasm", true)]);
    let (r, _) = commit(&contributes, None, None);
    assert!(r.unwrap_err().contains("component host is not available"));
}

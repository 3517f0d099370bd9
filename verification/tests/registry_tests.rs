use std::cell::RefCell;
use std::collections::HashMap;

use navis_extension::apply::ComponentHostPort;
use navis_extension::component::{ComponentEngine, ComponentRegistry};
use navis_extension::models::{ComponentCapabilities, ComponentKind, ComponentRegistration, ExtensionStatus};
use navis_extension::operation::{CheckResult, OperationRequest, PermissionLevel};

/// An engine over a fixed set of extensions and files; a compiled component
/// is numbered, and so is each running instance.
struct Engine {
    extensions: HashMap<String, (ExtensionStatus, String)>,
    files: Vec<String>,
    sandbox: CheckResult,
    refuse_instantiate: bool,
    log: RefCell<Vec<String>>,
}

impl Engine {
    fn new(extensions: &[(&str, ExtensionStatus)]) -> Self {
        Engine {
            extensions: extensions
                .iter()
                .map(|(id, status)| (id.to_string(), (*status, format!("/ext/{id}"))))
                .collect(),
            files: vec![
                "/ext/ext.alpha/ExtensionUI/app.wasm".to_string(),
                "/ext/ext.one/ExtensionUI/app.wasm".to_string(),
                "/ext/ext.two/ExtensionUI/app.wasm".to_string(),
            ],
            sandbox: CheckResult::allowed(PermissionLevel::Unrestricted),
            refuse_instantiate: false,
            log: RefCell::new(Vec::new()),
        }
    }
}

impl ComponentEngine<u32, u32> for Engine {
    fn extension_state(&self, extension_id: &str) -> Option<(ExtensionStatus, String)> {
        self.extensions.get(extension_id).cloned()
    }

    fn entry_file(&self, install_dir: &str, entry: &str) -> (String, bool) {
        let path = format!("{install_dir}/{entry}");
        let exists = self.files.contains(&path);
        (path, exists)
    }

    fn check(&self, request: &OperationRequest) -> Result<CheckResult, String> {
        self.log.borrow_mut().push(format!("check {} {}", request.actor, request.target));
        Ok(self.sandbox.clone())
    }

    fn read(&self, path: &str) -> Result<Vec<u8>, String> {
        Ok(path.as_bytes().to_vec())
    }

    fn compile(&self, bytes: &Vec<u8>) -> Result<u32, String> {
        if bytes.is_empty() {
            return Err("empty".to_string());
        }
        Ok(bytes.len() as u32)
    }

    fn instantiate(
        &self,
        extension_id: &str,
        component_id: &str,
        component: &u32,
        _capabilities: &ComponentCapabilities,
    ) -> Result<u32, String> {
        self.log.borrow_mut().push(format!("instantiate {extension_id}:{component_id}"));
        if self.refuse_instantiate {
            return Err(format!("Component '{extension_id}:{component_id}' activate returned: no"));
        }
        Ok(*component + 1)
    }

    fn deliver(&self, _extension_id: &str, _component_id: &str, running: &u32, payload: String) -> Result<String, String> {
        Ok(format!("{running}:{payload}"))
    }

    fn release(&self, running: u32) {
        self.log.borrow_mut().push(format!("release {running}"));
    }
}

fn logic_component(id: &str) -> ComponentRegistration {
    ComponentRegistration {
        id: id.to_string(),
        entry: "ExtensionUI/app.wasm".to_string(),
        kind: ComponentKind::Logic,
        run_on: Vec::new(),
        autostart: false,
        capabilities: ComponentCapabilities { invoke: vec![], storage: vec![], network: None, events: vec![] },
    }
}

#[test]
fn registry_load_validates_gates_and_dispose() {
    let mut registry = ComponentRegistry::new(Engine::new(&[("ext.alpha", ExtensionStatus::Enabled)]));
    let mut disabled = ComponentRegistry::new(Engine::new(&[("ext.disabled", ExtensionStatus::Disabled)]));
    assert!(disabled.load("ext.disabled", &logic_component("app")).unwrap_err().contains("not enabled"));
    assert_eq!(
        registry.load("ext.missing", &logic_component("app")).unwrap_err(),
        "Extension 'ext.missing' is not installed"
    );

    let missing = ComponentRegistration { id: "nope".into(), entry: "does_not_exist.wasm".into(), ..logic_component("app") };
    assert_eq!(
        registry.load("ext.alpha", &missing).unwrap_err(),
        "Component entry 'does_not_exist.wasm' does not exist at '/ext/ext.alpha/does_not_exist.wasm'"
    );

    let native = ComponentRegistration { kind: ComponentKind::Native, ..logic_component("native-server") };
    assert!(registry.load("ext.alpha", &native).unwrap_err().contains("not supported by the component registry"));

    let mut suggest = Engine::new(&[("ext.alpha", ExtensionStatus::Enabled)]);
    suggest.sandbox = CheckResult::needs_confirm(PermissionLevel::UserConfirm, "confirm run");
    let mut suggest_registry = ComponentRegistry::new(suggest);
    assert_eq!(
        suggest_registry.load("ext.alpha", &logic_component("app")).unwrap_err(),
        "Operation 'component.load:ext.alpha:app' denied by sandbox: confirm run"
    );
    assert!(suggest_registry.list(None).is_empty());

    let component_id = registry.load("ext.alpha", &logic_component("app")).unwrap();
    assert_eq!(component_id, "app");
    assert_eq!(registry.list(None), vec![("ext.alpha".to_string(), "app".to_string())]);
    assert_eq!(registry.list(Some("ext.alpha")).len(), 1);
    assert!(!registry.is_active("ext.alpha", "app"));
    assert!(registry
        .component_engine()
        .log
        .borrow()
        .contains(&"check extension:ext.alpha /ext/ext.alpha/ExtensionUI/app.wasm".to_string()));

    assert_eq!(
        registry.load("ext.alpha", &logic_component("app")).unwrap_err(),
        "Component 'ext.alpha:app' is already loaded"
    );

    registry.dispose("ext.alpha", "app").unwrap();
    assert!(registry.list(None).is_empty());
    assert!(!registry.is_active("ext.alpha", "app"));
    assert_eq!(registry.dispose("ext.alpha", "app").unwrap_err(), "Component 'ext.alpha:app' is not loaded");
}

#[test]
fn registry_dispose_all_for_extension_is_scoped() {
    let mut registry = ComponentRegistry::new(Engine::new(&[
        ("ext.one", ExtensionStatus::Enabled),
        ("ext.two", ExtensionStatus::Enabled),
    ]));
    registry.load("ext.one", &logic_component("a")).unwrap();
    registry.load("ext.one", &logic_component("b")).unwrap();
    registry.load("ext.two", &logic_component("a")).unwrap();
    registry.activate("ext.one", "a").unwrap();
    assert_eq!(registry.list(None).len(), 3);

    registry.dispose_all_for_extension("ext.one");
    assert_eq!(registry.list(None), vec![("ext.two".to_string(), "a".to_string())]);
    assert!(!registry.is_active("ext.one", "a"));
    assert!(registry.component_engine().log.borrow().iter().any(|c| c.starts_with("release ")));

    registry.dispose_all_for_extension("ext.one");
    assert_eq!(registry.list(None).len(), 1);
}

#[test]
fn activation_needs_a_loaded_component_and_happens_once() {
    let mut registry = ComponentRegistry::new(Engine::new(&[("ext.alpha", ExtensionStatus::Enabled)]));
    assert_eq!(registry.activate("ext.alpha", "app").unwrap_err(), "Component 'ext.alpha:app' is not loaded");
    registry.load("ext.alpha", &logic_component("app")).unwrap();
    registry.activate("ext.alpha", "app").unwrap();
    registry.activate("ext.alpha", "app").unwrap();
    assert!(registry.is_active("ext.alpha", "app"));
    let instantiated = registry.component_engine().log.borrow().iter().filter(|c| c.starts_with("instantiate")).count();
    assert_eq!(instantiated, 1);
}

#[test]
fn a_refused_activation_leaves_the_component_inactive() {
    let mut engine = Engine::new(&[("ext.alpha", ExtensionStatus::Enabled)]);
    engine.refuse_instantiate = true;
    let mut registry = ComponentRegistry::new(engine);
    registry.load("ext.alpha", &logic_component("app")).unwrap();
    assert_eq!(
        registry.activate("ext.alpha", "app").unwrap_err(),
        "Component 'ext.alpha:app' activate returned: no"
    );
    assert!(!registry.is_active("ext.alpha", "app"));
}

#[test]
fn handle_message_fails_closed_for_unloaded_component() {
    let registry = ComponentRegistry::new(Engine::new(&[("ext.alpha", ExtensionStatus::Enabled)]));
    assert_eq!(
        registry.handle_message("ext.alpha", "app", "{}".to_string()).unwrap_err(),
        "Component 'ext.alpha:app' is not loaded"
    );
}

#[test]
fn handle_message_fails_closed_for_inactive_component() {
    let mut registry = ComponentRegistry::new(Engine::new(&[("ext.alpha", ExtensionStatus::Enabled)]));
    registry.load("ext.alpha", &logic_component("app")).unwrap();
    assert_eq!(
        registry.handle_message("ext.alpha", "app", "{}".to_string()).unwrap_err(),
        "Component 'ext.alpha:app' is not active"
    );
    registry.activate("ext.alpha", "app").unwrap();
    assert!(registry.handle_message("ext.alpha", "app", "ping".to_string()).unwrap().ends_with(":ping"));
}

#[test]
fn the_registry_is_the_component_host() {
    let mut registry = ComponentRegistry::new(Engine::new(&[("ext.alpha", ExtensionStatus::Enabled)]));
    let id = ComponentHostPort::load(&mut registry, "ext.alpha", &logic_component("app")).unwrap();
    ComponentHostPort::activate(&mut registry, "ext.alpha", &id).unwrap();
    assert!(registry.is_active("ext.alpha", "app"));
    ComponentHostPort::dispose_all_for_extension(&mut registry, "ext.alpha");
    assert!(registry.list(None).is_empty());
}

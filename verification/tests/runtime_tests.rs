use std::cell::RefCell;

use navis_extension::contributions::{normalize_registration, UiContributionRegistrar};
use navis_extension::gateway::{build_gateway_plan, ApiProtocol, CapabilitySet, ProviderConfig};
use navis_extension::models::{
    ExtensionContributes, GatewayAdapterRegistration, GatewayAuthRegistration, GatewayContributions,
    GatewayModelRegistration, GatewayProviderRegistration, GatewayProviderValidationRegistration,
    LSPServerConfig, LanguageRegistration, LanguageSource, ProviderCapabilities, ViewRegistration,
};
use navis_extension::runtime::{
    commit_ui_contributions, disable_ui_contributions, register_gateway_plan,
    register_lsp_languages, release_host_resources, rollback_ui_contributions, settle_handle,
    unregister_gateway_resources, CleanupError, CleanupErrorKind, ExtensionRuntimeHandle, HostCallLog,
    GatewayCapabilityPort, HostKind, LspCapabilityPort, McpCapabilityPort, ProviderValidationPort,
    ResourceKind, SkillHostPort, ToolDefinitionOverride,
};
use navis_extension::event::{ExtensionSubscriptionLedger, ExtensionSubscriptionRecord, SubscriptionId, Topic};
use navis_extension::subscriptions::EventSubscriptionPort;
use navis_extension::runtime::cleanup_runtime_resources;
use navis_extension::apply::{apply_extension_fiber, BackendServicePort, ComponentHostPort};
use navis_extension::models::{
    BackendServiceRegistration, ComponentRegistration, MCPServerConfig, SkillDefinition, ToolRegistration,
};
use navis_extension::runtime::{apply_mcp_tool_overrides, tool_definition_override, ToolRendererHint, ToolUiHint};
use navis_extension::gateway::ToolRiskLevel;
use navis_extension::models::McpToolOverride;

/// A host that records every call and refuses the ids it is told to.
#[derive(Default)]
struct Host {
    calls: RefCell<Vec<String>>,
    refuse: Vec<String>,
}

impl Host {
    fn refusing(ids: &[&str]) -> Self {
        Host { calls: RefCell::new(Vec::new()), refuse: ids.iter().map(|s| s.to_string()).collect() }
    }

    fn answer(&self, call: String, id: &str) -> Result<(), String> {
        self.calls.borrow_mut().push(call);
        if self.refuse.iter().any(|r| r == id) {
            Err("boom".to_string())
        } else {
            Ok(())
        }
    }

    fn calls(&self) -> Vec<String> {
        self.calls.borrow().clone()
    }
}

impl GatewayCapabilityPort for Host {
    fn upsert_provider(&self, config: ProviderConfig) -> Result<(), String> {
        let id = config.id.clone();
        self.answer(format!("upsert {id}"), &id)
    }
    fn set_provider_capabilities(&self, provider_id: &str, _c: CapabilitySet) -> Result<(), String> {
        self.answer(format!("caps {provider_id}"), &format!("caps:{provider_id}"))
    }
    fn remove_provider_capabilities(&self, provider_id: &str) -> Result<(), String> {
        self.answer(format!("remove caps {provider_id}"), &format!("caps:{provider_id}"))
    }
    fn remove_provider(&self, id: &str) -> Result<(), String> {
        self.answer(format!("remove provider {id}"), id)
    }
    fn acquire_protocol(&self, owner: &str, protocol: &ApiProtocol) -> Result<(), String> {
        self.answer(format!("acquire {owner} {}", protocol.as_str()), protocol.as_str())
    }
    fn register_custom_protocol(&self, owner: &str, protocol: &ApiProtocol, _c: String) -> Result<(), String> {
        self.answer(format!("custom {owner} {}", protocol.as_str()), protocol.as_str())
    }
    fn release_protocol(&self, owner: &str, protocol: &ApiProtocol) -> Result<(), String> {
        self.answer(format!("release {owner} {}", protocol.as_str()), protocol.as_str())
    }
}

impl ProviderValidationPort for Host {
    fn register(&self, owner: &str, provider_id: &str) -> Result<(), String> {
        self.answer(format!("validate {owner} {provider_id}"), &format!("validation:{provider_id}"))
    }
    fn unregister(&self, owner: &str, provider_id: &str) -> Result<(), String> {
        self.answer(format!("unvalidate {owner} {provider_id}"), &format!("validation:{provider_id}"))
    }
}

impl McpCapabilityPort for Host {
    fn add_server(&self, server_id: &str, declaration: &MCPServerConfig) -> Result<bool, String> {
        self.answer(format!("add server {server_id}"), server_id)?;
        Ok(declaration.config.contains("autoStart"))
    }
    fn start_server(&self, server_id: &str) -> Result<(), String> {
        self.answer(format!("start server {server_id}"), &format!("start:{server_id}"))
    }
    fn register_tool(
        &self,
        server_id: &str,
        tool: &ToolRegistration,
        declared_risk: Option<ToolRiskLevel>,
    ) -> Result<(), String> {
        self.answer(format!("tool {server_id} {} {declared_risk:?}", tool.name), &tool.name)
    }
    fn remove_server(&self, id: &str) -> Result<(), String> {
        self.answer(format!("remove server {id}"), id)
    }
    fn unregister_server_tools(&self, server_id: &str) -> Result<usize, String> {
        self.answer(format!("remove tools {server_id}"), &format!("tools:{server_id}")).map(|_| 1)
    }
    fn apply_tool_override(
        &self,
        owner: &str,
        server_id: &str,
        tool_name: &str,
        tool_override: ToolDefinitionOverride,
    ) -> Result<(), String> {
        let risk = format!("{:?}", tool_override.declared_risk);
        self.answer(format!("override {owner} {server_id}:{tool_name} {risk}"), tool_name)
    }
    fn remove_tool_override(&self, owner: &str, server_id: &str, tool_name: &str) -> Result<(), String> {
        self.answer(format!("remove override {owner} {server_id}:{tool_name}"), tool_name)
    }
}

impl SkillHostPort for Host {
    fn register_extension_skill(&self, extension_id: &str, skill: &SkillDefinition) -> Result<(), String> {
        self.answer(format!("skill {extension_id} {}", skill.id), &skill.id)
    }
    fn unregister_extension_skill(&self, extension_id: &str, skill_id: &str) -> Result<(), String> {
        self.answer(format!("remove skill {extension_id} {skill_id}"), skill_id)
    }
}

impl EventSubscriptionPort for Host {
    fn subscribe_extension(
        &mut self,
        extension_id: &str,
        topic: String,
        _scope_key: Option<String>,
    ) -> Result<SubscriptionId, String> {
        self.answer(format!("subscribe {extension_id} {topic}"), &topic)?;
        Ok(SubscriptionId::new(&topic))
    }
    fn unsubscribe_extension(&mut self, extension_id: &str, subscription_id: &SubscriptionId) -> Result<(), String> {
        self.answer(format!("unsubscribe {extension_id} {}", subscription_id.as_str()), subscription_id.as_str())
    }
}

impl BackendServicePort for Host {
    fn spawn_for_lifecycle(&self, extension_id: &str, service: &BackendServiceRegistration) -> Result<(), String> {
        self.answer(format!("spawn {extension_id} {}", service.id), &service.id)
    }
    fn kill_all_for_extension(&self, extension_id: &str) {
        let _ = self.answer(format!("kill all {extension_id}"), "");
    }
}

impl ComponentHostPort for &Host {
    fn load(&mut self, extension_id: &str, component: &ComponentRegistration) -> Result<String, String> {
        self.answer(format!("load {extension_id} {}", component.id), &component.id)?;
        Ok(component.id.clone())
    }
    fn activate(&mut self, extension_id: &str, component_id: &str) -> Result<(), String> {
        self.answer(format!("activate {extension_id} {component_id}"), &format!("activate:{component_id}"))
    }
    fn dispose_all_for_extension(&mut self, extension_id: &str) {
        let _ = self.answer(format!("dispose all {extension_id}"), "");
    }
}

impl LspCapabilityPort for Host {
    fn register_language(&self, config: LSPServerConfig, source: LanguageSource) -> Result<(), String> {
        let owner = match source {
            LanguageSource::Extension { owner } => owner,
            LanguageSource::Builtin => "builtin".to_string(),
        };
        let id = config.language_id.clone();
        self.answer(format!("register language {owner} {id}"), &id)
    }
    fn unregister_language(&self, language_id: &str, owner: &str) -> Result<(), String> {
        self.answer(format!("remove language {owner} {language_id}"), language_id)
    }
}

fn caps() -> ProviderCapabilities {
    ProviderCapabilities {
        supports_tools: true,
        supports_streaming: true,
        supports_multimodal: false,
        supports_reasoning_effort: false,
        supports_structured_output: false,
        supports_usage: true,
    }
}

fn gateway_contributions() -> GatewayContributions {
    GatewayContributions {
        adapters: vec![GatewayAdapterRegistration {
            id: "adapter".to_string(),
            name: "adapter".to_string(),
            protocol_id: "chat_completions".to_string(),
            kind: "builtin".to_string(),
            config: "null".to_string(),
        }],
        providers: vec![GatewayProviderRegistration {
            id: "provider".to_string(),
            name: "Provider".to_string(),
            adapter_id: "adapter".to_string(),
            base_url: "https://example.test/v1".to_string(),
            auth: GatewayAuthRegistration {
                scheme: "bearer".to_string(),
                secret_ref: None,
                header: "Authorization".to_string(),
            },
            capabilities: caps(),
            validation: GatewayProviderValidationRegistration {
                endpoint: "models".to_string(),
                valid_status_codes: vec![200],
                invalid_status_codes: vec![401],
                timeout_ms: 5_000,
            },
            models: vec![GatewayModelRegistration {
                id: "model".to_string(),
                name: "Model".to_string(),
                capabilities: caps(),
                context_window: 128000,
                max_output_tokens: 4096,
            }],
            default_model: "model".to_string(),
        }],
    }
}

const PROVIDER: &str = "extension:example/provider";

fn messages(errors: &[CleanupError]) -> Vec<String> {
    errors.iter().map(|e| e.to_string()).collect()
}

#[test]
fn default_handle_is_empty_until_it_records_a_resource() {
    let mut handle = ExtensionRuntimeHandle::default();
    assert!(handle.is_empty());
    handle.skills.push("skill".to_string());
    assert!(!handle.is_empty());
}

#[test]
fn reconcile_counts_owned_resources_and_drops_unregistered_ui() {
    let mut handle = ExtensionRuntimeHandle::default();
    handle.provider_ids.push("a".to_string());
    handle.provider_ids.push("b".to_string());
    handle.mcp_servers.push("m".to_string());
    handle.projection.contribution_counts.views = 3;
    handle.projection.contribution_counts.triggers = 2;
    handle.projection.configuration = Some("{}".to_string());
    handle.reconcile_projection();
    assert_eq!(handle.projection.contribution_counts.providers, 2);
    assert_eq!(handle.projection.contribution_counts.mcp_servers, 1);
    assert_eq!(handle.projection.contribution_counts.views, 0);
    assert_eq!(handle.projection.contribution_counts.triggers, 0);
    assert_eq!(handle.projection.configuration, None);
}

#[test]
fn reconcile_keeps_live_ui_projection() {
    let mut handle = ExtensionRuntimeHandle::default();
    handle.ui_contribution_registered = true;
    handle.projection.contribution_counts.views = 3;
    handle.projection.configuration = Some("{}".to_string());
    handle.reconcile_projection();
    assert_eq!(handle.projection.contribution_counts.views, 3);
    assert_eq!(handle.projection.configuration, Some("{}".to_string()));
}

#[test]
fn gateway_plan_registers_protocol_provider_capabilities_and_validation() {
    let plan = build_gateway_plan("example", &gateway_contributions()).unwrap();
    let host = Host::default();
    let mut handle = ExtensionRuntimeHandle::default();
    register_gateway_plan("example", plan, &host, Some(&host), &mut handle, &mut HostCallLog::new()).unwrap();
    assert_eq!(handle.protocols, vec![ApiProtocol::ChatCompletions]);
    assert_eq!(handle.provider_ids, vec![PROVIDER.to_string()]);
    assert_eq!(handle.provider_capability_ids, vec![PROVIDER.to_string()]);
    assert_eq!(handle.provider_validation_ids, vec![PROVIDER.to_string()]);
    assert_eq!(handle.projection.contribution_counts.providers, 1);
    assert_eq!(
        host.calls(),
        vec![
            "acquire example chat_completions".to_string(),
            format!("upsert {PROVIDER}"),
            format!("caps {PROVIDER}"),
            format!("validate example {PROVIDER}"),
        ]
    );
}

#[test]
fn gateway_plan_without_validation_host_keeps_what_was_accepted() {
    let plan = build_gateway_plan("example", &gateway_contributions()).unwrap();
    let host = Host::default();
    let mut handle = ExtensionRuntimeHandle::default();
    let error = register_gateway_plan::<Host, Host>("example", plan, &host, None, &mut handle, &mut HostCallLog::new()).unwrap_err();
    assert_eq!(
        error,
        "Extension 'example' declares Gateway Provider validation but validation host is not available"
    );
    assert_eq!(handle.provider_ids, vec![PROVIDER.to_string()]);
    assert_eq!(handle.provider_capability_ids, vec![PROVIDER.to_string()]);
    assert!(handle.provider_validation_ids.is_empty());
    assert_eq!(handle.projection.contribution_counts.providers, 0);
}

#[test]
fn gateway_plan_stops_at_a_refused_provider() {
    let plan = build_gateway_plan("example", &gateway_contributions()).unwrap();
    let host = Host::refusing(&[PROVIDER]);
    let mut handle = ExtensionRuntimeHandle::default();
    let error = register_gateway_plan("example", plan, &host, Some(&host), &mut handle, &mut HostCallLog::new()).unwrap_err();
    assert_eq!(
        error,
        format!("Extension 'example' failed to register Gateway provider '{PROVIDER}': boom")
    );
    assert_eq!(handle.protocols.len(), 1);
    assert!(handle.provider_ids.is_empty());
}

#[test]
fn gateway_release_runs_in_reverse_dependency_order() {
    let plan = build_gateway_plan("example", &gateway_contributions()).unwrap();
    let host = Host::default();
    let mut handle = ExtensionRuntimeHandle::default();
    register_gateway_plan("example", plan, &host, Some(&host), &mut handle, &mut HostCallLog::new()).unwrap();
    let release = Host::default();
    let mut errors = Vec::new();
    unregister_gateway_resources("example", &mut handle, Some(&release), Some(&release), &mut errors, &mut HostCallLog::new());
    assert!(errors.is_empty());
    assert!(handle.provider_ids.is_empty());
    assert!(handle.provider_capability_ids.is_empty());
    assert!(handle.provider_validation_ids.is_empty());
    assert!(handle.protocols.is_empty());
    assert_eq!(
        release.calls(),
        vec![
            format!("unvalidate example {PROVIDER}"),
            format!("remove caps {PROVIDER}"),
            format!("remove provider {PROVIDER}"),
            "release example chat_completions".to_string(),
        ]
    );
}

#[test]
fn a_refused_release_stays_recorded_and_is_reported() {
    let mut handle = ExtensionRuntimeHandle::default();
    handle.provider_ids.push("kept".to_string());
    handle.provider_ids.push("gone".to_string());
    let host = Host::refusing(&["kept"]);
    let mut errors = Vec::new();
    unregister_gateway_resources::<Host, Host>("example", &mut handle, Some(&host), None, &mut errors, &mut HostCallLog::new());
    assert_eq!(handle.provider_ids, vec!["kept".to_string()]);
    assert_eq!(messages(&errors), vec!["Gateway provider 'kept': boom".to_string()]);
    assert_eq!(errors[0].kind, CleanupErrorKind::Release(ResourceKind::Provider));
}

#[test]
fn missing_gateway_host_keeps_resources_and_says_so() {
    let mut handle = ExtensionRuntimeHandle::default();
    handle.protocols.push(ApiProtocol::Responses);
    let mut errors = Vec::new();
    unregister_gateway_resources::<Host, Host>("example", &mut handle, None, None, &mut errors, &mut HostCallLog::new());
    assert_eq!(handle.protocols, vec![ApiProtocol::Responses]);
    assert_eq!(
        messages(&errors),
        vec!["Gateway resources exist but Gateway host is not available".to_string()]
    );
    assert_eq!(errors[0].kind, CleanupErrorKind::HostUnavailable(HostKind::Gateway));
}

#[test]
fn host_resources_release_last_first_and_report_failures() {
    let mut handle = ExtensionRuntimeHandle::default();
    handle.tool_overrides.push(("server".to_string(), "first".to_string()));
    handle.tool_overrides.push(("server".to_string(), "second".to_string()));
    handle.mcp_servers.push("mcp".to_string());
    handle.skills.push("skill".to_string());
    handle.languages.push("rust".to_string());
    let host = Host::refusing(&["second"]);
    let mut errors = Vec::new();
    release_host_resources("example", &mut handle, Some(&host), Some(&host), Some(&host), &mut errors, &mut HostCallLog::new());
    assert_eq!(handle.tool_overrides, vec![("server".to_string(), "second".to_string())]);
    assert!(handle.mcp_servers.is_empty());
    assert!(handle.skills.is_empty());
    assert!(handle.languages.is_empty());
    assert_eq!(messages(&errors), vec!["MCP tool override 'server:second': boom".to_string()]);
    assert_eq!(
        host.calls(),
        vec![
            "remove override example server:second".to_string(),
            "remove override example server:first".to_string(),
            "remove server mcp".to_string(),
            "remove skill example skill".to_string(),
            "remove language example rust".to_string(),
        ]
    );
}

#[test]
fn missing_hosts_are_reported_per_host() {
    let mut handle = ExtensionRuntimeHandle::default();
    handle.tool_server_ids.push("tools".to_string());
    handle.skills.push("skill".to_string());
    handle.languages.push("rust".to_string());
    let mut errors = Vec::new();
    release_host_resources::<Host, Host, Host>("example", &mut handle, None, None, None, &mut errors, &mut HostCallLog::new());
    assert_eq!(
        messages(&errors),
        vec![
            "MCP resources exist but MCP host is not available".to_string(),
            "Skills host is not available for skill cleanup".to_string(),
            "LSP resources exist but LSP host is not available".to_string(),
        ]
    );
    assert_eq!(handle.skills, vec!["skill".to_string()]);
}

fn language(id: &str) -> LanguageRegistration {
    LanguageRegistration {
        language_id: id.to_string(),
        display_name: id.to_string(),
        extensions: vec![format!(".{id}")],
        server_command: "server".to_string(),
        server_args: None,
        initialization_options: None,
    }
}

#[test]
fn languages_register_in_order_until_refused() {
    let host = Host::refusing(&["go"]);
    let mut handle = ExtensionRuntimeHandle::default();
    let error = register_lsp_languages(
        "example",
        &vec![language("rust"), language("go"), language("zig")],
        &host,
        &mut handle,
        &mut HostCallLog::new(),
    )
    .unwrap_err();
    assert_eq!(error, "Extension 'example' failed to register LSP language 'go': boom");
    assert_eq!(handle.languages, vec!["rust".to_string()]);
    assert_eq!(
        host.calls(),
        vec!["register language example rust".to_string(), "register language example go".to_string()]
    );
}

fn view(id: &str) -> ViewRegistration {
    ViewRegistration {
        id: id.to_string(),
        name: id.to_string(),
        icon: None,
        entry: None,
        zone: Some("rightWorkspace".to_string()),
        placement: None,
        renderer: "host:panel".to_string(),
        activation_events: Vec::new(),
        allow_close: Some(true),
        default_visible: Some(false),
        config: None,
    }
}

#[test]
fn ui_commit_projects_and_disable_withdraws() {
    let mut c = ExtensionContributes::empty();
    c.views = Some(vec![view("one"), view("two")]);
    c.configuration = Some("{}".to_string());
    let registration = normalize_registration("example", &c);
    let mut registrar = UiContributionRegistrar::new();
    let mut handle = ExtensionRuntimeHandle::default();
    commit_ui_contributions(&mut registrar, registration.clone(), &mut handle).unwrap();
    assert!(handle.ui_contribution_registered);
    assert_eq!(handle.projection.views.len(), 2);
    assert_eq!(handle.projection.contribution_counts.views, 2);
    assert_eq!(handle.projection.contribution_counts.configuration, 1);
    assert!(registrar.contains_extension("example"));

    let mut other = ExtensionRuntimeHandle::default();
    let error = commit_ui_contributions(&mut registrar, registration, &mut other).unwrap_err();
    assert!(error.to_string().contains("example"));
    assert!(!other.ui_contribution_registered);

    disable_ui_contributions(&mut registrar, "example", &mut handle);
    assert!(!handle.ui_contribution_registered);
    assert!(!registrar.contains_extension("example"));
    assert_eq!(handle.projection.views.len(), 2);
}

#[test]
fn ui_rollback_clears_the_projection() {
    let mut c = ExtensionContributes::empty();
    c.views = Some(vec![view("one")]);
    let registration = normalize_registration("example", &c);
    let mut registrar = UiContributionRegistrar::new();
    let mut handle = ExtensionRuntimeHandle::default();
    commit_ui_contributions(&mut registrar, registration, &mut handle).unwrap();
    rollback_ui_contributions(&mut registrar, "example", &mut handle);
    assert!(!handle.ui_contribution_registered);
    assert!(handle.projection.views.is_empty());
    assert_eq!(handle.projection.contribution_counts.views, 0);
    assert!(!registrar.contains_extension("example"));
}

#[test]
fn settled_handle_is_dropped_only_when_clean_and_empty() {
    let mut handle = ExtensionRuntimeHandle::default();
    assert!(!settle_handle(&mut handle, &Vec::new()));
    handle.skills.push("skill".to_string());
    assert!(settle_handle(&mut handle, &Vec::new()));
    let mut empty = ExtensionRuntimeHandle::default();
    let errors = vec![CleanupError {
        kind: CleanupErrorKind::HostUnavailable(HostKind::Lsp),
        subject: String::new(),
        detail: String::new(),
    }];
    assert!(settle_handle(&mut empty, &errors));
}

fn tool_override(server: &str, tool: &str, risk: Option<&str>) -> McpToolOverride {
    McpToolOverride {
        server: server.to_string(),
        tool: tool.to_string(),
        model_name: None,
        user_visible: Some(false),
        display_name: Some("Search".to_string()),
        description: None,
        renderer: Some("table".to_string()),
        detail_view: Some("details".to_string()),
        declared_risk: risk.map(str::to_string),
    }
}

#[test]
fn tool_override_carries_hints_and_parsed_risk() {
    let built = tool_definition_override(&tool_override("builtin", "search", Some(" Network "))).unwrap();
    assert_eq!(built.ui_hint, Some(ToolUiHint { display_name: "Search".to_string() }));
    assert_eq!(
        built.renderer_hint,
        Some(ToolRendererHint { renderer: "table".to_string(), detail_view: Some("details".to_string()) })
    );
    assert_eq!(built.declared_risk, Some(ToolRiskLevel::Network));
    assert_eq!(built.user_visible, Some(false));
    let error = tool_definition_override(&tool_override("builtin", "search", Some("extreme"))).unwrap_err();
    assert_eq!(error.to_string(), "Unsupported MCP tool risk level 'extreme'");
}

#[test]
fn tool_overrides_are_recorded_per_server_until_refused() {
    let host = Host::refusing(&["third"]);
    let mut handle = ExtensionRuntimeHandle::default();
    let error = apply_mcp_tool_overrides(
        &host,
        "example",
        &vec![
            tool_override("files", "first", None),
            tool_override("builtin", "second", Some("read")),
            tool_override("files", "third", None),
        ],
        &mut handle,
        &mut HostCallLog::new(),
    )
    .unwrap_err();
    assert_eq!(error, "Failed to apply MCP tool override 'extension:example/files:third': boom");
    assert_eq!(
        handle.tool_overrides,
        vec![
            ("extension:example/files".to_string(), "first".to_string()),
            ("builtin".to_string(), "second".to_string()),
        ]
    );
}

fn ledger_with(extension_id: &str, ids: &[&str]) -> ExtensionSubscriptionLedger {
    let records: Vec<ExtensionSubscriptionRecord> = ids
        .iter()
        .map(|id| ExtensionSubscriptionRecord {
            subscription_id: SubscriptionId::new(id),
            topic: Topic::new("session.created"),
            scope_key: None,
        })
        .collect();
    let mut ledger = ExtensionSubscriptionLedger::new();
    ledger.record_many(extension_id, &records).unwrap();
    ledger
}

#[test]
fn cleanup_releases_everything_and_drops_the_handle() {
    let plan = build_gateway_plan("example", &gateway_contributions()).unwrap();
    let host = Host::default();
    let mut handle = ExtensionRuntimeHandle::default();
    register_gateway_plan("example", plan, &host, Some(&host), &mut handle, &mut HostCallLog::new()).unwrap();
    let mut c = ExtensionContributes::empty();
    c.views = Some(vec![view("one")]);
    let mut registrar = UiContributionRegistrar::new();
    commit_ui_contributions(&mut registrar, normalize_registration("example", &c), &mut handle).unwrap();
    handle.skills.push("skill".to_string());
    handle.languages.push("rust".to_string());
    let mut ledger = ledger_with("example", &["s1", "s2"]);

    let release = Host::default();
    let events = &mut Host::default();
    let (kept, errors) = cleanup_runtime_resources(
        "example",
        &mut ledger,
        &mut registrar,
        Some(handle),
        Some(events),
        Some(&release),
        Some(&release),
        Some(&release),
        Some(&release),
        Some(&release),
        Some(&release),
        Some(&mut &release),
        &mut HostCallLog::new());
    assert!(errors.is_empty());
    assert!(kept.is_none());
    assert!(!ledger.contains_extension("example"));
    assert!(!registrar.contains_extension("example"));
    assert_eq!(
        release.calls(),
        vec![
            "dispose all example".to_string(),
            "kill all example".to_string(),
            format!("unvalidate example {PROVIDER}"),
            format!("remove caps {PROVIDER}"),
            format!("remove provider {PROVIDER}"),
            "release example chat_completions".to_string(),
            "remove skill example skill".to_string(),
            "remove language example rust".to_string(),
        ]
    );
}

#[test]
fn cleanup_keeps_what_a_host_refused_and_reports_missing_hosts() {
    let mut handle = ExtensionRuntimeHandle::default();
    handle.skills.push("stuck".to_string());
    handle.skills.push("free".to_string());
    handle.languages.push("rust".to_string());
    let mut registrar = UiContributionRegistrar::new();
    let mut ledger = ledger_with("example", &["s1"]);
    let skills = Host::refusing(&["stuck"]);
    let (kept, errors) = cleanup_runtime_resources::<Host, Host, Host, Host, Host, Host, Host, &Host>(
        "example",
        &mut ledger,
        &mut registrar,
        Some(handle),
        None,
        None,
        None,
        None,
        Some(&skills),
        None,
        None,
        None,
        &mut HostCallLog::new());
    let kept = kept.unwrap();
    assert_eq!(kept.skills, vec!["stuck".to_string()]);
    assert_eq!(kept.languages, vec!["rust".to_string()]);
    assert!(ledger.contains_extension("example"));
    assert_eq!(
        messages(&errors),
        vec![
            "Event subscriptions exist but Extension event host is not available".to_string(),
            "Skill 'stuck': boom".to_string(),
            "LSP resources exist but LSP host is not available".to_string(),
        ]
    );
}

#[test]
fn cleanup_without_a_handle_only_releases_subscriptions() {
    let mut registrar = UiContributionRegistrar::new();
    let mut ledger = ledger_with("example", &["s1", "s2"]);
    let mut events = Host::refusing(&["s1"]);
    let (kept, errors) = cleanup_runtime_resources::<Host, Host, Host, Host, Host, Host, Host, &Host>(
        "example",
        &mut ledger,
        &mut registrar,
        None,
        Some(&mut events),
        None,
        None,
        None,
        None,
        None,
        None,
        None,
        &mut HostCallLog::new());
    assert!(kept.is_none());
    assert_eq!(messages(&errors), vec!["Event subscription 's1': boom".to_string()]);
    assert_eq!(
        events.calls(),
        vec!["unsubscribe example s2".to_string(), "unsubscribe example s1".to_string()]
    );
    assert!(ledger.contains_extension("example"));
}

fn mcp_server(name: &str, config: &str) -> MCPServerConfig {
    MCPServerConfig { name: name.to_string(), config: config.to_string() }
}

fn tool(name: &str, risk: Option<&str>) -> ToolRegistration {
    ToolRegistration {
        name: name.to_string(),
        description: "d".to_string(),
        input_schema: "{}".to_string(),
        user_visible: true,
        use_builtin_risk: false,
        declared_risk: risk.map(|r| r.to_string()),
    }
}

fn skill(id: &str) -> SkillDefinition {
    SkillDefinition { id: id.to_string(), name: id.to_string(), description: None, config: "{}".to_string() }
}

#[test]
fn apply_registers_every_declaration_in_order() {
    let mut c = ExtensionContributes::empty();
    c.mcp_servers = Some(vec![mcp_server("search", "{\"autoStart\": true}"), mcp_server("idle", "{}")]);
    c.mcp_tool_overrides = Some(vec![tool_override("builtin", "read", None)]);
    c.tools = Some(vec![tool("lookup", Some("read"))]);
    c.skills = Some(vec![skill("summarise")]);
    c.languages = Some(vec![language("rust")]);
    c.gateway = Some(gateway_contributions());
    c.views = Some(vec![view("one")]);
    let host = Host::default();
    let mut registrar = UiContributionRegistrar::new();
    let (handle, outcome) =
        apply_extension_fiber("example", &c, &mut registrar, Some(&host), Some(&host), Some(&host), Some(&host), Some(&host), Some(&host), Some(&mut &host), &mut HostCallLog::new());
    assert_eq!(outcome, Ok(()));
    assert_eq!(
        handle.mcp_servers,
        vec!["extension:example/search".to_string(), "extension:example/idle".to_string()]
    );
    assert_eq!(handle.projection.contribution_counts.mcp_servers, 2);
    assert_eq!(handle.tool_overrides, vec![("builtin".to_string(), "read".to_string())]);
    assert_eq!(handle.tool_server_ids, vec!["extension:example".to_string()]);
    assert_eq!(handle.skills, vec!["summarise".to_string()]);
    assert_eq!(handle.languages, vec!["rust".to_string()]);
    assert_eq!(handle.provider_ids, vec![PROVIDER.to_string()]);
    assert!(handle.ui_contribution_registered);
    assert!(registrar.contains_extension("example"));
    let calls = host.calls();
    assert_eq!(calls[0], "add server extension:example/search");
    assert_eq!(calls[1], "start server extension:example/search");
    assert_eq!(calls[2], "add server extension:example/idle");
    assert!(calls[3].starts_with("override example builtin:read"));
    assert_eq!(calls[4], "tool extension:example lookup Some(Read)");
    assert_eq!(calls[5], "skill example summarise");
    assert_eq!(calls[6], "register language example rust");
}

#[test]
fn apply_keeps_what_was_accepted_when_a_host_refuses() {
    let mut c = ExtensionContributes::empty();
    c.skills = Some(vec![skill("first"), skill("second"), skill("third")]);
    c.views = Some(vec![view("one")]);
    let host = Host::refusing(&["second"]);
    let mut registrar = UiContributionRegistrar::new();
    let (handle, outcome) = apply_extension_fiber::<Host, Host, Host, Host, Host, Host, &Host>(
        "example", &c, &mut registrar, None, None, None, Some(&host), None, None, None,
        &mut HostCallLog::new(),
    );
    assert_eq!(outcome, Err("boom".to_string()));
    assert_eq!(handle.skills, vec!["first".to_string()]);
    assert!(!handle.ui_contribution_registered);
    assert!(!registrar.contains_extension("example"));
}

#[test]
fn apply_refuses_declarations_without_their_host() {
    let mut c = ExtensionContributes::empty();
    c.tools = Some(vec![tool("lookup", None)]);
    let mut registrar = UiContributionRegistrar::new();
    let (handle, outcome) = apply_extension_fiber::<Host, Host, Host, Host, Host, Host, &Host>(
        "example", &c, &mut registrar, None, None, None, None, None, None, None,
        &mut HostCallLog::new(),
    );
    assert_eq!(
        outcome,
        Err("Extension 'example' declares tools but MCP host is not available".to_string())
    );
    assert!(handle.tool_server_ids.is_empty());

    let mut c = ExtensionContributes::empty();
    c.mcp_servers = Some(vec![mcp_server("search", "{}")]);
    let (_, outcome) = apply_extension_fiber::<Host, Host, Host, Host, Host, Host, &Host>(
        "example", &c, &mut registrar, None, None, None, None, None, None, None,
        &mut HostCallLog::new(),
    );
    assert_eq!(
        outcome,
        Err("Extension 'example' declares MCP server 'search' but MCP host is not available".to_string())
    );
}

#[test]
fn a_failing_family_rolls_back_the_families_before_it() {
    let mut c = ExtensionContributes::empty();
    c.gateway = Some(gateway_contributions());
    c.views = Some(vec![view("one")]);
    c.components = Some(vec![ComponentRegistration {
        id: "logic".to_string(),
        entry: "logic.wasm".to_string(),
        kind: navis_extension::models::ComponentKind::Logic,
        run_on: vec!["message".to_string()],
        autostart: false,
        capabilities: navis_extension::models::ComponentCapabilities {
            invoke: vec![],
            storage: vec![],
            network: None,
            events: vec![],
        },
    }]);
    let host = Host::refusing(&["activate:logic"]);
    let mut registrar = UiContributionRegistrar::new();
    let (handle, outcome) = apply_extension_fiber(
        "example", &c, &mut registrar, Some(&host), Some(&host), Some(&host), Some(&host), Some(&host), Some(&host), Some(&mut &host),
        &mut HostCallLog::new(),
    );
    assert_eq!(
        outcome,
        Err("Extension 'example' failed to activate component 'logic': boom".to_string())
    );
    assert!(!registrar.contains_extension("example"));
    assert!(!handle.ui_contribution_registered);
    assert!(handle.provider_ids.is_empty());
    assert!(handle.protocols.is_empty());
    let calls = host.calls();
    assert!(calls.contains(&"dispose all example".to_string()));
    assert!(calls.contains(&"release example chat_completions".to_string()));
}

#[test]
fn blank_family_declarations_are_refused_before_any_commit() {
    let mut c = ExtensionContributes::empty();
    c.gateway = Some(gateway_contributions());
    c.backend_services = Some(vec![BackendServiceRegistration {
        id: "svc".to_string(),
        entry: "  ".to_string(),
        transport: navis_extension::models::BackendTransport::Stdio,
        protocol: navis_extension::models::BackendProtocol::JsonRpc,
        args: vec![],
        env: vec![],
        autostart: true,
    }]);
    let host = Host::default();
    let mut registrar = UiContributionRegistrar::new();
    let (handle, outcome) = apply_extension_fiber(
        "example", &c, &mut registrar, Some(&host), Some(&host), Some(&host), Some(&host), Some(&host), Some(&host), Some(&mut &host),
        &mut HostCallLog::new(),
    );
    assert_eq!(
        outcome,
        Err("Extension 'example' declares backend service 'svc' with an empty entry".to_string())
    );
    assert!(host.calls().is_empty());
    assert!(handle.provider_ids.is_empty());
}

#[test]
fn an_unknown_tool_risk_stops_the_apply_after_recording_the_tool_server() {
    let mut c = ExtensionContributes::empty();
    c.tools = Some(vec![tool("lookup", Some("low"))]);
    let host = Host::default();
    let mut registrar = UiContributionRegistrar::new();
    let (handle, outcome) = apply_extension_fiber::<Host, Host, Host, Host, Host, Host, &Host>(
        "example", &c, &mut registrar, None, None, Some(&host), None, None, None, None,
        &mut HostCallLog::new(),
    );
    assert_eq!(outcome, Err("Unsupported MCP tool risk level 'low'".to_string()));
    assert_eq!(handle.tool_server_ids, vec!["extension:example".to_string()]);
    assert!(host.calls().is_empty());
}

#[test]
fn apply_of_ui_contributions_alone_needs_no_host() {
    let mut c = ExtensionContributes::empty();
    c.views = Some(vec![view("one")]);
    let mut registrar = UiContributionRegistrar::new();
    let (handle, outcome) = apply_extension_fiber::<Host, Host, Host, Host, Host, Host, &Host>(
        "example", &c, &mut registrar, None, None, None, None, None, None, None,
        &mut HostCallLog::new(),
    );
    assert_eq!(outcome, Ok(()));
    assert!(handle.ui_contribution_registered);
    assert_eq!(handle.projection.contribution_counts.views, 1);

    let (again, outcome) = apply_extension_fiber::<Host, Host, Host, Host, Host, Host, &Host>(
        "example", &c, &mut registrar, None, None, None, None, None, None, None,
        &mut HostCallLog::new(),
    );
    assert!(outcome.unwrap_err().contains("example"));
    assert!(!again.ui_contribution_registered);
    assert!(registrar.contains_extension("example"));
}

/// An event host whose first unsubscribe fails.
#[derive(Default)]
struct FailingSubscriptionPort {
    failed_once: RefCell<bool>,
}

impl EventSubscriptionPort for FailingSubscriptionPort {
    fn subscribe_extension(
        &mut self,
        _extension_id: &str,
        topic: String,
        _scope_key: Option<String>,
    ) -> Result<SubscriptionId, String> {
        Ok(SubscriptionId::new(&topic))
    }
    fn unsubscribe_extension(&mut self, _extension_id: &str, _subscription_id: &SubscriptionId) -> Result<(), String> {
        if *self.failed_once.borrow() {
            Ok(())
        } else {
            *self.failed_once.borrow_mut() = true;
            Err("unsubscribe failed".to_string())
        }
    }
}

#[test]
fn failed_subscription_unsubscribe_remains_in_ledger_for_retry() {
    let extension_id = "extension-subscription-retry";
    let record = ExtensionSubscriptionRecord {
        subscription_id: SubscriptionId::new("subscription-retry"),
        topic: Topic::new("extension.test"),
        scope_key: None,
    };
    let mut ledger = ExtensionSubscriptionLedger::new();
    ledger.record_many(extension_id, &vec![record.clone()]).unwrap();
    let mut registrar = UiContributionRegistrar::new();
    let mut port = FailingSubscriptionPort::default();

    let (kept, errors) = cleanup_runtime_resources::<_, Host, Host, Host, Host, Host, Host, &Host>(
        extension_id,
        &mut ledger,
        &mut registrar,
        Some(ExtensionRuntimeHandle::default()),
        Some(&mut port),
        None,
        None,
        None,
        None,
        None,
        None,
        None,
        &mut HostCallLog::new());
    assert!(!errors.is_empty());
    assert_eq!(ledger.records(extension_id), vec![record.clone()]);

    let (kept, errors) = cleanup_runtime_resources::<_, Host, Host, Host, Host, Host, Host, &Host>(
        extension_id,
        &mut ledger,
        &mut registrar,
        kept,
        Some(&mut port),
        None,
        None,
        None,
        None,
        None,
        None,
        None,
        &mut HostCallLog::new());
    assert!(errors.is_empty());
    assert!(ledger.records(extension_id).is_empty());
    assert!(kept.is_none());
}

#[test]
fn cleanup_of_an_extension_owning_nothing_reports_nothing() {
    let mut registrar = UiContributionRegistrar::new();
    let mut ledger = ExtensionSubscriptionLedger::new();
    let (kept, errors) = cleanup_runtime_resources::<Host, Host, Host, Host, Host, Host, Host, &Host>(
        "example",
        &mut ledger,
        &mut registrar,
        Some(ExtensionRuntimeHandle::default()),
        None,
        None,
        None,
        None,
        None,
        None,
        None,
        None,
        &mut HostCallLog::new(),
    );
    assert!(errors.is_empty());
    assert!(kept.is_none());

    let (kept, errors) = cleanup_runtime_resources::<Host, Host, Host, Host, Host, Host, Host, &Host>(
        "example",
        &mut ledger,
        &mut registrar,
        None,
        None,
        None,
        None,
        None,
        None,
        None,
        None,
        None,
        &mut HostCallLog::new(),
    );
    assert!(errors.is_empty());
    assert!(kept.is_none());
}

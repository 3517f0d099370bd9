use navis_extension::gateway::{
    build_gateway_plan, extension_mcp_server_id, extension_provider_config, extension_provider_id,
    extension_tool_server_id, mcp_override_server_id, parse_tool_risk, provider_capability_set,
    validate_protocol_id, ApiProtocol, GatewayErrorKind, ToolRiskLevel,
};
use navis_extension::models::{
    GatewayAdapterRegistration, GatewayAuthRegistration, GatewayContributions,
    GatewayModelRegistration, GatewayProviderRegistration, GatewayProviderValidationRegistration,
    ProviderCapabilities,
};

fn caps() -> ProviderCapabilities {
    ProviderCapabilities {
        supports_tools: true,
        supports_streaming: true,
        supports_multimodal: false,
        supports_reasoning_effort: false,
        supports_structured_output: false,
        supports_usage: true,
    }
}

fn provider() -> GatewayProviderRegistration {
    GatewayProviderRegistration {
        id: "provider".to_string(),
        name: "Provider".to_string(),
        adapter_id: "adapter".to_string(),
        base_url: "https://example.test/v1".to_string(),
        auth: GatewayAuthRegistration {
            scheme: "bearer".to_string(),
            secret_ref: None,
            header: "Authorization".to_string(),
        },
        capabilities: caps(),
        validation: GatewayProviderValidationRegistration {
            endpoint: "models".to_string(),
            valid_status_codes: vec![200],
            invalid_status_codes: vec![401],
            timeout_ms: 5_000,
        },
        models: vec![GatewayModelRegistration {
            id: "model".to_string(),
            name: "Model".to_string(),
            capabilities: caps(),
            context_window: 128000,
            max_output_tokens: 4096,
        }],
        default_model: "model".to_string(),
    }
}

fn provider_with(id: &str, adapter_id: &str) -> GatewayProviderRegistration {
    let mut provider = provider();
    provider.id = id.to_string();
    provider.adapter_id = adapter_id.to_string();
    provider
}

fn adapter(id: &str, protocol_id: &str, kind: &str, config: &str) -> GatewayAdapterRegistration {
    GatewayAdapterRegistration {
        id: id.to_string(),
        name: id.to_string(),
        protocol_id: protocol_id.to_string(),
        kind: kind.to_string(),
        config: config.to_string(),
    }
}

fn builtin_adapter(id: &str, protocol_id: &str) -> GatewayAdapterRegistration {
    adapter(id, protocol_id, "builtin", "null")
}

fn declarative_adapter(id: &str, protocol_id: &str, supports_tools: bool) -> GatewayAdapterRegistration {
    let config = format!(
        "{{\"schemaVersion\":1,\"configVersion\":1,\"request\":{{\"method\":\"POST\",\"path\":\"/v1/chat\",\"body\":{{\"stream\":\"{{{{request.stream}}}}\"}}}},\"capabilities\":{{\"tools\":{supports_tools}}}}}"
    );
    adapter(id, protocol_id, "declarative", &config)
}

#[test]
fn provider_runtime_id_is_used_by_conversion() {
    let protocol = ApiProtocol::from_str("responses");
    let config = extension_provider_config("example", &provider(), &protocol).unwrap();
    assert_eq!(config.id, "extension:example/provider");
    assert_eq!(config.provider_type, "extension:example/provider");
    assert_eq!(config.models[0].api_protocol, ApiProtocol::Responses);
}

#[test]
fn protocol_is_resolved_before_provider_conversion() {
    let protocol = ApiProtocol::from_str("custom:extension:example/adapter");
    let config = extension_provider_config("example", &provider(), &protocol).unwrap();
    assert_eq!(config.models[0].api_protocol, protocol);
}

#[test]
fn provider_uses_protocol_and_keeps_model_capabilities_independent_of_adapter() {
    let plan = build_gateway_plan(
        "example",
        &GatewayContributions {
            adapters: vec![
                declarative_adapter("adapter-a", "mimo-v1", true),
                declarative_adapter("adapter-b", "other-v1", false),
            ],
            providers: vec![
                provider_with("provider-b", "adapter-b"),
                provider_with("provider-a", "adapter-a"),
            ],
        },
    )
    .unwrap();

    assert_eq!(plan.adapters[0].adapter_id, "adapter-a");
    assert_eq!(plan.adapters[1].adapter_id, "adapter-b");
    assert_eq!(
        plan.providers[0].config.models[0].api_protocol,
        ApiProtocol::Custom("other-v1".to_string())
    );
    assert!(plan.providers[0].config.models[0].supports_tools);
    assert_eq!(
        plan.providers[1].config.models[0].api_protocol,
        ApiProtocol::Custom("mimo-v1".to_string())
    );
    assert!(plan.providers[1].config.models[0].supports_tools);
}

#[test]
fn duplicate_protocol_ids_are_rejected() {
    let error = build_gateway_plan(
        "example",
        &GatewayContributions {
            adapters: vec![
                builtin_adapter("adapter-a", "responses"),
                builtin_adapter("adapter-b", "responses"),
            ],
            providers: Vec::new(),
        },
    )
    .unwrap_err()
    .to_string();

    assert!(error.contains("Duplicate Gateway protocolId 'responses'"));
}

#[test]
fn explicit_custom_protocol_ids_are_rejected() {
    let error = build_gateway_plan(
        "example",
        &GatewayContributions {
            adapters: vec![declarative_adapter("adapter", "custom:mimo-v1", true)],
            providers: Vec::new(),
        },
    )
    .unwrap_err()
    .to_string();

    assert!(error.contains("must not use the explicit custom: prefix"));
}

#[test]
fn protocol_ids_with_whitespace_are_rejected() {
    let error = build_gateway_plan(
        "example",
        &GatewayContributions {
            adapters: vec![declarative_adapter("adapter", "mimo v1", true)],
            providers: Vec::new(),
        },
    )
    .unwrap_err()
    .to_string();

    assert!(error.contains("cannot contain whitespace"));
}

#[test]
fn builtin_and_declarative_kinds_are_enforced() {
    let builtin_error = build_gateway_plan(
        "example",
        &GatewayContributions {
            adapters: vec![adapter("adapter", "responses", "declarative", "null")],
            providers: Vec::new(),
        },
    )
    .unwrap_err()
    .to_string();
    assert!(builtin_error.contains("must use adapter kind 'builtin'"));

    let declarative_error = build_gateway_plan(
        "example",
        &GatewayContributions {
            adapters: vec![adapter("adapter", "mimo-v1", "builtin", "null")],
            providers: Vec::new(),
        },
    )
    .unwrap_err()
    .to_string();
    assert!(declarative_error.contains("must use adapter kind 'declarative'"));
}

#[test]
fn mcp_override_server_ids_are_stable() {
    assert_eq!(mcp_override_server_id("ext", "server"), "extension:ext/server");
    assert_eq!(
        mcp_override_server_id("ext", "extension:other/server"),
        "extension:other/server"
    );
}

#[test]
fn mcp_override_server_id_keeps_builtin_and_is_idempotent() {
    assert_eq!(mcp_override_server_id("ext", "builtin"), "builtin");
    let once = mcp_override_server_id("ext", "srv");
    assert_eq!(mcp_override_server_id("ext", &once), once);
}

#[test]
fn runtime_ids_of_tools_and_servers() {
    assert_eq!(extension_tool_server_id("ext.demo"), "extension:ext.demo");
    assert_eq!(extension_mcp_server_id("ext.demo", "git"), "extension:ext.demo/git");
    assert_eq!(extension_provider_id("ext", "p").unwrap(), "extension:ext/p");
    assert_eq!(
        extension_provider_id(" ", "p").unwrap_err().kind,
        GatewayErrorKind::EmptyProviderSegment
    );
    assert_eq!(
        extension_provider_id("a/b", "p").unwrap_err().kind,
        GatewayErrorKind::ProviderSegmentSlash
    );
}

#[test]
fn empty_gateway_contribution_is_rejected() {
    let error = build_gateway_plan(
        "example",
        &GatewayContributions { adapters: Vec::new(), providers: Vec::new() },
    )
    .unwrap_err();
    assert_eq!(error.to_string(), "Gateway contribution must declare an adapter or provider");
}

#[test]
fn unknown_adapter_and_duplicate_provider_are_rejected() {
    let error = build_gateway_plan(
        "example",
        &GatewayContributions {
            adapters: vec![builtin_adapter("adapter", "responses")],
            providers: vec![provider_with("p", "missing")],
        },
    )
    .unwrap_err();
    assert_eq!(error.to_string(), "Gateway provider 'p' references unknown adapter 'missing'");

    let error = build_gateway_plan(
        "example",
        &GatewayContributions {
            adapters: vec![builtin_adapter("adapter", "responses")],
            providers: vec![provider_with("p", "adapter"), provider_with("p", "adapter")],
        },
    )
    .unwrap_err();
    assert_eq!(error.to_string(), "Duplicate Gateway provider ID 'p'");
}

#[test]
fn builtin_plan_has_no_custom_config_and_declarative_keeps_it() {
    let plan = build_gateway_plan(
        "example",
        &GatewayContributions {
            adapters: vec![builtin_adapter("a", "responses"), declarative_adapter("b", "mimo-v1", true)],
            providers: vec![provider_with("p", "a")],
        },
    )
    .unwrap();
    assert_eq!(plan.adapters[0].protocol, ApiProtocol::Responses);
    assert!(plan.adapters[0].custom_config.is_none());
    assert!(plan.adapters[1].custom_config.is_some());
    assert_eq!(plan.providers[0].config.id, "extension:example/p");
    assert_eq!(plan.providers[0].config.models[0].api_protocol, ApiProtocol::Responses);
    assert!(plan.providers[0].capabilities.model_catalog);
}

#[test]
fn provider_declaration_rules() {
    let responses = ApiProtocol::Responses;
    let mut p = provider();
    p.name = "  ".into();
    assert_eq!(extension_provider_config("e", &p, &responses).unwrap_err().kind, GatewayErrorKind::EmptyProviderName);
    let mut p = provider();
    p.base_url = "".into();
    assert_eq!(extension_provider_config("e", &p, &responses).unwrap_err().kind, GatewayErrorKind::EmptyBaseUrl);
    let mut p = provider();
    p.models.clear();
    assert_eq!(extension_provider_config("e", &p, &responses).unwrap_err().kind, GatewayErrorKind::NoModels);
    let mut p = provider();
    let m = p.models[0].clone();
    p.models.push(m);
    let e = extension_provider_config("e", &p, &responses).unwrap_err();
    assert_eq!(e.to_string(), "Gateway provider 'provider' contains duplicate model ID 'model',");
    let mut p = provider();
    p.default_model = "other".into();
    let e = extension_provider_config("e", &p, &responses).unwrap_err();
    assert_eq!(e.to_string(), "Gateway provider 'provider' defaultModel 'other' is not declared");
    let mut p = provider();
    p.id = "a/b".into();
    let e = extension_provider_config("e", &p, &responses).unwrap_err();
    assert_eq!(e.to_string(), "Gateway provider ID 'a/b' is invalid");
    let mut p = provider();
    p.auth.header = "x-api-key".into();
    let e = extension_provider_config("e", &p, &responses).unwrap_err();
    assert!(e.to_string().contains("bearer auth 必须使用 Authorization header"));
}

#[test]
fn protocol_id_rules() {
    assert_eq!(validate_protocol_id("  mimo-v1 ").unwrap(), "mimo-v1");
    assert_eq!(validate_protocol_id("   ").unwrap_err().to_string(), "Gateway adapter protocolId cannot be empty");
}

#[test]
fn tool_risk_levels_parse_case_insensitively() {
    assert_eq!(parse_tool_risk(" Read ").unwrap(), ToolRiskLevel::Read);
    assert_eq!(parse_tool_risk("NONE").unwrap(), ToolRiskLevel::NoRisk);
    assert_eq!(parse_tool_risk("destructive").unwrap(), ToolRiskLevel::Destructive);
    let e = parse_tool_risk(" Extreme ").unwrap_err();
    assert_eq!(e.to_string(), "Unsupported MCP tool risk level 'extreme'");
}

#[test]
fn capability_set_mirrors_declaration() {
    let c = provider_capability_set(&caps());
    assert!(c.tools && c.streaming && !c.multimodal && !c.reasoning && !c.structured_output && c.usage);
    assert!(c.model_catalog);
}

#[test]
fn api_protocol_names() {
    assert_eq!(ApiProtocol::from_str("chat_completions"), ApiProtocol::ChatCompletions);
    assert_eq!(ApiProtocol::from_str("custom:x"), ApiProtocol::Custom("x".into()));
    assert_eq!(ApiProtocol::Responses.as_str(), "responses");
    assert_eq!(ApiProtocol::Custom("mimo".into()).as_str(), "mimo");
}

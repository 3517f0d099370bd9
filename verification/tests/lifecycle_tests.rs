use navis_extension::installer::ExtensionInstaller;
use navis_extension::lifecycle::{
    check_can_begin_registration, check_enable_preflight, check_installable, check_no_residual,
    check_nothing_owned, check_uninstallable, plan_disable, plan_enable, plan_uninstall, plan_update,
    recovery_failed, status_after_disable, status_after_enable, status_after_retry, DisableMode,
    EnableOutcome, HostAvailability, LifecycleErrorKind, PreflightErrorKind, UninstallPlan,
    UninstallStep, UnsupportedFamily, disable_begin, disable_step, enable_begin, enable_step, DisablePhase,
    EnablePhase, HostStep, StepEvent,
};
use navis_extension::models::{
    ExtensionContributes, ExtensionStatus, GatewayContributions, LanguageRegistration,
    ThemeRegistration, ThemeType, ToolRegistration,
};
use navis_extension::text::decimal_text;

fn all_hosts() -> HostAvailability {
    HostAvailability {
        gateway: true,
        provider_validation: true,
        mcp: true,
        lsp: true,
        backend: true,
        components: true,
    }
}

fn no_hosts() -> HostAvailability {
    HostAvailability {
        gateway: false,
        provider_validation: false,
        mcp: false,
        lsp: false,
        backend: false,
        components: false,
    }
}

fn theme(id: &str) -> ThemeRegistration {
    ThemeRegistration {
        id: id.to_string(),
        name: id.to_string(),
        theme_type: ThemeType::Dark,
        module: format!("./themes/{id}.js"),
    }
}

fn tool(name: &str) -> ToolRegistration {
    ToolRegistration {
        name: name.to_string(),
        description: "a tool".to_string(),
        input_schema: "{}".to_string(),
        user_visible: true,
        use_builtin_risk: true,
        declared_risk: None,
    }
}

#[test]
fn nothing_declared_needs_no_host() {
    assert!(check_enable_preflight("example", &ExtensionContributes::empty(), no_hosts()).is_ok());
}

#[test]
fn invalid_gateway_declaration_is_refused_before_hosts_are_checked() {
    let mut c = ExtensionContributes::empty();
    c.gateway = Some(GatewayContributions { adapters: Vec::new(), providers: Vec::new() });
    let error = check_enable_preflight("example", &c, all_hosts()).unwrap_err();
    assert_eq!(error.kind, PreflightErrorKind::GatewayPlan);
    assert_eq!(error.to_string(), "Gateway contribution must declare an adapter or provider");
}

#[test]
fn unsupported_families_are_refused_with_their_count() {
    let mut c = ExtensionContributes::empty();
    c.themes = Some(vec![theme("dark"), theme("light")]);
    let error = check_enable_preflight("example", &c, all_hosts()).unwrap_err();
    assert_eq!(error.kind, PreflightErrorKind::Unsupported(UnsupportedFamily::Theme));
    assert_eq!(error.count, 2);
    assert_eq!(
        error.to_string(),
        "Extension 'example' declares unsupported runtime contributes 'editor.theme' -> Editor theme host (2)"
    );
}

#[test]
fn tools_need_the_mcp_host() {
    let mut c = ExtensionContributes::empty();
    c.tools = Some(vec![tool("search")]);
    let error = check_enable_preflight("example", &c, no_hosts()).unwrap_err();
    assert_eq!(error.kind, PreflightErrorKind::McpHostUnavailable);
    assert_eq!(
        error.to_string(),
        "Extension 'example' declares MCP contributes but MCP host is not available"
    );
    let mut hosts = no_hosts();
    hosts.mcp = true;
    assert!(check_enable_preflight("example", &c, hosts).is_ok());
}

#[test]
fn languages_need_the_lsp_host() {
    let mut c = ExtensionContributes::empty();
    c.languages = Some(vec![LanguageRegistration {
        language_id: "rust".to_string(),
        display_name: "Rust".to_string(),
        extensions: vec![".rs".to_string()],
        server_command: "rust-analyzer".to_string(),
        server_args: None,
        initialization_options: None,
    }]);
    let error = check_enable_preflight("example", &c, no_hosts()).unwrap_err();
    assert_eq!(
        error.to_string(),
        "Extension 'example' declares LSP languages but LSP host is not available"
    );
}

#[test]
fn enable_is_allowed_from_installed_disabled_and_error_only() {
    assert!(!plan_enable("x", Some(ExtensionStatus::Installed)).unwrap().recover_first);
    assert!(!plan_enable("x", Some(ExtensionStatus::Disabled)).unwrap().recover_first);
    assert!(plan_enable("x", Some(ExtensionStatus::Error)).unwrap().recover_first);
    let error = plan_enable("x", Some(ExtensionStatus::Enabled)).unwrap_err();
    assert_eq!(error.kind, LifecycleErrorKind::CannotEnable(ExtensionStatus::Enabled));
    assert_eq!(error.to_string(), "Cannot enable extension 'x': invalid transition from Enabled");
    assert_eq!(plan_enable("x", None).unwrap_err().to_string(), "Extension 'x' not found");
}

#[test]
fn disable_is_normal_when_enabled_and_a_retry_when_failed_with_residue() {
    assert_eq!(plan_disable("x", Some(ExtensionStatus::Enabled), false).unwrap(), DisableMode::Normal);
    assert_eq!(
        plan_disable("x", Some(ExtensionStatus::Error), true).unwrap(),
        DisableMode::RetryErrorCleanup
    );
    let error = plan_disable("x", Some(ExtensionStatus::Error), false).unwrap_err();
    assert_eq!(error.to_string(), "Cannot disable extension 'x': invalid transition from Error");
    let error = plan_disable("x", Some(ExtensionStatus::Installed), true).unwrap_err();
    assert_eq!(error.kind, LifecycleErrorKind::CannotDisable(ExtensionStatus::Installed));
}

#[test]
fn outcomes_settle_the_status() {
    assert_eq!(status_after_enable(EnableOutcome::Enabled), ExtensionStatus::Enabled);
    assert_eq!(status_after_enable(EnableOutcome::HooksRefused), ExtensionStatus::Error);
    assert_eq!(status_after_enable(EnableOutcome::Failed), ExtensionStatus::Error);
    assert_eq!(status_after_disable(true), ExtensionStatus::Disabled);
    assert_eq!(status_after_disable(false), ExtensionStatus::Error);
    assert_eq!(status_after_retry(true), ExtensionStatus::Installed);
    assert_eq!(status_after_retry(false), ExtensionStatus::Error);
}

#[test]
fn uninstall_preparation_by_status() {
    assert_eq!(
        plan_uninstall("x", Some(ExtensionStatus::Enabled), false).unwrap(),
        UninstallPlan { step: UninstallStep::DisableFirst, settle_disabled: false }
    );
    assert_eq!(
        plan_uninstall("x", Some(ExtensionStatus::Error), true).unwrap(),
        UninstallPlan { step: UninstallStep::RetryCleanup, settle_disabled: true }
    );
    assert_eq!(
        plan_uninstall("x", Some(ExtensionStatus::Disabled), false).unwrap(),
        UninstallPlan { step: UninstallStep::Nothing, settle_disabled: false }
    );
    assert_eq!(
        plan_uninstall("x", Some(ExtensionStatus::Loading), false).unwrap_err().to_string(),
        "Extension 'x' cannot be uninstalled while it is Loading"
    );
}

#[test]
fn residual_resources_block_uninstall_and_enable() {
    assert!(check_nothing_owned("x", false, false, false).is_ok());
    assert_eq!(
        check_nothing_owned("x", false, true, false).unwrap_err().to_string(),
        "Extension 'x' still owns runtime resources and cannot be uninstalled"
    );
    assert_eq!(
        check_no_residual("x", true).unwrap_err().to_string(),
        "Extension 'x' still owns residual runtime resources"
    );
    assert_eq!(
        check_can_begin_registration("x", false, true).unwrap_err().to_string(),
        "Extension 'x' already owns runtime resources"
    );
    assert_eq!(
        recovery_failed("x", "MCP server 'm': boom").to_string(),
        "Cannot recover extension 'x' before enabling: MCP server 'm': boom"
    );
}

#[test]
fn installer_refuses_duplicates_and_enabled_uninstalls() {
    assert_eq!(
        check_installable("com.test.dup", true).unwrap_err().to_string(),
        "Extension 'com.test.dup' is already installed"
    );
    assert!(check_installable("com.test.dup", false).is_ok());
    assert!(check_uninstallable("x", Some(ExtensionStatus::Installed)).is_ok());
    assert!(check_uninstallable("x", Some(ExtensionStatus::Disabled)).is_ok());
    assert!(check_uninstallable("x", Some(ExtensionStatus::Enabled))
        .unwrap_err()
        .to_string()
        .contains("Disable it first"));
    assert_eq!(check_uninstallable("nonexistent", None).unwrap_err().kind, LifecycleErrorKind::NotFound);
}

#[test]
fn extension_path_is_the_id_below_the_root() {
    let installer = ExtensionInstaller::new("/tmp/extensions".to_string());
    assert_eq!(installer.extensions_dir(), "/tmp/extensions");
    assert_eq!(installer.get_extension_path("com.test.install"), "/tmp/extensions/com.test.install");
}

#[test]
fn decimal_text_writes_numbers() {
    assert_eq!(decimal_text(0), "0");
    assert_eq!(decimal_text(7), "7");
    assert_eq!(decimal_text(1234), "1234");
}

#[test]
fn update_needs_an_enabled_extension() {
    assert!(plan_update("x", Some(ExtensionStatus::Enabled)).is_ok());
    assert_eq!(plan_update("x", None).unwrap_err().to_string(), "Extension 'x' not found for update");
    assert_eq!(
        plan_update("x", Some(ExtensionStatus::Disabled)).unwrap_err().to_string(),
        "Extension 'x' must be enabled before update (current status: Disabled)"
    );
}

fn run_enable(start_status: ExtensionStatus, has_residual: bool, released: bool, registered: bool) -> Vec<HostStep> {
    let start = plan_enable("example", Some(start_status)).unwrap();
    let (mut phase, mut step) = enable_begin(start, has_residual);
    let mut steps = vec![step];
    loop {
        let event = match step {
            HostStep::Release => StepEvent::Released(released),
            HostStep::SetStatus(_) => StepEvent::StatusSet,
            HostStep::Register => StepEvent::Registered(registered),
            HostStep::Finish(_) => return steps,
        };
        let (next_phase, next_step) = enable_step(phase, event).unwrap();
        phase = next_phase;
        step = next_step;
        steps.push(step);
    }
}

#[test]
fn enable_records_loading_then_enabled() {
    assert_eq!(
        run_enable(ExtensionStatus::Installed, false, true, true),
        vec![
            HostStep::SetStatus(ExtensionStatus::Loading),
            HostStep::Register,
            HostStep::SetStatus(ExtensionStatus::Enabled),
            HostStep::Finish(true),
        ]
    );
}

#[test]
fn a_failed_registration_is_released_before_the_failure_is_recorded() {
    assert_eq!(
        run_enable(ExtensionStatus::Disabled, false, true, false),
        vec![
            HostStep::SetStatus(ExtensionStatus::Loading),
            HostStep::Register,
            HostStep::Release,
            HostStep::SetStatus(ExtensionStatus::Error),
            HostStep::Finish(false),
        ]
    );
}

#[test]
fn a_failed_extension_is_recovered_before_it_loads() {
    assert_eq!(
        run_enable(ExtensionStatus::Error, true, true, true),
        vec![
            HostStep::Release,
            HostStep::SetStatus(ExtensionStatus::Installed),
            HostStep::SetStatus(ExtensionStatus::Loading),
            HostStep::Register,
            HostStep::SetStatus(ExtensionStatus::Enabled),
            HostStep::Finish(true),
        ]
    );
    assert_eq!(run_enable(ExtensionStatus::Error, true, false, true), vec![HostStep::Release, HostStep::Finish(false)]);
    assert_eq!(run_enable(ExtensionStatus::Error, false, true, true)[0], HostStep::SetStatus(ExtensionStatus::Installed));
    assert_eq!(enable_step(EnablePhase::Registering, StepEvent::StatusSet), None);
}

#[test]
fn disable_records_disabling_then_the_release_outcome() {
    let (phase, step) = disable_begin(DisableMode::Normal);
    assert_eq!(step, HostStep::SetStatus(ExtensionStatus::Disabling));
    let (phase, step) = disable_step(phase, StepEvent::StatusSet).unwrap();
    assert_eq!(step, HostStep::Release);
    let (failed_phase, failed_step) = disable_step(phase, StepEvent::Released(false)).unwrap();
    assert_eq!(failed_step, HostStep::SetStatus(ExtensionStatus::Error));
    assert_eq!(disable_step(failed_phase, StepEvent::StatusSet).unwrap().1, HostStep::Finish(false));
    let (phase, step) = disable_step(phase, StepEvent::Released(true)).unwrap();
    assert_eq!(step, HostStep::SetStatus(ExtensionStatus::Disabled));
    assert_eq!(disable_step(phase, StepEvent::StatusSet), Some((DisablePhase::Over(true), HostStep::Finish(true))));

    let (phase, step) = disable_begin(DisableMode::RetryErrorCleanup);
    assert_eq!(step, HostStep::Release);
    assert_eq!(disable_step(phase, StepEvent::Released(true)).unwrap().1, HostStep::SetStatus(ExtensionStatus::Installed));
}

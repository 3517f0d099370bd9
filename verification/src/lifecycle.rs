//! The extension lifecycle's decisions: whether an extension may be enabled
//! with the hosts at hand, which transitions a status allows, and what each
//! outcome of the host work leads to.
//!
//! The host work itself (registering, releasing, emitting events, updating
//! the store) is done by the caller, which reports each outcome back.

use vstd::prelude::*;

use crate::gateway::{build_gateway_plan, gateway_plan_fault, GatewayError, GatewayFault};
use crate::models::{ExtensionContributes, ExtensionStatus};
use crate::seqs::opt_seq;
use crate::text::{concat3, concat4, concat7, decimal, decimal_text, owned};

verus! {

/// Which host subsystems are present.
#[derive(Debug, Clone, Copy, PartialEq, Eq)]
pub struct HostAvailability {
    pub gateway: bool,
    pub provider_validation: bool,
    pub mcp: bool,
    pub lsp: bool,
    pub backend: bool,
    pub components: bool,
}

/// A contribution family the runtime has no host for yet.
#[derive(Debug, Clone, Copy, PartialEq, Eq)]
pub enum UnsupportedFamily {
    Middleware,
    TransportAdapter,
    Theme,
    EditorExtension,
    NotificationChannel,
    Behavior,
    ContextProvider,
    SearchProvider,
    FileWatcher,
    Role,
    TrayItem,
    LayoutOverride,
}

impl UnsupportedFamily {
    /// The family's name, as a value.
    pub open spec fn family_text(&self) -> Seq<char> {
        match self {
            UnsupportedFamily::Middleware => "gateway.middleware"@,
            UnsupportedFamily::TransportAdapter => "mcp.transport_adapter"@,
            UnsupportedFamily::Theme => "editor.theme"@,
            UnsupportedFamily::EditorExtension => "editor.extension"@,
            UnsupportedFamily::NotificationChannel => "notification.channel"@,
            UnsupportedFamily::Behavior => "ui.behavior"@,
            UnsupportedFamily::ContextProvider => "context.provider"@,
            UnsupportedFamily::SearchProvider => "search.provider"@,
            UnsupportedFamily::FileWatcher => "file.watcher"@,
            UnsupportedFamily::Role => "extension.role"@,
            UnsupportedFamily::TrayItem => "tray.item"@,
            UnsupportedFamily::LayoutOverride => "layout.override"@,
        }
    }

    /// The host the family would need, as a value.
    pub open spec fn host_text(&self) -> Seq<char> {
        match self {
            UnsupportedFamily::Middleware => "Gateway Kernel Pipeline"@,
            UnsupportedFamily::TransportAdapter => "MCP transport registry"@,
            UnsupportedFamily::Theme => "Editor theme host"@,
            UnsupportedFamily::EditorExtension => "Editor extension host"@,
            UnsupportedFamily::NotificationChannel => "Notification host"@,
            UnsupportedFamily::Behavior => "UI behavior host"@,
            UnsupportedFamily::ContextProvider => "Context host"@,
            UnsupportedFamily::SearchProvider => "Search host"@,
            UnsupportedFamily::FileWatcher => "File watcher host"@,
            UnsupportedFamily::Role => "Role host"@,
            UnsupportedFamily::TrayItem => "Window tray host"@,
            UnsupportedFamily::LayoutOverride => "Layout override host"@,
        }
    }

    /// The family's name.
    pub fn family(&self) -> (r: &'static str)
        ensures
            r@ == self.family_text(),
    {
        match self {
            UnsupportedFamily::Middleware => "gateway.middleware",
            UnsupportedFamily::TransportAdapter => "mcp.transport_adapter",
            UnsupportedFamily::Theme => "editor.theme",
            UnsupportedFamily::EditorExtension => "editor.extension",
            UnsupportedFamily::NotificationChannel => "notification.channel",
            UnsupportedFamily::Behavior => "ui.behavior",
            UnsupportedFamily::ContextProvider => "context.provider",
            UnsupportedFamily::SearchProvider => "search.provider",
            UnsupportedFamily::FileWatcher => "file.watcher",
            UnsupportedFamily::Role => "extension.role",
            UnsupportedFamily::TrayItem => "tray.item",
            UnsupportedFamily::LayoutOverride => "layout.override",
        }
    }

    /// The host the family would need.
    pub fn host(&self) -> (r: &'static str)
        ensures
            r@ == self.host_text(),
    {
        match self {
            UnsupportedFamily::Middleware => "Gateway Kernel Pipeline",
            UnsupportedFamily::TransportAdapter => "MCP transport registry",
            UnsupportedFamily::Theme => "Editor theme host",
            UnsupportedFamily::EditorExtension => "Editor extension host",
            UnsupportedFamily::NotificationChannel => "Notification host",
            UnsupportedFamily::Behavior => "UI behavior host",
            UnsupportedFamily::ContextProvider => "Context host",
            UnsupportedFamily::SearchProvider => "Search host",
            UnsupportedFamily::FileWatcher => "File watcher host",
            UnsupportedFamily::Role => "Role host",
            UnsupportedFamily::TrayItem => "Window tray host",
            UnsupportedFamily::LayoutOverride => "Layout override host",
        }
    }
}

/// Why an extension cannot be enabled with the hosts at hand.
#[derive(Debug, Clone, Copy, PartialEq, Eq)]
pub enum PreflightErrorKind {
    /// The Gateway declaration is invalid; the cause says how.
    GatewayPlan,
    GatewayHostUnavailable,
    ProviderValidationHostUnavailable,
    EditorLanguagesLspUnavailable,
    BackendHostUnavailable,
    ComponentHostUnavailable,
    /// Declarations of a family no host supports, with their number.
    Unsupported(UnsupportedFamily),
    McpHostUnavailable,
    LspHostUnavailable,
}

/// A refused enable: the reason, the extension, the number of refused
/// declarations where that matters, and the Gateway fault behind it.
#[derive(Debug, Clone, PartialEq)]
pub struct PreflightError {
    pub kind: PreflightErrorKind,
    pub extension_id: String,
    pub count: usize,
    pub cause: Option<GatewayError>,
}

/// A preflight fault as a value.
pub type PreflightFault = (PreflightErrorKind, int, Option<GatewayFault>);

impl PreflightError {
    pub open spec fn fault(&self) -> PreflightFault {
        (
            self.kind,
            self.count as int,
            match self.cause {
                Some(e) => Some(e.fault()),
                None => None,
            },
        )
    }

    /// The description of the refusal, as a value.
    pub open spec fn text(&self) -> Seq<char> {
        let id = self.extension_id@;
        match self.kind {
            PreflightErrorKind::GatewayPlan => match self.cause {
                Some(e) => e.text(),
                None => "Invalid Gateway contribution"@,
            },
            PreflightErrorKind::GatewayHostUnavailable => "Extension '"@ + id
                + "' declares Gateway contributions but Gateway host is not available"@,
            PreflightErrorKind::ProviderValidationHostUnavailable => "Extension '"@ + id
                + "' declares Gateway Providers but Provider validation host is not available"@,
            PreflightErrorKind::EditorLanguagesLspUnavailable => "Extension '"@ + id
                + "' declares editor languages but LSP host is not available"@,
            PreflightErrorKind::BackendHostUnavailable => "Extension '"@ + id
                + "' declares backend services but backend host is not available"@,
            PreflightErrorKind::ComponentHostUnavailable => "Extension '"@ + id
                + "' declares components but component host is not available"@,
            PreflightErrorKind::Unsupported(f) => "Extension '"@ + id + "' declares unsupported runtime contributes '"@
                + f.family_text() + "' -> "@ + f.host_text() + (" ("@ + decimal(self.count as nat) + ")"@),
            PreflightErrorKind::McpHostUnavailable => "Extension '"@ + id
                + "' declares MCP contributes but MCP host is not available"@,
            PreflightErrorKind::LspHostUnavailable => "Extension '"@ + id
                + "' declares LSP languages but LSP host is not available"@,
        }
    }

    /// A human-readable description of the refusal.
    pub fn to_string(&self) -> (r: String)
        ensures
            r@ == self.text(),
    {
        let id = self.extension_id.as_str();
        match self.kind {
            PreflightErrorKind::GatewayPlan => match &self.cause {
                Some(e) => e.to_string(),
                None => owned("Invalid Gateway contribution"),
            },
            PreflightErrorKind::GatewayHostUnavailable => concat3(
                "Extension '",
                id,
                "' declares Gateway contributions but Gateway host is not available",
            ),
            PreflightErrorKind::ProviderValidationHostUnavailable => concat3(
                "Extension '",
                id,
                "' declares Gateway Providers but Provider validation host is not available",
            ),
            PreflightErrorKind::EditorLanguagesLspUnavailable => concat3(
                "Extension '",
                id,
                "' declares editor languages but LSP host is not available",
            ),
            PreflightErrorKind::BackendHostUnavailable => concat3(
                "Extension '",
                id,
                "' declares backend services but backend host is not available",
            ),
            PreflightErrorKind::ComponentHostUnavailable => concat3(
                "Extension '",
                id,
                "' declares components but component host is not available",
            ),
            PreflightErrorKind::Unsupported(f) => {
                let n = decimal_text(self.count);
                let tail = concat3(" (", n.as_str(), ")");
                concat7(
                    "Extension '",
                    id,
                    "' declares unsupported runtime contributes '",
                    f.family(),
                    "' -> ",
                    f.host(),
                    tail.as_str(),
                )
            },
            PreflightErrorKind::McpHostUnavailable => concat3(
                "Extension '",
                id,
                "' declares MCP contributes but MCP host is not available",
            ),
            PreflightErrorKind::LspHostUnavailable => concat3(
                "Extension '",
                id,
                "' declares LSP languages but LSP host is not available",
            ),
        }
    }
}

/// How many declarations an optional list holds.
pub open spec fn count<T>(o: Option<Vec<T>>) -> int {
    opt_seq(o).len() as int
}

/// How many declarations an optional list holds.
pub fn count_of<T>(o: &Option<Vec<T>>) -> (r: usize)
    ensures
        r == count(*o),
{
    match o {
        Some(v) => v.len(),
        None => 0,
    }
}

/// The first family no host supports that `c` declares, in the runtime's
/// order, with the number of its declarations.
pub open spec fn unsupported_fault(c: ExtensionContributes) -> Option<(UnsupportedFamily, int)> {
    if count(c.middlewares) > 0 {
        Some((UnsupportedFamily::Middleware, count(c.middlewares)))
    } else if count(c.transport_adapters) > 0 {
        Some((UnsupportedFamily::TransportAdapter, count(c.transport_adapters)))
    } else if count(c.themes) > 0 {
        Some((UnsupportedFamily::Theme, count(c.themes)))
    } else if count(c.editor_extensions) > 0 {
        Some((UnsupportedFamily::EditorExtension, count(c.editor_extensions)))
    } else if count(c.notification_channels) > 0 {
        Some((UnsupportedFamily::NotificationChannel, count(c.notification_channels)))
    } else if count(c.behaviors) > 0 {
        Some((UnsupportedFamily::Behavior, count(c.behaviors)))
    } else if count(c.context_providers) > 0 {
        Some((UnsupportedFamily::ContextProvider, count(c.context_providers)))
    } else if count(c.search_providers) > 0 {
        Some((UnsupportedFamily::SearchProvider, count(c.search_providers)))
    } else if count(c.file_watchers) > 0 {
        Some((UnsupportedFamily::FileWatcher, count(c.file_watchers)))
    } else if count(c.roles) > 0 {
        Some((UnsupportedFamily::Role, count(c.roles)))
    } else if count(c.tray_items) > 0 {
        Some((UnsupportedFamily::TrayItem, count(c.tray_items)))
    } else if count(c.layout_overrides) > 0 {
        Some((UnsupportedFamily::LayoutOverride, count(c.layout_overrides)))
    } else {
        None
    }
}

/// `c` declares MCP servers, tool overrides or tools.
pub open spec fn needs_mcp(c: ExtensionContributes) -> bool {
    count(c.mcp_servers) > 0 || count(c.mcp_tool_overrides) > 0 || count(c.tools) > 0
}

/// Why `c` cannot be enabled for `extension_id` with `hosts`, checked in
/// the runtime's order: the Gateway declaration and its hosts, editor
/// languages, backend services, components, unsupported families, MCP, and
/// LSP languages.
pub open spec fn preflight_fault(extension_id: Seq<char>, c: ExtensionContributes, hosts: HostAvailability) -> Option<PreflightFault> {
    let gateway_fault: Option<PreflightFault> = match c.gateway {
        Some(g) => match gateway_plan_fault(extension_id, g) {
            Some(f) => Some((PreflightErrorKind::GatewayPlan, 0int, Some(f))),
            None => if !hosts.gateway {
                Some((PreflightErrorKind::GatewayHostUnavailable, 0int, None))
            } else if g.providers@.len() > 0 && !hosts.provider_validation {
                Some((PreflightErrorKind::ProviderValidationHostUnavailable, 0int, None))
            } else {
                None
            },
        },
        None => None,
    };
    if gateway_fault is Some {
        gateway_fault
    } else if count(c.editor_languages) > 0 && !hosts.lsp {
        Some((PreflightErrorKind::EditorLanguagesLspUnavailable, 0int, None))
    } else if count(c.backend_services) > 0 && !hosts.backend {
        Some((PreflightErrorKind::BackendHostUnavailable, 0int, None))
    } else if count(c.components) > 0 && !hosts.components {
        Some((PreflightErrorKind::ComponentHostUnavailable, 0int, None))
    } else if let Some((f, n)) = unsupported_fault(c) {
        Some((PreflightErrorKind::Unsupported(f), n, None))
    } else if needs_mcp(c) && !hosts.mcp {
        Some((PreflightErrorKind::McpHostUnavailable, 0int, None))
    } else if count(c.languages) > 0 && !hosts.lsp {
        Some((PreflightErrorKind::LspHostUnavailable, 0int, None))
    } else {
        None
    }
}

fn refuse(kind: PreflightErrorKind, extension_id: &str, count: usize) -> (e: PreflightError)
    ensures
        e.fault() == (kind, count as int, None::<GatewayFault>),
        e.extension_id@ == extension_id@,
{
    PreflightError { kind, extension_id: owned(extension_id), count, cause: None }
}

fn unsupported_family(c: &ExtensionContributes) -> (r: Option<(UnsupportedFamily, usize)>)
    ensures
        match unsupported_fault(*c) {
            Some((f, n)) => r matches Some((g, m)) && g == f && m as int == n,
            None => r is None,
        },
{
    let n = count_of(&c.middlewares);
    if n > 0 {
        return Some((UnsupportedFamily::Middleware, n));
    }
    let n = count_of(&c.transport_adapters);
    if n > 0 {
        return Some((UnsupportedFamily::TransportAdapter, n));
    }
    let n = count_of(&c.themes);
    if n > 0 {
        return Some((UnsupportedFamily::Theme, n));
    }
    let n = count_of(&c.editor_extensions);
    if n > 0 {
        return Some((UnsupportedFamily::EditorExtension, n));
    }
    let n = count_of(&c.notification_channels);
    if n > 0 {
        return Some((UnsupportedFamily::NotificationChannel, n));
    }
    let n = count_of(&c.behaviors);
    if n > 0 {
        return Some((UnsupportedFamily::Behavior, n));
    }
    let n = count_of(&c.context_providers);
    if n > 0 {
        return Some((UnsupportedFamily::ContextProvider, n));
    }
    let n = count_of(&c.search_providers);
    if n > 0 {
        return Some((UnsupportedFamily::SearchProvider, n));
    }
    let n = count_of(&c.file_watchers);
    if n > 0 {
        return Some((UnsupportedFamily::FileWatcher, n));
    }
    let n = count_of(&c.roles);
    if n > 0 {
        return Some((UnsupportedFamily::Role, n));
    }
    let n = count_of(&c.tray_items);
    if n > 0 {
        return Some((UnsupportedFamily::TrayItem, n));
    }
    let n = count_of(&c.layout_overrides);
    if n > 0 {
        return Some((UnsupportedFamily::LayoutOverride, n));
    }
    None
}

/// Checks, before any host work, that `contributes` can be enabled for
/// `extension_id` with `hosts`; see `preflight_fault` for the checks and
/// their order.
pub fn check_enable_preflight(
    extension_id: &str,
    contributes: &ExtensionContributes,
    hosts: HostAvailability,
) -> (r: Result<(), PreflightError>)
    ensures
        match preflight_fault(extension_id@, *contributes, hosts) {
            None => r is Ok,
            Some(f) => r matches Err(e) && e.fault() == f && e.extension_id@ == extension_id@,
        },
{
    if let Some(g) = &contributes.gateway {
        match build_gateway_plan(extension_id, g) {
            Err(e) => {
                return Err(
                    PreflightError {
                        kind: PreflightErrorKind::GatewayPlan,
                        extension_id: owned(extension_id),
                        count: 0,
                        cause: Some(e),
                    },
                );
            },
            Ok(_) => {
                if !hosts.gateway {
                    return Err(refuse(PreflightErrorKind::GatewayHostUnavailable, extension_id, 0));
                }
                if g.providers.len() > 0 && !hosts.provider_validation {
                    return Err(refuse(PreflightErrorKind::ProviderValidationHostUnavailable, extension_id, 0));
                }
            },
        }
    }
    if count_of(&contributes.editor_languages) > 0 && !hosts.lsp {
        return Err(refuse(PreflightErrorKind::EditorLanguagesLspUnavailable, extension_id, 0));
    }
    if count_of(&contributes.backend_services) > 0 && !hosts.backend {
        return Err(refuse(PreflightErrorKind::BackendHostUnavailable, extension_id, 0));
    }
    if count_of(&contributes.components) > 0 && !hosts.components {
        return Err(refuse(PreflightErrorKind::ComponentHostUnavailable, extension_id, 0));
    }
    if let Some((f, n)) = unsupported_family(contributes) {
        return Err(refuse(PreflightErrorKind::Unsupported(f), extension_id, n));
    }
    let needs = count_of(&contributes.mcp_servers) > 0 || count_of(&contributes.mcp_tool_overrides) > 0
        || count_of(&contributes.tools) > 0;
    if needs && !hosts.mcp {
        return Err(refuse(PreflightErrorKind::McpHostUnavailable, extension_id, 0));
    }
    if count_of(&contributes.languages) > 0 && !hosts.lsp {
        return Err(refuse(PreflightErrorKind::LspHostUnavailable, extension_id, 0));
    }
    Ok(())
}

// ---------------------------------------------------------------------------
// Status transitions
// ---------------------------------------------------------------------------

/// The name a status is shown under, as a value.
pub open spec fn status_text(status: ExtensionStatus) -> Seq<char> {
    match status {
        ExtensionStatus::Installed => "Installed"@,
        ExtensionStatus::Loading => "Loading"@,
        ExtensionStatus::Enabled => "Enabled"@,
        ExtensionStatus::Disabling => "Disabling"@,
        ExtensionStatus::Disabled => "Disabled"@,
        ExtensionStatus::Unloading => "Unloading"@,
        ExtensionStatus::Error => "Error"@,
    }
}

/// The name a status is shown under in lifecycle errors.
pub fn status_name(status: ExtensionStatus) -> (r: &'static str)
    ensures
        r@ == status_text(status),
{
    match status {
        ExtensionStatus::Installed => "Installed",
        ExtensionStatus::Loading => "Loading",
        ExtensionStatus::Enabled => "Enabled",
        ExtensionStatus::Disabling => "Disabling",
        ExtensionStatus::Disabled => "Disabled",
        ExtensionStatus::Unloading => "Unloading",
        ExtensionStatus::Error => "Error",
    }
}

/// Why a lifecycle request is refused.
#[derive(Debug, Clone, Copy, PartialEq, Eq)]
pub enum LifecycleErrorKind {
    NotFound,
    CannotEnable(ExtensionStatus),
    CannotDisable(ExtensionStatus),
    CannotUninstall(ExtensionStatus),
    /// Uninstalling an enabled extension without disabling it first.
    UninstallEnabled,
    AlreadyInstalled,
    /// Residual resources could not be released before enabling; the detail
    /// is the release failure.
    RecoveryFailed,
    ResidualResources,
    StillOwnsResources,
    AlreadyOwnsResources,
    NotFoundForUpdate,
    UpdateRequiresEnabled(ExtensionStatus),
}

/// A refused lifecycle request: why, for which extension, and the
/// underlying failure where there is one.
#[derive(Debug, Clone, PartialEq)]
pub struct LifecycleError {
    pub kind: LifecycleErrorKind,
    pub extension_id: String,
    pub detail: String,
}

impl LifecycleError {
    /// The description of the refusal, as a value.
    pub open spec fn text(&self) -> Seq<char> {
        let id = self.extension_id@;
        match self.kind {
            LifecycleErrorKind::NotFound => "Extension '"@ + id + "' not found"@,
            LifecycleErrorKind::CannotEnable(s) => "Cannot enable extension '"@ + id + "': invalid transition from "@
                + status_text(s),
            LifecycleErrorKind::CannotDisable(s) => "Cannot disable extension '"@ + id
                + "': invalid transition from "@ + status_text(s),
            LifecycleErrorKind::CannotUninstall(s) => "Extension '"@ + id + "' cannot be uninstalled while it is "@
                + status_text(s),
            LifecycleErrorKind::UninstallEnabled => "Extension '"@ + id
                + "' is currently enabled. Disable it first before uninstalling."@,
            LifecycleErrorKind::AlreadyInstalled => "Extension '"@ + id + "' is already installed"@,
            LifecycleErrorKind::RecoveryFailed => "Cannot recover extension '"@ + id + "' before enabling: "@
                + self.detail@,
            LifecycleErrorKind::ResidualResources => "Extension '"@ + id + "' still owns residual runtime resources"@,
            LifecycleErrorKind::StillOwnsResources => "Extension '"@ + id
                + "' still owns runtime resources and cannot be uninstalled"@,
            LifecycleErrorKind::AlreadyOwnsResources => "Extension '"@ + id + "' already owns runtime resources"@,
            LifecycleErrorKind::NotFoundForUpdate => "Extension '"@ + id + "' not found for update"@,
            LifecycleErrorKind::UpdateRequiresEnabled(s) => "Extension '"@ + id + "' must be enabled before update"@
                + (" (current status: "@ + status_text(s) + ")"@),
        }
    }

    /// A human-readable description of the refusal.
    pub fn to_string(&self) -> (r: String)
        ensures
            r@ == self.text(),
    {
        let id = self.extension_id.as_str();
        match self.kind {
            LifecycleErrorKind::NotFound => concat3("Extension '", id, "' not found"),
            LifecycleErrorKind::CannotEnable(s) => concat4(
                "Cannot enable extension '",
                id,
                "': invalid transition from ",
                status_name(s),
            ),
            LifecycleErrorKind::CannotDisable(s) => concat4(
                "Cannot disable extension '",
                id,
                "': invalid transition from ",
                status_name(s),
            ),
            LifecycleErrorKind::CannotUninstall(s) => concat4(
                "Extension '",
                id,
                "' cannot be uninstalled while it is ",
                status_name(s),
            ),
            LifecycleErrorKind::UninstallEnabled => concat3(
                "Extension '",
                id,
                "' is currently enabled. Disable it first before uninstalling.",
            ),
            LifecycleErrorKind::AlreadyInstalled => concat3("Extension '", id, "' is already installed"),
            LifecycleErrorKind::RecoveryFailed => concat4(
                "Cannot recover extension '",
                id,
                "' before enabling: ",
                self.detail.as_str(),
            ),
            LifecycleErrorKind::ResidualResources => concat3(
                "Extension '",
                id,
                "' still owns residual runtime resources",
            ),
            LifecycleErrorKind::StillOwnsResources => concat3(
                "Extension '",
                id,
                "' still owns runtime resources and cannot be uninstalled",
            ),
            LifecycleErrorKind::AlreadyOwnsResources => concat3(
                "Extension '",
                id,
                "' already owns runtime resources",
            ),
            LifecycleErrorKind::NotFoundForUpdate => concat3("Extension '", id, "' not found for update"),
            LifecycleErrorKind::UpdateRequiresEnabled(s) => {
                let tail = concat3(" (current status: ", status_name(s), ")");
                concat4("Extension '", id, "' must be enabled before update", tail.as_str())
            },
        }
    }
}

fn lifecycle_error(kind: LifecycleErrorKind, extension_id: &str) -> (e: LifecycleError)
    ensures
        e.kind == kind,
        e.extension_id@ == extension_id@,
        e.detail@.len() == 0,
{
    LifecycleError { kind, extension_id: owned(extension_id), detail: String::new() }
}

/// Whether enabling is allowed from `status`.
pub open spec fn can_enable_from(status: ExtensionStatus) -> bool {
    status == ExtensionStatus::Installed || status == ExtensionStatus::Disabled || status
        == ExtensionStatus::Error
}

/// How an enable starts: whether residual resources of a failed operation
/// must be released first.
#[derive(Debug, Clone, Copy, PartialEq, Eq)]
pub struct EnableStart {
    pub recover_first: bool,
}

/// Decides whether an extension in `status` (or unknown) may be enabled.
/// Only an installed, disabled or failed extension may; a failed one is
/// first recovered.
pub fn plan_enable(extension_id: &str, status: Option<ExtensionStatus>) -> (r: Result<EnableStart, LifecycleError>)
    ensures
        match status {
            None => r matches Err(e) && e.kind == LifecycleErrorKind::NotFound && e.extension_id@ == extension_id@,
            Some(s) => if can_enable_from(s) {
                r matches Ok(start) && start.recover_first == (s == ExtensionStatus::Error)
            } else {
                r matches Err(e) && e.kind == LifecycleErrorKind::CannotEnable(s) && e.extension_id@ == extension_id@
            },
        },
{
    match status {
        None => Err(lifecycle_error(LifecycleErrorKind::NotFound, extension_id)),
        Some(s) => match s {
            ExtensionStatus::Installed | ExtensionStatus::Disabled => Ok(EnableStart { recover_first: false }),
            ExtensionStatus::Error => Ok(EnableStart { recover_first: true }),
            _ => Err(lifecycle_error(LifecycleErrorKind::CannotEnable(s), extension_id)),
        },
    }
}

/// The recovery of a failed extension before enabling it failed with `cause`.
pub fn recovery_failed(extension_id: &str, cause: &str) -> (e: LifecycleError)
    ensures
        e.kind == LifecycleErrorKind::RecoveryFailed,
        e.extension_id@ == extension_id@,
        e.detail@ == cause@,
{
    LifecycleError { kind: LifecycleErrorKind::RecoveryFailed, extension_id: owned(extension_id), detail: owned(cause) }
}

/// How a disable proceeds.
#[derive(Debug, Clone, Copy, PartialEq, Eq)]
pub enum DisableMode {
    /// An enabled extension is disabled normally.
    Normal,
    /// A failed extension's residual resources are released again.
    RetryErrorCleanup,
}

/// Decides whether an extension in `status` (or unknown) may be disabled:
/// an enabled one normally, a failed one that still owns resources by
/// retrying its cleanup.
pub fn plan_disable(extension_id: &str, status: Option<ExtensionStatus>, has_runtime_handle: bool) -> (r: Result<
    DisableMode,
    LifecycleError,
>)
    ensures
        match status {
            None => r matches Err(e) && e.kind == LifecycleErrorKind::NotFound && e.extension_id@ == extension_id@,
            Some(s) => if s == ExtensionStatus::Error && has_runtime_handle {
                r == Ok::<DisableMode, LifecycleError>(DisableMode::RetryErrorCleanup)
            } else if s == ExtensionStatus::Enabled {
                r == Ok::<DisableMode, LifecycleError>(DisableMode::Normal)
            } else {
                r matches Err(e) && e.kind == LifecycleErrorKind::CannotDisable(s) && e.extension_id@ == extension_id@
            },
        },
{
    match status {
        None => Err(lifecycle_error(LifecycleErrorKind::NotFound, extension_id)),
        Some(ExtensionStatus::Error) if has_runtime_handle => Ok(DisableMode::RetryErrorCleanup),
        Some(ExtensionStatus::Enabled) => Ok(DisableMode::Normal),
        Some(s) => Err(lifecycle_error(LifecycleErrorKind::CannotDisable(s), extension_id)),
    }
}

/// What an enable's host work came to, and the status it leaves.
#[derive(Debug, Clone, Copy, PartialEq, Eq)]
pub enum EnableOutcome {
    /// Contributions and hook declarations registered.
    Enabled,
    /// Contributions registered but hook declarations refused; the
    /// contributions are released again.
    HooksRefused,
    /// The contributions could not be registered.
    Failed,
}

/// The status an enable leaves the extension in: enabled on success, failed
/// otherwise.
pub fn status_after_enable(outcome: EnableOutcome) -> (s: ExtensionStatus)
    ensures
        s == (if outcome == EnableOutcome::Enabled {
            ExtensionStatus::Enabled
        } else {
            ExtensionStatus::Error
        }),
{
    match outcome {
        EnableOutcome::Enabled => ExtensionStatus::Enabled,
        _ => ExtensionStatus::Error,
    }
}

/// The status a disable leaves the extension in: disabled when its resources
/// were released, failed otherwise.
pub fn status_after_disable(released: bool) -> (s: ExtensionStatus)
    ensures
        s == (if released {
            ExtensionStatus::Disabled
        } else {
            ExtensionStatus::Error
        }),
{
    if released {
        ExtensionStatus::Disabled
    } else {
        ExtensionStatus::Error
    }
}

/// The status a retried cleanup leaves a failed extension in: installed when
/// its residual resources were released, still failed otherwise.
pub fn status_after_retry(released: bool) -> (s: ExtensionStatus)
    ensures
        s == (if released {
            ExtensionStatus::Installed
        } else {
            ExtensionStatus::Error
        }),
{
    if released {
        ExtensionStatus::Installed
    } else {
        ExtensionStatus::Error
    }
}

/// One piece of host work the lifecycle does for an enable or a disable.
#[derive(Debug, Clone, Copy, PartialEq, Eq)]
pub enum HostStep {
    /// Release everything the extension owns.
    Release,
    /// Record a status in the store.
    SetStatus(ExtensionStatus),
    /// Register the extension's contributions with the hosts.
    Register,
    /// Stop, reporting whether the operation succeeded.
    Finish(bool),
}

/// How a piece of host work came out.
#[derive(Debug, Clone, Copy, PartialEq, Eq)]
pub enum StepEvent {
    /// A release ended, with or without a failure.
    Released(bool),
    /// A status was recorded.
    StatusSet,
    /// The registration ended, with or without a failure.
    Registered(bool),
}

/// Where an enable stands.
#[derive(Debug, Clone, Copy, PartialEq, Eq)]
pub enum EnablePhase {
    /// Releasing what a failed earlier operation left.
    Recovering,
    /// Recording that the recovered extension is installed again.
    MarkingInstalled,
    /// Recording that the extension is loading.
    MarkingLoading,
    /// Registering the contributions.
    Registering,
    /// Releasing what a failed registration left.
    ReleasingAfterFailure,
    /// Recording the outcome: enabled, or failed.
    MarkingResult(bool),
    /// Over, successfully or not.
    Over(bool),
}

/// The first step of an enable `plan_enable` allowed: a failed extension
/// first releases what it still owns and is recorded as installed; then
/// the extension is recorded as loading.
pub open spec fn enable_first(start: EnableStart, has_residual: bool) -> (EnablePhase, HostStep) {
    if start.recover_first && has_residual {
        (EnablePhase::Recovering, HostStep::Release)
    } else if start.recover_first {
        (EnablePhase::MarkingInstalled, HostStep::SetStatus(ExtensionStatus::Installed))
    } else {
        (EnablePhase::MarkingLoading, HostStep::SetStatus(ExtensionStatus::Loading))
    }
}

/// The documented course of an enable: recovery (when needed), installed,
/// loading, registration, then enabled; a failed registration is released
/// before the failure is recorded; a failed recovery ends the enable at
/// once. Events that cannot come in a phase lead nowhere.
pub open spec fn enable_next(phase: EnablePhase, event: StepEvent) -> Option<(EnablePhase, HostStep)> {
    match (phase, event) {
        (EnablePhase::Recovering, StepEvent::Released(true)) => Some(
            (EnablePhase::MarkingInstalled, HostStep::SetStatus(ExtensionStatus::Installed)),
        ),
        (EnablePhase::Recovering, StepEvent::Released(false)) => Some((EnablePhase::Over(false), HostStep::Finish(false))),
        (EnablePhase::MarkingInstalled, StepEvent::StatusSet) => Some(
            (EnablePhase::MarkingLoading, HostStep::SetStatus(ExtensionStatus::Loading)),
        ),
        (EnablePhase::MarkingLoading, StepEvent::StatusSet) => Some((EnablePhase::Registering, HostStep::Register)),
        (EnablePhase::Registering, StepEvent::Registered(true)) => Some(
            (EnablePhase::MarkingResult(true), HostStep::SetStatus(ExtensionStatus::Enabled)),
        ),
        (EnablePhase::Registering, StepEvent::Registered(false)) => Some(
            (EnablePhase::ReleasingAfterFailure, HostStep::Release),
        ),
        (EnablePhase::ReleasingAfterFailure, StepEvent::Released(_)) => Some(
            (EnablePhase::MarkingResult(false), HostStep::SetStatus(ExtensionStatus::Error)),
        ),
        (EnablePhase::MarkingResult(ok), StepEvent::StatusSet) => Some((EnablePhase::Over(ok), HostStep::Finish(ok))),
        _ => None,
    }
}

/// Starts an enable.
pub fn enable_begin(start: EnableStart, has_residual: bool) -> (r: (EnablePhase, HostStep))
    ensures
        r == enable_first(start, has_residual),
{
    if start.recover_first && has_residual {
        (EnablePhase::Recovering, HostStep::Release)
    } else if start.recover_first {
        (EnablePhase::MarkingInstalled, HostStep::SetStatus(ExtensionStatus::Installed))
    } else {
        (EnablePhase::MarkingLoading, HostStep::SetStatus(ExtensionStatus::Loading))
    }
}

/// The next step of an enable, given how the last one came out.
pub fn enable_step(phase: EnablePhase, event: StepEvent) -> (r: Option<(EnablePhase, HostStep)>)
    ensures
        r == enable_next(phase, event),
{
    match (phase, event) {
        (EnablePhase::Recovering, StepEvent::Released(ok)) => if ok {
            Some((EnablePhase::MarkingInstalled, HostStep::SetStatus(ExtensionStatus::Installed)))
        } else {
            Some((EnablePhase::Over(false), HostStep::Finish(false)))
        },
        (EnablePhase::MarkingInstalled, StepEvent::StatusSet) => Some(
            (EnablePhase::MarkingLoading, HostStep::SetStatus(ExtensionStatus::Loading)),
        ),
        (EnablePhase::MarkingLoading, StepEvent::StatusSet) => Some((EnablePhase::Registering, HostStep::Register)),
        (EnablePhase::Registering, StepEvent::Registered(ok)) => if ok {
            Some((EnablePhase::MarkingResult(true), HostStep::SetStatus(status_after_enable(EnableOutcome::Enabled))))
        } else {
            Some((EnablePhase::ReleasingAfterFailure, HostStep::Release))
        },
        (EnablePhase::ReleasingAfterFailure, StepEvent::Released(_)) => Some(
            (EnablePhase::MarkingResult(false), HostStep::SetStatus(status_after_enable(EnableOutcome::Failed))),
        ),
        (EnablePhase::MarkingResult(ok), StepEvent::StatusSet) => Some((EnablePhase::Over(ok), HostStep::Finish(ok))),
        _ => None,
    }
}

/// The steps an enable takes from `phase` on the events `events`, as long
/// as each is expected.
pub open spec fn enable_run(phase: EnablePhase, events: Seq<StepEvent>) -> Seq<HostStep>
    decreases events.len(),
{
    if events.len() == 0 {
        Seq::empty()
    } else {
        match enable_next(phase, events[0]) {
            Some((next, step)) => seq![step] + enable_run(next, events.drop_first()),
            None => Seq::empty(),
        }
    }
}

/// `steps` record the extension as loading at `i`, register at `j`, record
/// it as enabled at `k` and then report success, and release nothing after
/// registering.
pub open spec fn succeeded_through_loading(steps: Seq<HostStep>, i: int, j: int, k: int) -> bool {
    &&& 0 <= i < j < k && k + 1 < steps.len()
    &&& steps[i] == HostStep::SetStatus(ExtensionStatus::Loading)
    &&& steps[j] == HostStep::Register
    &&& steps[k] == HostStep::SetStatus(ExtensionStatus::Enabled)
    &&& steps[k + 1] == HostStep::Finish(true)
    &&& forall|m: int| j < m < steps.len() ==> steps[m] != HostStep::Release
}

/// An enable that reports success has recorded the extension as loading,
/// then registered its contributions, then recorded it as enabled, in that
/// order, and released nothing after registering.
pub proof fn law_enable_succeeds_through_loading(start: EnableStart, has_residual: bool, events: Seq<StepEvent>)
    requires
        ({
            let steps = seq![enable_first(start, has_residual).1] + enable_run(enable_first(start, has_residual).0, events);
            steps.contains(HostStep::Finish(true))
        }),
    ensures
        ({
            let steps = seq![enable_first(start, has_residual).1] + enable_run(enable_first(start, has_residual).0, events);
            exists|i: int, j: int, k: int| #[trigger] succeeded_through_loading(steps, i, j, k)
        }),
{
    let p0 = enable_first(start, has_residual).0;
    let s0 = enable_first(start, has_residual).1;
    let steps = seq![s0] + enable_run(p0, events);
    let run = enable_run(p0, events);
    lemma_enable_success(p0, events);
    let m = choose|m: int| 0 <= m < steps.len() && steps[m] == HostStep::Finish(true);
    assert(m > 0);
    assert(run[m - 1] == HostStep::Finish(true));
    assert(run.contains(HostStep::Finish(true)));
    let (i, j, k) = choose|i: int, j: int, k: int| enable_success_shape(p0, run, i, j, k);
    assert(steps[j + 1] == run[j]);
    assert(steps[k + 1] == run[k]);
    assert(steps[k + 2] == run[k + 1]);
    assert forall|x: int| j + 1 < x < steps.len() implies steps[x] != HostStep::Release by {
        assert(steps[x] == run[x - 1]);
    }
    if p0 == EnablePhase::MarkingLoading {
        assert(succeeded_through_loading(steps, 0, j + 1, k + 1));
    } else {
        assert(steps[i + 1] == run[i]);
        assert(succeeded_through_loading(steps, i + 1, j + 1, k + 1));
    }
}

/// The shape of a successful run from `phase`: the loading record at `i`,
/// the registration at `j`, the enabled record at `k`, then success, and
/// no release after the registration. A negative position stands before
/// the run: the step that led into `phase`, or the one before it.
pub open spec fn enable_success_shape(phase: EnablePhase, run: Seq<HostStep>, i: int, j: int, k: int) -> bool {
    &&& (phase == EnablePhase::Registering ==> i == -2 && j == -1)
    &&& (phase == EnablePhase::MarkingLoading ==> i == -1 && j >= 0)
    &&& (phase != EnablePhase::Registering && phase != EnablePhase::MarkingLoading ==> i >= 0)
    &&& i < j < k && 0 <= k && k + 1 < run.len()
    &&& (i >= 0 ==> run[i] == HostStep::SetStatus(ExtensionStatus::Loading))
    &&& (j >= 0 ==> run[j] == HostStep::Register)
    &&& run[k] == HostStep::SetStatus(ExtensionStatus::Enabled)
    &&& run[k + 1] == HostStep::Finish(true)
    &&& forall|m: int| j < m < run.len() && 0 <= m ==> run[m] != HostStep::Release
}

proof fn lemma_enable_success(phase: EnablePhase, events: Seq<StepEvent>)
    ensures
        enable_run(phase, events).contains(HostStep::Finish(true)) && (phase == EnablePhase::Recovering || phase
            == EnablePhase::MarkingInstalled || phase == EnablePhase::MarkingLoading || phase == EnablePhase::Registering)
            ==> exists|i: int, j: int, k: int| enable_success_shape(phase, enable_run(phase, events), i, j, k),
    decreases events.len(),
{
    let run = enable_run(phase, events);
    if events.len() > 0 && run.contains(HostStep::Finish(true)) && (phase == EnablePhase::Recovering || phase
        == EnablePhase::MarkingInstalled || phase == EnablePhase::MarkingLoading || phase == EnablePhase::Registering) {
        match enable_next(phase, events[0]) {
            Some((next, step)) => {
                let rest = enable_run(next, events.drop_first());
                assert(run == seq![step] + rest);
                lemma_enable_success(next, events.drop_first());
                lemma_no_success_after_failure(next, events.drop_first());
                lemma_marked_success(events.drop_first());
                let m = choose|m: int| 0 <= m < run.len() && run[m] == HostStep::Finish(true);
                assert(m > 0);
                assert(rest[m - 1] == HostStep::Finish(true));
                assert(rest.contains(HostStep::Finish(true)));
                if phase == EnablePhase::Registering {
                    assert(next == EnablePhase::MarkingResult(true));
                    assert(rest[0] == HostStep::Finish(true));
                    assert forall|x: int| -1 < x < run.len() && 0 <= x implies run[x] != HostStep::Release by {
                        if x > 0 {
                            assert(run[x] == rest[x - 1]);
                        }
                    }
                    assert(enable_success_shape(phase, run, -2, -1, 0));
                } else if phase == EnablePhase::MarkingLoading {
                    assert(next == EnablePhase::Registering);
                    let (i, j, k) = choose|i: int, j: int, k: int| enable_success_shape(next, rest, i, j, k);
                    assert forall|x: int| 0 < x < run.len() && 0 <= x implies run[x] != HostStep::Release by {
                        assert(run[x] == rest[x - 1]);
                    }
                    assert(enable_success_shape(phase, run, -1, 0, k + 1));
                } else if phase == EnablePhase::MarkingInstalled {
                    assert(next == EnablePhase::MarkingLoading);
                    let (i, j, k) = choose|i: int, j: int, k: int| enable_success_shape(next, rest, i, j, k);
                    assert forall|x: int| j + 1 < x < run.len() && 0 <= x implies run[x] != HostStep::Release by {
                        assert(run[x] == rest[x - 1]);
                    }
                    assert(enable_success_shape(phase, run, 0, j + 1, k + 1));
                } else {
                    assert(next == EnablePhase::MarkingInstalled);
                    let (i, j, k) = choose|i: int, j: int, k: int| enable_success_shape(next, rest, i, j, k);
                    assert forall|x: int| j + 1 < x < run.len() && 0 <= x implies run[x] != HostStep::Release by {
                        assert(run[x] == rest[x - 1]);
                    }
                    assert(enable_success_shape(phase, run, i + 1, j + 1, k + 1));
                }
            },
            None => {},
        }
    }
}

/// From the enabled record on, a run only finishes successfully.
proof fn lemma_marked_success(events: Seq<StepEvent>)
    ensures
        events.len() == 0 ==> enable_run(EnablePhase::MarkingResult(true), events).len() == 0,
        events.len() > 0 && events[0] == StepEvent::StatusSet ==> enable_run(EnablePhase::MarkingResult(true), events)
            == seq![HostStep::Finish(true)] + enable_run(EnablePhase::Over(true), events.drop_first()),
        events.len() > 0 && events[0] != StepEvent::StatusSet ==> enable_run(EnablePhase::MarkingResult(true), events).len()
            == 0,
        forall|m: int|
            0 <= m < enable_run(EnablePhase::MarkingResult(true), events).len() ==> enable_run(
                EnablePhase::MarkingResult(true),
                events,
            )[m] == HostStep::Finish(true),
{
    if events.len() > 1 {
        assert(enable_run(EnablePhase::Over(true), events.drop_first()).len() == 0);
    }
}

/// After a failed registration or recovery, a run never finishes
/// successfully.
proof fn lemma_no_success_after_failure(phase: EnablePhase, events: Seq<StepEvent>)
    ensures
        phase == EnablePhase::ReleasingAfterFailure || phase == EnablePhase::MarkingResult(false) || phase
            == EnablePhase::Over(false) || phase == EnablePhase::Over(true) ==> !enable_run(phase, events).contains(
            HostStep::Finish(true),
        ),
    decreases events.len(),
{
    if events.len() > 0 {
        lemma_no_success_after_failure(EnablePhase::MarkingResult(false), events.drop_first());
        lemma_no_success_after_failure(EnablePhase::Over(false), events.drop_first());
        let run = enable_run(phase, events);
        if phase == EnablePhase::ReleasingAfterFailure || phase == EnablePhase::MarkingResult(false) {
            match enable_next(phase, events[0]) {
                Some((next, step)) => {
                    let rest = enable_run(next, events.drop_first());
                    if run.contains(HostStep::Finish(true)) {
                        let m = choose|m: int| 0 <= m < run.len() && run[m] == HostStep::Finish(true);
                        if m > 0 {
                            assert(rest[m - 1] == HostStep::Finish(true));
                            assert(rest.contains(HostStep::Finish(true)));
                        }
                    }
                },
                None => {},
            }
        }
    }
}

/// Where a disable stands.
#[derive(Debug, Clone, Copy, PartialEq, Eq)]
pub enum DisablePhase {
    /// Recording that the extension is disabling.
    MarkingDisabling,
    /// Releasing what the extension owns.
    Releasing(DisableMode),
    /// Recording the outcome of the release.
    MarkingResult(bool),
    /// Over, successfully or not.
    Over(bool),
}

/// The first step of a disable: an enabled extension is first recorded as
/// disabling; a failed one's cleanup is retried at once.
pub open spec fn disable_first(mode: DisableMode) -> (DisablePhase, HostStep) {
    match mode {
        DisableMode::Normal => (DisablePhase::MarkingDisabling, HostStep::SetStatus(ExtensionStatus::Disabling)),
        DisableMode::RetryErrorCleanup => (DisablePhase::Releasing(DisableMode::RetryErrorCleanup), HostStep::Release),
    }
}

/// The course of a disable: release, then record disabled (installed, for
/// a retried cleanup) when the release succeeded and failed otherwise, then
/// report the release's outcome.
pub open spec fn disable_next(phase: DisablePhase, event: StepEvent) -> Option<(DisablePhase, HostStep)> {
    match (phase, event) {
        (DisablePhase::MarkingDisabling, StepEvent::StatusSet) => Some(
            (DisablePhase::Releasing(DisableMode::Normal), HostStep::Release),
        ),
        (DisablePhase::Releasing(DisableMode::Normal), StepEvent::Released(ok)) => Some(
            (
                DisablePhase::MarkingResult(ok),
                HostStep::SetStatus(
                    if ok {
                        ExtensionStatus::Disabled
                    } else {
                        ExtensionStatus::Error
                    },
                ),
            ),
        ),
        (DisablePhase::Releasing(DisableMode::RetryErrorCleanup), StepEvent::Released(ok)) => Some(
            (
                DisablePhase::MarkingResult(ok),
                HostStep::SetStatus(
                    if ok {
                        ExtensionStatus::Installed
                    } else {
                        ExtensionStatus::Error
                    },
                ),
            ),
        ),
        (DisablePhase::MarkingResult(ok), StepEvent::StatusSet) => Some((DisablePhase::Over(ok), HostStep::Finish(ok))),
        _ => None,
    }
}

/// Starts a disable `plan_disable` allowed.
pub fn disable_begin(mode: DisableMode) -> (r: (DisablePhase, HostStep))
    ensures
        r == disable_first(mode),
{
    match mode {
        DisableMode::Normal => (DisablePhase::MarkingDisabling, HostStep::SetStatus(ExtensionStatus::Disabling)),
        DisableMode::RetryErrorCleanup => (DisablePhase::Releasing(DisableMode::RetryErrorCleanup), HostStep::Release),
    }
}

/// The next step of a disable, given how the last one came out.
pub fn disable_step(phase: DisablePhase, event: StepEvent) -> (r: Option<(DisablePhase, HostStep)>)
    ensures
        r == disable_next(phase, event),
{
    match (phase, event) {
        (DisablePhase::MarkingDisabling, StepEvent::StatusSet) => Some(
            (DisablePhase::Releasing(DisableMode::Normal), HostStep::Release),
        ),
        (DisablePhase::Releasing(DisableMode::Normal), StepEvent::Released(ok)) => Some(
            (DisablePhase::MarkingResult(ok), HostStep::SetStatus(status_after_disable(ok))),
        ),
        (DisablePhase::Releasing(DisableMode::RetryErrorCleanup), StepEvent::Released(ok)) => Some(
            (DisablePhase::MarkingResult(ok), HostStep::SetStatus(status_after_retry(ok))),
        ),
        (DisablePhase::MarkingResult(ok), StepEvent::StatusSet) => Some((DisablePhase::Over(ok), HostStep::Finish(ok))),
        _ => None,
    }
}

/// The first step of preparing an uninstall.
#[derive(Debug, Clone, Copy, PartialEq, Eq)]
pub enum UninstallStep {
    /// Disable the enabled extension.
    DisableFirst,
    /// Release a failed extension's residual resources.
    RetryCleanup,
    /// Nothing to release.
    Nothing,
}

/// How an uninstall is prepared: the first step, and whether a failed
/// extension is settled as disabled once nothing remains.
#[derive(Debug, Clone, Copy, PartialEq, Eq)]
pub struct UninstallPlan {
    pub step: UninstallStep,
    pub settle_disabled: bool,
}

/// Decides how to prepare the uninstall of an extension in `status` (or
/// unknown). Enabled extensions are disabled first, failed ones have their
/// residual resources released; transitional statuses are refused.
pub fn plan_uninstall(extension_id: &str, status: Option<ExtensionStatus>, has_runtime_handle: bool) -> (r: Result<
    UninstallPlan,
    LifecycleError,
>)
    ensures
        match status {
            None => r matches Err(e) && e.kind == LifecycleErrorKind::NotFound && e.extension_id@ == extension_id@,
            Some(ExtensionStatus::Enabled) => r == Ok::<UninstallPlan, LifecycleError>(
                UninstallPlan { step: UninstallStep::DisableFirst, settle_disabled: false },
            ),
            Some(ExtensionStatus::Error) => r == Ok::<UninstallPlan, LifecycleError>(
                UninstallPlan {
                    step: if has_runtime_handle {
                        UninstallStep::RetryCleanup
                    } else {
                        UninstallStep::Nothing
                    },
                    settle_disabled: true,
                },
            ),
            Some(ExtensionStatus::Installed) | Some(ExtensionStatus::Disabled) => r == Ok::<
                UninstallPlan,
                LifecycleError,
            >(UninstallPlan { step: UninstallStep::Nothing, settle_disabled: false }),
            Some(s) => r matches Err(e) && e.kind == LifecycleErrorKind::CannotUninstall(s) && e.extension_id@
                == extension_id@,
        },
{
    match status {
        None => Err(lifecycle_error(LifecycleErrorKind::NotFound, extension_id)),
        Some(ExtensionStatus::Enabled) => Ok(UninstallPlan { step: UninstallStep::DisableFirst, settle_disabled: false }),
        Some(ExtensionStatus::Error) => Ok(
            UninstallPlan {
                step: if has_runtime_handle {
                    UninstallStep::RetryCleanup
                } else {
                    UninstallStep::Nothing
                },
                settle_disabled: true,
            },
        ),
        Some(ExtensionStatus::Installed) | Some(ExtensionStatus::Disabled) => Ok(
            UninstallPlan { step: UninstallStep::Nothing, settle_disabled: false },
        ),
        Some(s) => Err(lifecycle_error(LifecycleErrorKind::CannotUninstall(s), extension_id)),
    }
}

/// An extension may be uninstalled only when it owns no runtime handle, no
/// event subscription and no UI registration.
pub fn check_nothing_owned(
    extension_id: &str,
    has_runtime_handle: bool,
    has_subscriptions: bool,
    has_ui_registration: bool,
) -> (r: Result<(), LifecycleError>)
    ensures
        (has_runtime_handle || has_subscriptions || has_ui_registration) ==> (r matches Err(e) && e.kind
            == LifecycleErrorKind::StillOwnsResources && e.extension_id@ == extension_id@),
        !(has_runtime_handle || has_subscriptions || has_ui_registration) ==> r is Ok,
{
    if has_runtime_handle || has_subscriptions || has_ui_registration {
        return Err(lifecycle_error(LifecycleErrorKind::StillOwnsResources, extension_id));
    }
    Ok(())
}

/// An enable may start its host work only when no residual resources remain.
pub fn check_no_residual(extension_id: &str, has_runtime_handle: bool) -> (r: Result<(), LifecycleError>)
    ensures
        has_runtime_handle ==> (r matches Err(e) && e.kind == LifecycleErrorKind::ResidualResources
            && e.extension_id@ == extension_id@),
        !has_runtime_handle ==> r is Ok,
{
    if has_runtime_handle {
        return Err(lifecycle_error(LifecycleErrorKind::ResidualResources, extension_id));
    }
    Ok(())
}

/// A fresh registration transaction may start only for an extension that owns
/// no runtime handle and no subscription.
pub fn check_can_begin_registration(extension_id: &str, has_runtime_handle: bool, has_subscriptions: bool) -> (r:
    Result<(), LifecycleError>)
    ensures
        (has_runtime_handle || has_subscriptions) ==> (r matches Err(e) && e.kind
            == LifecycleErrorKind::AlreadyOwnsResources && e.extension_id@ == extension_id@),
        !(has_runtime_handle || has_subscriptions) ==> r is Ok,
{
    if has_runtime_handle || has_subscriptions {
        return Err(lifecycle_error(LifecycleErrorKind::AlreadyOwnsResources, extension_id));
    }
    Ok(())
}

/// Decides whether an extension may be uninstalled by the installer: only
/// an installed or disabled one.
pub fn check_uninstallable(extension_id: &str, status: Option<ExtensionStatus>) -> (r: Result<(), LifecycleError>)
    ensures
        match status {
            None => r matches Err(e) && e.kind == LifecycleErrorKind::NotFound && e.extension_id@ == extension_id@,
            Some(ExtensionStatus::Installed) | Some(ExtensionStatus::Disabled) => r is Ok,
            Some(ExtensionStatus::Enabled) => r matches Err(e) && e.kind == LifecycleErrorKind::UninstallEnabled
                && e.extension_id@ == extension_id@,
            Some(s) => r matches Err(e) && e.kind == LifecycleErrorKind::CannotUninstall(s) && e.extension_id@
                == extension_id@,
        },
{
    match status {
        None => Err(lifecycle_error(LifecycleErrorKind::NotFound, extension_id)),
        Some(ExtensionStatus::Installed) | Some(ExtensionStatus::Disabled) => Ok(()),
        Some(ExtensionStatus::Enabled) => Err(lifecycle_error(LifecycleErrorKind::UninstallEnabled, extension_id)),
        Some(s) => Err(lifecycle_error(LifecycleErrorKind::CannotUninstall(s), extension_id)),
    }
}

/// Decides whether a manifest may be installed: not when an extension of
/// that id is already installed.
pub fn check_installable(extension_id: &str, already_installed: bool) -> (r: Result<(), LifecycleError>)
    ensures
        already_installed ==> (r matches Err(e) && e.kind == LifecycleErrorKind::AlreadyInstalled
            && e.extension_id@ == extension_id@),
        !already_installed ==> r is Ok,
{
    if already_installed {
        return Err(lifecycle_error(LifecycleErrorKind::AlreadyInstalled, extension_id));
    }
    Ok(())
}

/// An update (disable, then enable the new version) is allowed only for an
/// enabled extension.
pub fn plan_update(extension_id: &str, status: Option<ExtensionStatus>) -> (r: Result<(), LifecycleError>)
    ensures
        match status {
            None => r matches Err(e) && e.kind == LifecycleErrorKind::NotFoundForUpdate && e.extension_id@
                == extension_id@,
            Some(ExtensionStatus::Enabled) => r is Ok,
            Some(s) => r matches Err(e) && e.kind == LifecycleErrorKind::UpdateRequiresEnabled(s)
                && e.extension_id@ == extension_id@,
        },
{
    match status {
        None => Err(lifecycle_error(LifecycleErrorKind::NotFoundForUpdate, extension_id)),
        Some(ExtensionStatus::Enabled) => Ok(()),
        Some(s) => Err(lifecycle_error(LifecycleErrorKind::UpdateRequiresEnabled(s), extension_id)),
    }
}

} // verus!

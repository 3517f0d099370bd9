//! Extension manifest model and the small domain types around it.
//!
//! The manifest types hold, as plain values, what the validation and
//! registration rules read. Free-form JSON payloads (view config, script
//! arguments, message payloads) are not part of this model.

use vstd::prelude::*;
use vstd::string::*;

use crate::text::owned;

verus! {

// ============================================================================
// Manifest
// ============================================================================

/// Extension manifest (`extension.json`).
#[derive(Debug, Clone, PartialEq)]
pub struct ExtensionManifest {
    pub id: String,
    pub name: String,
    pub version: String,
    pub description: String,
    pub author: String,
    pub permissions: ExtensionPermissions,
    pub contributes: ExtensionContributes,
}

/// Permission declaration.
#[derive(Debug, Clone, PartialEq)]
pub struct ExtensionPermissions {
    pub filesystem: Vec<String>,
    pub terminal: Vec<String>,
    pub network: Vec<String>,
    pub ipc: Vec<String>,
    pub events: Vec<String>,
    pub resources: ResourceLimits,
}

/// Resource quota. The CPU share is a floating-point quantity and is checked
/// by the caller; see `ExtensionLoader::validate`.
#[derive(Debug, Clone, Copy, PartialEq, Eq)]
pub struct ResourceLimits {
    pub max_memory_mb: u64,
    pub timeout_ms: u64,
}

/// Contribution points declared by an extension.
#[derive(Debug, Clone, PartialEq)]
pub struct ExtensionContributes {
    pub skills: Option<Vec<SkillDefinition>>,
    pub roles: Option<Vec<RoleDefinition>>,
    pub views: Option<Vec<ViewRegistration>>,
    pub menus: Option<Vec<MenuRegistration>>,
    pub commands: Option<Vec<CommandRegistration>>,
    pub keybindings: Option<Vec<KeybindingRegistration>>,
    pub work_modes: Option<Vec<WorkModeRegistration>>,
    pub toolbar_items: Option<Vec<ToolbarItemRegistration>>,
    pub statusbar_items: Option<Vec<StatusBarItemRegistration>>,
    pub tray_items: Option<Vec<TrayItemRegistration>>,
    pub triggers: Option<Vec<TriggerRegistration>>,
    pub hooks: Option<Vec<HookRegistration>>,
    pub context_providers: Option<Vec<ContextProviderRegistration>>,
    pub event_subscriptions: Option<Vec<EventSubscriptionRegistration>>,
    pub capabilities: Option<CapabilityDeclaration>,
    pub extension_exports: Option<ExtensionExports>,
    pub scripts: Option<Vec<ScriptRegistration>>,
    pub zones: Option<Vec<ZoneRegistration>>,
    pub backend_services: Option<Vec<BackendServiceRegistration>>,
    pub components: Option<Vec<ComponentRegistration>>,
    pub inline_extensions: Option<Vec<InlineExtensionRegistration>>,
    /// The configuration JSON schema, as JSON text.
    pub configuration: Option<String>,
    pub gateway: Option<GatewayContributions>,
    pub languages: Option<Vec<LanguageRegistration>>,
    pub mcp_tool_overrides: Option<Vec<McpToolOverride>>,
    pub mcp_servers: Option<Vec<MCPServerConfig>>,
    pub tools: Option<Vec<ToolRegistration>>,
    pub middlewares: Option<Vec<MiddlewareRegistration>>,
    pub transport_adapters: Option<Vec<TransportAdapterRegistration>>,
    pub themes: Option<Vec<ThemeRegistration>>,
    pub editor_languages: Option<Vec<EditorLanguageRegistration>>,
    pub editor_extensions: Option<Vec<EditorExtensionRegistration>>,
    pub notification_channels: Option<Vec<NotificationChannelRegistration>>,
    pub styles: Option<Vec<StyleRegistration>>,
    pub layout_overrides: Option<Vec<LayoutOverrideRegistration>>,
    pub behaviors: Option<Vec<BehaviorRegistration>>,
    pub search_providers: Option<Vec<SearchProviderRegistration>>,
    pub file_watchers: Option<Vec<FileWatcherRegistration>>,
    pub storage: Option<StorageDeclaration>,
    pub network: Option<NetworkPolicy>,
    pub i18n: Option<Vec<I18nResource>>,
    pub provides: Option<Vec<String>>,
}

impl ExtensionContributes {
    /// Contributions with nothing declared.
    pub fn empty() -> (r: Self)
        ensures
            r.skills is None && r.roles is None && r.views is None && r.menus is None
                && r.commands is None && r.keybindings is None && r.work_modes is None
                && r.toolbar_items is None && r.statusbar_items is None && r.tray_items is None
                && r.triggers is None && r.hooks is None && r.context_providers is None
                && r.event_subscriptions is None && r.capabilities is None
                && r.extension_exports is None && r.scripts is None && r.zones is None
                && r.backend_services is None && r.components is None
                && r.inline_extensions is None && r.configuration is None && r.gateway is None
                && r.languages is None && r.mcp_tool_overrides is None && r.mcp_servers is None
                && r.tools is None && r.middlewares is None && r.transport_adapters is None
                && r.themes is None && r.editor_languages is None && r.editor_extensions is None
                && r.notification_channels is None && r.styles is None
                && r.layout_overrides is None && r.behaviors is None
                && r.search_providers is None && r.file_watchers is None && r.storage is None
                && r.network is None && r.i18n is None && r.provides is None,
    {
        ExtensionContributes {
            skills: None,
            roles: None,
            views: None,
            menus: None,
            commands: None,
            keybindings: None,
            work_modes: None,
            toolbar_items: None,
            statusbar_items: None,
            tray_items: None,
            triggers: None,
            hooks: None,
            context_providers: None,
            event_subscriptions: None,
            capabilities: None,
            extension_exports: None,
            scripts: None,
            zones: None,
            backend_services: None,
            components: None,
            inline_extensions: None,
            configuration: None,
            gateway: None,
            languages: None,
            mcp_tool_overrides: None,
            mcp_servers: None,
            tools: None,
            middlewares: None,
            transport_adapters: None,
            themes: None,
            editor_languages: None,
            editor_extensions: None,
            notification_channels: None,
            styles: None,
            layout_overrides: None,
            behaviors: None,
            search_providers: None,
            file_watchers: None,
            storage: None,
            network: None,
            i18n: None,
            provides: None,
        }
    }
}

// ============================================================================
// Skills / roles / context providers
// ============================================================================

#[derive(Debug, Clone, PartialEq)]
pub struct SkillDefinition {
    pub id: String,
    pub name: String,
    pub description: Option<String>,
    /// The rest of the declaration, as a JSON object in text.
    pub config: String,
}

#[derive(Debug, Clone, PartialEq)]
pub struct RoleDefinition {
    pub id: String,
    pub name: String,
    pub description: Option<String>,
    /// The rest of the declaration, as a JSON object in text.
    pub config: String,
}

#[derive(Debug, Clone, PartialEq)]
pub struct ContextProviderRegistration {
    pub id: String,
    pub name: String,
    pub description: String,
    pub module: String,
    pub trigger_pattern: Option<String>,
    pub inject_position: Option<InjectPosition>,
    pub priority: Option<u32>,
    pub max_tokens: Option<usize>,
}

#[derive(Debug, Clone, Copy, PartialEq, Eq)]
pub enum InjectPosition {
    BeforeHistory,
    AfterHistory,
    AfterUserMessage,
}

#[derive(Debug, Clone, PartialEq)]
pub struct SearchProviderRegistration {
    pub id: String,
    pub name: String,
    pub icon: Option<String>,
    pub module: String,
    pub scope_tags: Vec<String>,
    pub priority: Option<u32>,
}

#[derive(Debug, Clone, PartialEq)]
pub struct FileWatcherRegistration {
    pub id: String,
    pub name: String,
    pub patterns: Vec<String>,
    pub events: Vec<FileWatchEvent>,
    pub module: String,
    pub debounce_ms: Option<u64>,
}

#[derive(Debug, Clone, Copy, PartialEq, Eq)]
pub enum FileWatchEvent {
    Created,
    Modified,
    Deleted,
    Renamed,
}

// ============================================================================
// Event subscriptions
// ============================================================================

/// Declared EventBus subscription (a manifest DTO, not a handler).
#[derive(Debug, Clone, PartialEq)]
pub struct EventSubscriptionRegistration {
    pub id: String,
    pub topic: String,
    pub scope_key: Option<String>,
    pub handler: EventHandlerReference,
}

/// Reference to the runtime handler entry of a subscription.
#[derive(Debug, Clone, PartialEq)]
pub struct EventHandlerReference {
    pub module: String,
    pub export: String,
}

// ============================================================================
// MCP tool overrides
// ============================================================================

/// An MCP server an extension declares: its name and its configuration, as
/// a JSON object in text.
#[derive(Debug, Clone, PartialEq)]
pub struct MCPServerConfig {
    pub name: String,
    pub config: String,
}

/// A tool an extension declares; its input schema is JSON text.
#[derive(Debug, Clone, PartialEq)]
pub struct ToolRegistration {
    pub name: String,
    pub description: String,
    pub input_schema: String,
    pub user_visible: bool,
    pub use_builtin_risk: bool,
    pub declared_risk: Option<String>,
}

/// A notification channel an extension declares; its configuration schema
/// is JSON text.
#[derive(Debug, Clone, PartialEq)]
pub struct NotificationChannelRegistration {
    pub id: String,
    pub name: String,
    pub description: String,
    pub config_schema: String,
    pub module: String,
}

/// A UI behavior an extension declares, by id and target. Its trigger and
/// action are not read by the runtime, which refuses behaviors outright.
#[derive(Debug, Clone, PartialEq)]
pub struct BehaviorRegistration {
    pub id: String,
    pub target: Option<String>,
}

#[derive(Debug, Clone, PartialEq)]
pub struct McpToolOverride {
    pub server: String,
    pub tool: String,
    pub model_name: Option<String>,
    pub user_visible: Option<bool>,
    pub display_name: Option<String>,
    pub description: Option<String>,
    pub renderer: Option<String>,
    pub detail_view: Option<String>,
    pub declared_risk: Option<String>,
}

// ============================================================================
// Work modes
// ============================================================================

#[derive(Debug, Clone, PartialEq)]
pub struct WorkModeRegistration {
    pub id: String,
    pub name: Option<String>,
    pub description: Option<String>,
    pub icon: Option<String>,
    pub role: Option<String>,
    pub available_tools: Option<Vec<String>>,
    pub skills: Option<Vec<String>>,
    pub commands: Option<Vec<String>>,
    pub context_policy: Option<String>,
    pub behavior_rules: Option<Vec<String>>,
    pub entry_view: Option<String>,
    pub default_views: Option<Vec<String>>,
    pub default_model: Option<String>,
    pub capabilities: Vec<String>,
}

// ============================================================================
// Capabilities, exports, scripts, zones
// ============================================================================

/// Whitelist of bridge capabilities an extension UI may use.
#[derive(Debug, Clone, PartialEq)]
pub struct CapabilityDeclaration {
    pub invoke: Vec<String>,
    pub events: Vec<String>,
    pub read: Vec<String>,
    pub extension_calls: Vec<ExtensionCall>,
    pub provides: Vec<String>,
    pub network: Option<NetworkPolicy>,
}

#[derive(Debug, Clone, PartialEq)]
pub struct StorageDeclaration {
    pub scopes: Vec<StorageScope>,
}

#[derive(Debug, Clone, Copy, PartialEq, Eq)]
pub enum StorageScope {
    Global,
    Worktree,
    Ephemeral,
}

#[derive(Debug, Clone, PartialEq)]
pub enum NetworkPolicy {
    /// No network access (`mode: none`).
    Blocked,
    Allowlist { hosts: Vec<NetworkHost> },
    Proxy,
}

#[derive(Debug, Clone, PartialEq)]
pub struct NetworkHost {
    pub host: String,
    pub allow_subdomains: bool,
    pub protocols: Vec<String>,
}

#[derive(Debug, Clone, PartialEq)]
pub struct I18nResource {
    pub lang: String,
    pub entry: String,
}

/// One cross-extension call whitelist entry.
#[derive(Debug, Clone, PartialEq)]
pub struct ExtensionCall {
    pub target: String,
    pub actions: Vec<String>,
}

/// Views and commands other extensions may call.
#[derive(Debug, Clone, PartialEq)]
pub struct ExtensionExports {
    pub views: Vec<String>,
    pub commands: Vec<String>,
}

#[derive(Debug, Clone, PartialEq)]
pub struct ScriptRegistration {
    pub id: String,
    pub entry: String,
    pub run_on: Option<Vec<String>>,
}

#[derive(Debug, Clone, PartialEq)]
pub struct ZoneRegistration {
    pub id: String,
    pub name: String,
    pub anchor: ZoneAnchor,
}

#[derive(Debug, Clone, PartialEq)]
pub struct ZoneAnchor {
    pub parent: String,
    pub position: Option<String>,
    pub size: Option<SizeValue>,
}

// ============================================================================
// Backend services and components
// ============================================================================

#[derive(Debug, Clone, PartialEq)]
pub struct BackendServiceRegistration {
    pub id: String,
    pub entry: String,
    pub transport: BackendTransport,
    pub protocol: BackendProtocol,
    pub args: Vec<String>,
    /// Environment variables, name and value.
    pub env: Vec<(String, String)>,
    pub autostart: bool,
}

#[derive(Debug, Clone, Copy, PartialEq, Eq)]
pub enum BackendTransport {
    Stdio,
    Sse,
    WebSocket,
}

#[derive(Debug, Clone, Copy, PartialEq, Eq)]
pub enum BackendProtocol {
    JsonRpc,
}

#[derive(Debug, Clone, PartialEq)]
pub struct ComponentRegistration {
    pub id: String,
    pub entry: String,
    pub kind: ComponentKind,
    pub run_on: Vec<String>,
    pub autostart: bool,
    pub capabilities: ComponentCapabilities,
}

/// What a component may call on its host; anything not listed fails.
#[derive(Debug, Clone, PartialEq)]
pub struct ComponentCapabilities {
    pub invoke: Vec<String>,
    pub storage: Vec<String>,
    /// The network capability, as JSON text; none means no network.
    pub network: Option<String>,
    pub events: Vec<String>,
}

#[derive(Debug, Clone, Copy, PartialEq, Eq)]
pub enum ComponentKind {
    Logic,
    Native,
}

// ============================================================================
// Views, menus, commands, keybindings
// ============================================================================

#[derive(Debug, Clone, PartialEq)]
pub struct ViewRegistration {
    pub id: String,
    pub name: String,
    pub icon: Option<String>,
    pub entry: Option<String>,
    pub zone: Option<String>,
    pub placement: Option<String>,
    pub renderer: String,
    pub activation_events: Vec<String>,
    pub allow_close: Option<bool>,
    pub default_visible: Option<bool>,
    /// View configuration, as JSON text.
    pub config: Option<String>,
}

#[derive(Debug, Clone, Copy, PartialEq, Eq)]
pub enum UISandboxMode {
    ShadowDom,
    Iframe,
    /// No sandbox (`None` in the manifest).
    Unsandboxed,
}

#[derive(Debug, Clone, PartialEq)]
pub struct MenuRegistration {
    pub id: String,
    pub label: String,
    pub target: String,
    pub command: String,
    pub group: Option<String>,
    pub when: Option<String>,
    pub icon: Option<String>,
    pub shortcut: Option<String>,
    pub risk: Option<MenuRisk>,
}

#[derive(Debug, Clone, Copy, PartialEq, Eq)]
pub enum MenuRisk {
    Low,
    Medium,
    High,
}

#[derive(Debug, Clone, PartialEq)]
pub struct CommandRegistration {
    pub id: String,
    pub label: String,
    pub description: Option<String>,
    pub icon: Option<String>,
    pub category: Option<String>,
    pub when: Option<String>,
    pub action: BuiltinAction,
}

/// Declarative command action.
#[derive(Debug, Clone, PartialEq)]
pub enum BuiltinAction {
    OpenView { view_id: String },
    ToggleView { view_id: String },
    OpenDialog {
        view_id: String,
        size: Option<String>,
        position: Option<String>,
        modal: Option<bool>,
    },
    /// Runs a script; `args` is JSON text.
    RunScript { script_id: String, args: Option<String> },
    /// Sends a message; `payload` is JSON text.
    SendMessage { target: String, payload: String },
}

#[derive(Debug, Clone, PartialEq)]
pub struct KeybindingRegistration {
    pub command: String,
    pub key: String,
    pub when: Option<String>,
    pub scope: KeybindingScope,
}

#[derive(Debug, Clone, Copy, PartialEq, Eq)]
pub enum KeybindingScope {
    App,
}

// ============================================================================
// Toolbar / status bar / tray / inline
// ============================================================================

#[derive(Debug, Clone, PartialEq)]
pub struct ToolbarItemRegistration {
    pub id: String,
    pub label: String,
    pub icon: String,
    pub command: String,
    pub position: ToolbarPosition,
    pub group: Option<String>,
    pub when: Option<String>,
}

#[derive(Debug, Clone, Copy, PartialEq, Eq)]
pub enum ToolbarPosition {
    Main,
    Editor,
    Terminal,
}

#[derive(Debug, Clone, PartialEq)]
pub struct StatusBarItemRegistration {
    pub id: String,
    pub label: String,
    pub icon: Option<String>,
    pub position: StatusBarPosition,
    pub command: Option<String>,
    pub priority: Option<u32>,
    pub when: Option<String>,
}

#[derive(Debug, Clone, Copy, PartialEq, Eq)]
pub enum StatusBarPosition {
    Left,
    Right,
}

#[derive(Debug, Clone, PartialEq)]
pub struct TrayItemRegistration {
    pub id: String,
    pub label: String,
    pub icon: Option<String>,
    pub command: String,
    pub position: TrayPosition,
    pub when: Option<String>,
}

#[derive(Debug, Clone, Copy, PartialEq, Eq)]
pub enum TrayPosition {
    Top,
    Middle,
    Bottom,
}

#[derive(Debug, Clone, PartialEq)]
pub struct InlineExtensionRegistration {
    pub id: String,
    pub name: String,
    pub target: InlineTarget,
    pub position: InlinePosition,
    pub component: String,
    pub max_items: Option<u32>,
    pub priority: Option<u32>,
    pub visible: Option<bool>,
    pub when: Option<String>,
    pub sandbox: UISandboxMode,
}

#[derive(Debug, Clone, Copy, PartialEq, Eq)]
pub enum InlineTarget {
    Chat,
    Editor,
    Terminal,
}

#[derive(Debug, Clone, Copy, PartialEq, Eq)]
pub enum InlinePosition {
    BeforeInput,
    AfterMessages,
    Sidebar,
    Top,
    Bottom,
}

// ============================================================================
// Gateway
// ============================================================================

/// Gateway contributions: adapters describe protocol conversion, providers
/// describe running instances.
#[derive(Debug, Clone, PartialEq)]
pub struct GatewayContributions {
    pub adapters: Vec<GatewayAdapterRegistration>,
    pub providers: Vec<GatewayProviderRegistration>,
}

/// A Gateway protocol adapter. `config` is the adapter's declarative
/// configuration as JSON text.
#[derive(Debug, Clone, PartialEq)]
pub struct GatewayAdapterRegistration {
    pub id: String,
    pub name: String,
    pub protocol_id: String,
    pub kind: String,
    pub config: String,
}

#[derive(Debug, Clone, PartialEq)]
pub struct GatewayProviderRegistration {
    pub id: String,
    pub name: String,
    pub adapter_id: String,
    pub base_url: String,
    pub auth: GatewayAuthRegistration,
    pub capabilities: ProviderCapabilities,
    pub validation: GatewayProviderValidationRegistration,
    pub models: Vec<GatewayModelRegistration>,
    pub default_model: String,
}

#[derive(Debug, Clone, PartialEq)]
pub struct GatewayProviderValidationRegistration {
    pub endpoint: String,
    pub valid_status_codes: Vec<u16>,
    pub invalid_status_codes: Vec<u16>,
    pub timeout_ms: u64,
}

#[derive(Debug, Clone, PartialEq)]
pub struct GatewayAuthRegistration {
    pub scheme: String,
    pub secret_ref: Option<String>,
    pub header: String,
}

#[derive(Debug, Clone, PartialEq)]
pub struct GatewayModelRegistration {
    pub id: String,
    pub name: String,
    pub capabilities: ProviderCapabilities,
    pub context_window: u32,
    pub max_output_tokens: u32,
}

#[derive(Debug, Clone, Copy, PartialEq, Eq)]
pub struct ProviderCapabilities {
    pub supports_tools: bool,
    pub supports_streaming: bool,
    pub supports_multimodal: bool,
    pub supports_reasoning_effort: bool,
    pub supports_structured_output: bool,
    pub supports_usage: bool,
}

#[derive(Debug, Clone, PartialEq)]
pub struct MiddlewareRegistration {
    pub id: String,
    pub name: String,
    pub phase: MiddlewarePhase,
    pub module: String,
}

#[derive(Debug, Clone, Copy, PartialEq, Eq)]
pub enum MiddlewarePhase {
    PreRequest,
    PostResponse,
    Error,
}

#[derive(Debug, Clone, PartialEq)]
pub struct TransportAdapterRegistration {
    pub id: String,
    pub name: String,
    pub transport_type: String,
    pub module: String,
}

// ============================================================================
// LSP languages
// ============================================================================

/// An LSP language declaration. `initialization_options` is JSON text.
#[derive(Debug, Clone, PartialEq)]
pub struct LanguageRegistration {
    pub language_id: String,
    pub display_name: String,
    pub extensions: Vec<String>,
    pub server_command: String,
    pub server_args: Option<Vec<String>>,
    pub initialization_options: Option<String>,
}

/// How an LSP server for one language is started.
#[derive(Debug, Clone, PartialEq)]
pub struct LSPServerConfig {
    pub language_id: String,
    pub language_names: Vec<String>,
    pub file_extensions: Vec<String>,
    pub server_command: String,
    pub server_args: Vec<String>,
    pub initialization_options: Option<String>,
    pub capabilities_required: Vec<String>,
}

// ============================================================================
// Editor themes / languages / extensions
// ============================================================================

#[derive(Debug, Clone, PartialEq)]
pub struct ThemeRegistration {
    pub id: String,
    pub name: String,
    pub theme_type: ThemeType,
    pub module: String,
}

#[derive(Debug, Clone, Copy, PartialEq, Eq)]
pub enum ThemeType {
    Light,
    Dark,
    HighContrast,
}

#[derive(Debug, Clone, PartialEq)]
pub struct EditorLanguageRegistration {
    pub id: String,
    pub name: String,
    pub extensions: Vec<String>,
    pub module: String,
}

#[derive(Debug, Clone, PartialEq)]
pub struct EditorExtensionRegistration {
    pub id: String,
    pub name: String,
    pub description: String,
    pub module: String,
    pub activation_events: Vec<String>,
}

// ============================================================================
// Triggers / styles / layout / hooks
// ============================================================================

#[derive(Debug, Clone, PartialEq)]
pub struct TriggerRegistration {
    pub prefix: String,
    pub label: String,
    pub description: String,
    pub icon: Option<String>,
    pub placeholder: Option<String>,
    pub search_module: String,
    pub select_module: String,
    pub scope: TriggerScope,
}

#[derive(Debug, Clone, Copy, PartialEq, Eq)]
pub enum TriggerScope {
    Input,
    Global,
}

#[derive(Debug, Clone, PartialEq)]
pub struct StyleRegistration {
    pub id: String,
    pub module: String,
    pub scope: StyleScope,
    /// Style variables, name and value.
    pub variables: Option<Vec<(String, String)>>,
}

#[derive(Debug, Clone, Copy, PartialEq, Eq)]
pub enum StyleScope {
    Extension,
    View,
    Global,
}

#[derive(Debug, Clone, PartialEq)]
pub struct LayoutOverrideRegistration {
    pub target: String,
    pub position: Option<PositionValue>,
    pub offset: Option<OffsetValue>,
    pub size: Option<SizeValue>,
    pub z_index: Option<i32>,
    pub transition: Option<String>,
}

#[derive(Debug, Clone, PartialEq)]
pub struct PositionValue {
    pub type_: String,
    pub top: Option<String>,
    pub right: Option<String>,
    pub bottom: Option<String>,
    pub left: Option<String>,
}

#[derive(Debug, Clone, PartialEq)]
pub struct OffsetValue {
    pub x: Option<String>,
    pub y: Option<String>,
}

#[derive(Debug, Clone, PartialEq)]
pub struct SizeValue {
    pub width: Option<String>,
    pub height: Option<String>,
    pub min_width: Option<String>,
    pub max_width: Option<String>,
    pub min_height: Option<String>,
    pub max_height: Option<String>,
}

#[derive(Debug, Clone, PartialEq)]
pub struct HookRegistration {
    pub id: String,
    pub name: String,
    pub phase: HookPhase,
    pub priority: Option<u32>,
    pub module: String,
    pub when: Option<String>,
    pub action: HookAction,
}

#[derive(Debug, Clone, Copy, PartialEq, Eq)]
pub enum HookPhase {
    SessionStart,
    PreToolUse,
    PostToolUse,
    PreCompact,
}

#[derive(Debug, Clone, PartialEq, Eq)]
pub enum HookAction {
    Continue,
    Deny { reason: String },
}

// ============================================================================
// Language source
// ============================================================================

/// Origin of a registered language.
#[derive(Debug, Clone, PartialEq, Eq)]
pub enum LanguageSource {
    Builtin,
    Extension { owner: String },
}

impl LanguageSource {
    pub fn is_builtin(&self) -> (r: bool)
        ensures
            r == (*self is Builtin),
    {
        match self {
            LanguageSource::Builtin => true,
            LanguageSource::Extension { .. } => false,
        }
    }

    /// The owning extension; `None` for builtin languages.
    pub fn owner(&self) -> (r: Option<&str>)
        ensures
            match *self {
                LanguageSource::Builtin => r is None,
                LanguageSource::Extension { owner } => r matches Some(o) && o@ == owner@,
            },
    {
        match self {
            LanguageSource::Builtin => None,
            LanguageSource::Extension { owner } => Some(owner.as_str()),
        }
    }

    /// Diagnostic label: `builtin` or `extension`.
    pub fn label(&self) -> (r: &'static str)
        ensures
            r@ == (if *self is Builtin {
                "builtin"@
            } else {
                "extension"@
            }),
    {
        if self.is_builtin() {
            "builtin"
        } else {
            "extension"
        }
    }
}

// ============================================================================
// Extension status
// ============================================================================

/// How a status is shown: in progress, succeeded, at rest, or failed.
#[derive(Debug, Clone, Copy, PartialEq, Eq)]
pub enum StatusPresentation {
    Active,
    Succeeded,
    Inactive,
    Failed,
}

/// Lifecycle status of an installed extension.
#[derive(Debug, Clone, Copy, PartialEq, Eq)]
pub enum ExtensionStatus {
    Installed,
    Loading,
    Enabled,
    Disabling,
    Disabled,
    Unloading,
    Error,
}

pub open spec fn status_text(status: ExtensionStatus) -> Seq<char> {
    match status {
        ExtensionStatus::Installed => "installed"@,
        ExtensionStatus::Loading => "loading"@,
        ExtensionStatus::Enabled => "enabled"@,
        ExtensionStatus::Disabling => "disabling"@,
        ExtensionStatus::Disabled => "disabled"@,
        ExtensionStatus::Unloading => "unloading"@,
        ExtensionStatus::Error => "error"@,
    }
}

impl ExtensionStatus {
    /// The lowercase display name of the status.
    pub fn as_str(&self) -> (r: &'static str)
        ensures
            r@ == status_text(*self),
    {
        match self {
            ExtensionStatus::Installed => "installed",
            ExtensionStatus::Loading => "loading",
            ExtensionStatus::Enabled => "enabled",
            ExtensionStatus::Disabling => "disabling",
            ExtensionStatus::Disabled => "disabled",
            ExtensionStatus::Unloading => "unloading",
            ExtensionStatus::Error => "error",
        }
    }

    /// Transitions show as in progress, `enabled` as succeeded, `installed`
    /// and `disabled` as at rest, `error` as failed.
    pub fn status_presentation(&self) -> (r: StatusPresentation)
        ensures
            r == match *self {
                ExtensionStatus::Loading | ExtensionStatus::Disabling | ExtensionStatus::Unloading => StatusPresentation::Active,
                ExtensionStatus::Enabled => StatusPresentation::Succeeded,
                ExtensionStatus::Installed | ExtensionStatus::Disabled => StatusPresentation::Inactive,
                ExtensionStatus::Error => StatusPresentation::Failed,
            },
    {
        match self {
            ExtensionStatus::Loading | ExtensionStatus::Disabling | ExtensionStatus::Unloading => StatusPresentation::Active,
            ExtensionStatus::Enabled => StatusPresentation::Succeeded,
            ExtensionStatus::Installed | ExtensionStatus::Disabled => StatusPresentation::Inactive,
            ExtensionStatus::Error => StatusPresentation::Failed,
        }
    }

    /// The lowercase display name of the status, owned.
    pub fn to_string(&self) -> (r: String)
        ensures
            r@ == status_text(*self),
    {
        owned(self.as_str())
    }
}

/// Kernel lifecycle transition driven by an extension status.
#[derive(Debug, Clone, Copy, PartialEq, Eq)]
pub enum LifecycleAction {
    Enable,
    Disable,
}

/// The kernel lifecycle action a status change requires, if any.
pub fn status_to_kernel_lifecycle(status: &ExtensionStatus) -> (r: Option<LifecycleAction>)
    ensures
        r == (match *status {
            ExtensionStatus::Enabled => Some(LifecycleAction::Enable),
            ExtensionStatus::Disabled => Some(LifecycleAction::Disable),
            _ => None,
        }),
{
    match status {
        ExtensionStatus::Enabled => Some(LifecycleAction::Enable),
        ExtensionStatus::Disabled => Some(LifecycleAction::Disable),
        _ => None,
    }
}

// ============================================================================
// Defaults
// ============================================================================

impl Default for ResourceLimits {
    /// 512 MB of memory and a 30 s timeout (the CPU share defaults to 50 %,
    /// held by the caller).
    fn default() -> (r: Self)
        ensures
            r.max_memory_mb == 512,
            r.timeout_ms == 30_000,
    {
        ResourceLimits { max_memory_mb: 512, timeout_ms: 30_000 }
    }
}

impl Default for ExtensionPermissions {
    /// No permission of any kind, default resource limits.
    fn default() -> (r: Self)
        ensures
            r.filesystem@.len() == 0,
            r.terminal@.len() == 0,
            r.network@.len() == 0,
            r.ipc@.len() == 0,
            r.events@.len() == 0,
            r.resources.max_memory_mb == 512,
            r.resources.timeout_ms == 30_000,
    {
        ExtensionPermissions {
            filesystem: Vec::new(),
            terminal: Vec::new(),
            network: Vec::new(),
            ipc: Vec::new(),
            events: Vec::new(),
            resources: ResourceLimits::default(),
        }
    }
}

impl Default for NetworkPolicy {
    /// No network access.
    fn default() -> (r: Self)
        ensures
            r == NetworkPolicy::Blocked,
    {
        NetworkPolicy::Blocked
    }
}

impl Default for UISandboxMode {
    /// Shadow DOM isolation.
    fn default() -> (r: Self)
        ensures
            r == UISandboxMode::ShadowDom,
    {
        UISandboxMode::ShadowDom
    }
}

impl Default for HookAction {
    /// Let the tool call go ahead.
    fn default() -> (r: Self)
        ensures
            r == HookAction::Continue,
    {
        HookAction::Continue
    }
}

/// The value an omitted boolean flag such as `userVisible` takes.
pub fn default_true() -> (r: bool)
    ensures
        r,
{
    true
}

} // verus!

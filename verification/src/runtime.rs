//! What an enabled extension owns at runtime, and how it is registered with
//! and released from the host subsystems.
//!
//! An `ExtensionRuntimeHandle` records only the identifiers a host accepted.
//! Release consumes those facts in reverse order; a fact leaves the handle
//! only when its host released it, and every fact that stays is reported.

use vstd::prelude::*;

use crate::models::{
    InlineExtensionRegistration, ScriptRegistration, StatusBarItemRegistration,
    ToolbarItemRegistration, ViewRegistration, WorkModeRegistration, ZoneRegistration,
};
use crate::gateway::{
    override_server_id, parse_tool_risk, risk_from, ApiProtocol, CapabilitySet, GatewayAdapterPlan,
    GatewayError, GatewayErrorKind, GatewayPlan, GatewayProviderPlan, ProtocolView, ProviderConfig,
    ToolRiskLevel,
};
use crate::contributions::{
    registration_ids, registrations_without, ui_fault, ContributionError, ContributionErrorKind,
    UiContributionRegistrar, UiContributionRegistration,
};
use crate::duplicate::Duplicate;
use crate::models::{
    LSPServerConfig, LanguageRegistration, LanguageSource, MCPServerConfig, McpToolOverride, SkillDefinition,
    ToolRegistration,
};
use crate::event::{
    ext_owns_handle, has_owner, lemma_owned_record, lemma_without_owns, owned_by, record_views,
    ExtensionSubscriptionLedger, LedgerView,
};
use crate::seqs::{clone_opt, push_view, views};
use crate::subscriptions::EventSubscriptionPort;
use crate::apply::{BackendServicePort, ComponentHostPort};
use crate::text::{concat3, concat4, concat6, owned, str_eq};

verus! {

/// How many contributions of each kind are live.
#[derive(Debug, Clone, Copy, PartialEq, Eq)]
pub struct ExtensionContributionCounts {
    pub work_modes: usize,
    pub views: usize,
    pub menus: usize,
    pub commands: usize,
    pub keybindings: usize,
    pub triggers: usize,
    pub mcp_servers: usize,
    pub providers: usize,
    pub zones: usize,
    pub scripts: usize,
    pub toolbar_items: usize,
    pub statusbar_items: usize,
    pub inline_extensions: usize,
    pub configuration: usize,
}

impl ExtensionContributionCounts {
    pub open spec fn is_zero(self) -> bool {
        &&& self.work_modes == 0
        &&& self.views == 0
        &&& self.menus == 0
        &&& self.commands == 0
        &&& self.keybindings == 0
        &&& self.triggers == 0
        &&& self.mcp_servers == 0
        &&& self.providers == 0
        &&& self.zones == 0
        &&& self.scripts == 0
        &&& self.toolbar_items == 0
        &&& self.statusbar_items == 0
        &&& self.inline_extensions == 0
        &&& self.configuration == 0
    }

    /// The counts with every UI-registered kind set to zero; providers and
    /// MCP servers are counted from the handle, not from the UI registrar.
    pub open spec fn without_ui(self) -> Self {
        ExtensionContributionCounts {
            work_modes: 0,
            views: 0,
            menus: 0,
            commands: 0,
            keybindings: 0,
            triggers: 0,
            zones: 0,
            scripts: 0,
            toolbar_items: 0,
            statusbar_items: 0,
            inline_extensions: 0,
            configuration: 0,
            ..self
        }
    }
}

impl Default for ExtensionContributionCounts {
    fn default() -> (r: Self)
        ensures
            r.is_zero(),
    {
        ExtensionContributionCounts {
            work_modes: 0,
            views: 0,
            menus: 0,
            commands: 0,
            keybindings: 0,
            triggers: 0,
            mcp_servers: 0,
            providers: 0,
            zones: 0,
            scripts: 0,
            toolbar_items: 0,
            statusbar_items: 0,
            inline_extensions: 0,
            configuration: 0,
        }
    }
}

/// The read-only picture of what an extension actually registered, as the
/// UI shows it.
#[derive(Debug, Clone)]
pub struct ExtensionRuntimeProjection {
    pub contribution_counts: ExtensionContributionCounts,
    pub views: Vec<ViewRegistration>,
    pub work_modes: Vec<WorkModeRegistration>,
    pub zones: Vec<ZoneRegistration>,
    pub scripts: Vec<ScriptRegistration>,
    pub toolbar_items: Vec<ToolbarItemRegistration>,
    pub statusbar_items: Vec<StatusBarItemRegistration>,
    pub inline_extensions: Vec<InlineExtensionRegistration>,
    /// The configuration schema, as JSON text.
    pub configuration: Option<String>,
}

impl ExtensionRuntimeProjection {
    /// Equal to the default projection: nothing counted, nothing listed.
    pub open spec fn is_default(self) -> bool {
        &&& self.contribution_counts.is_zero()
        &&& self.views@.len() == 0
        &&& self.work_modes@.len() == 0
        &&& self.zones@.len() == 0
        &&& self.scripts@.len() == 0
        &&& self.toolbar_items@.len() == 0
        &&& self.statusbar_items@.len() == 0
        &&& self.inline_extensions@.len() == 0
        &&& self.configuration is None
    }

    /// The listed UI parts are those of `other`.
    pub open spec fn same_ui_parts(self, other: Self) -> bool {
        &&& self.views@ == other.views@
        &&& self.work_modes@ == other.work_modes@
        &&& self.zones@ == other.zones@
        &&& self.scripts@ == other.scripts@
        &&& self.toolbar_items@ == other.toolbar_items@
        &&& self.statusbar_items@ == other.statusbar_items@
        &&& self.inline_extensions@ == other.inline_extensions@
        &&& self.configuration == other.configuration
    }

    /// No UI part is listed.
    pub open spec fn no_ui_parts(self) -> bool {
        &&& self.views@.len() == 0
        &&& self.work_modes@.len() == 0
        &&& self.zones@.len() == 0
        &&& self.scripts@.len() == 0
        &&& self.toolbar_items@.len() == 0
        &&& self.statusbar_items@.len() == 0
        &&& self.inline_extensions@.len() == 0
        &&& self.configuration is None
    }

    /// Whether the projection equals the default one.
    pub fn is_default_projection(&self) -> (r: bool)
        ensures
            r == self.is_default(),
    {
        let c = &self.contribution_counts;
        c.work_modes == 0 && c.views == 0 && c.menus == 0 && c.commands == 0 && c.keybindings == 0
            && c.triggers == 0 && c.mcp_servers == 0 && c.providers == 0 && c.zones == 0
            && c.scripts == 0 && c.toolbar_items == 0 && c.statusbar_items == 0
            && c.inline_extensions == 0 && c.configuration == 0 && self.views.len() == 0
            && self.work_modes.len() == 0 && self.zones.len() == 0 && self.scripts.len() == 0
            && self.toolbar_items.len() == 0 && self.statusbar_items.len() == 0
            && self.inline_extensions.len() == 0 && self.configuration.is_none()
    }
}

impl Default for ExtensionRuntimeProjection {
    fn default() -> (r: Self)
        ensures
            r.is_default(),
    {
        ExtensionRuntimeProjection {
            contribution_counts: ExtensionContributionCounts::default(),
            views: Vec::new(),
            work_modes: Vec::new(),
            zones: Vec::new(),
            scripts: Vec::new(),
            toolbar_items: Vec::new(),
            statusbar_items: Vec::new(),
            inline_extensions: Vec::new(),
            configuration: None,
        }
    }
}

/// The resources one enabled extension owns, by the identifiers the hosts
/// accepted. Release works from these facts, never from the manifest.
#[derive(Debug, Clone)]
pub struct ExtensionRuntimeHandle {
    pub provider_ids: Vec<String>,
    pub provider_capability_ids: Vec<String>,
    pub provider_validation_ids: Vec<String>,
    pub protocols: Vec<ApiProtocol>,
    pub tool_server_ids: Vec<String>,
    pub tool_overrides: Vec<(String, String)>,
    pub mcp_servers: Vec<String>,
    pub skills: Vec<String>,
    pub languages: Vec<String>,
    pub ui_contribution_registered: bool,
    pub projection: ExtensionRuntimeProjection,
}

impl ExtensionRuntimeHandle {
    /// No host resource is recorded.
    pub open spec fn owns_nothing(self) -> bool {
        &&& self.provider_ids@.len() == 0
        &&& self.provider_capability_ids@.len() == 0
        &&& self.provider_validation_ids@.len() == 0
        &&& self.protocols@.len() == 0
        &&& self.tool_server_ids@.len() == 0
        &&& self.tool_overrides@.len() == 0
        &&& self.mcp_servers@.len() == 0
        &&& self.skills@.len() == 0
        &&& self.languages@.len() == 0
        &&& !self.ui_contribution_registered
    }

    /// Nothing recorded and nothing projected.
    pub open spec fn spec_is_empty(self) -> bool {
        self.owns_nothing() && self.projection.is_default()
    }

    /// The handle's facts other than its projection are those of `other`.
    pub open spec fn same_resources(self, other: Self) -> bool {
        &&& self.provider_ids == other.provider_ids
        &&& self.provider_capability_ids == other.provider_capability_ids
        &&& self.provider_validation_ids == other.provider_validation_ids
        &&& self.protocols == other.protocols
        &&& self.tool_server_ids == other.tool_server_ids
        &&& self.tool_overrides == other.tool_overrides
        &&& self.mcp_servers == other.mcp_servers
        &&& self.skills == other.skills
        &&& self.languages == other.languages
        &&& self.ui_contribution_registered == other.ui_contribution_registered
    }

    /// The counts after reconciling with the resources still owned: provider
    /// and MCP server counts follow the handle, and UI-registered kinds drop
    /// to zero unless the UI registration is still live.
    pub open spec fn reconciled_counts(self) -> ExtensionContributionCounts {
        let counts = ExtensionContributionCounts {
            providers: self.provider_ids@.len() as usize,
            mcp_servers: self.mcp_servers@.len() as usize,
            ..self.projection.contribution_counts
        };
        if self.ui_contribution_registered {
            counts
        } else {
            counts.without_ui()
        }
    }

    /// Whether the handle records nothing and projects nothing.
    pub fn is_empty(&self) -> (r: bool)
        ensures
            r == self.spec_is_empty(),
    {
        self.provider_ids.len() == 0 && self.provider_capability_ids.len() == 0
            && self.provider_validation_ids.len() == 0 && self.protocols.len() == 0
            && self.tool_server_ids.len() == 0 && self.tool_overrides.len() == 0
            && self.mcp_servers.len() == 0 && self.skills.len() == 0 && self.languages.len() == 0
            && !self.ui_contribution_registered && self.projection.is_default_projection()
    }

    /// Brings the projection in line with the resources still owned.
    pub fn reconcile_projection(&mut self)
        ensures
            final(self).same_resources(*old(self)),
            final(self).projection.contribution_counts == old(self).reconciled_counts(),
            old(self).ui_contribution_registered ==> final(self).projection.same_ui_parts(
                old(self).projection,
            ),
            !old(self).ui_contribution_registered ==> final(self).projection.no_ui_parts(),
    {
        self.projection.contribution_counts.providers = self.provider_ids.len();
        self.projection.contribution_counts.mcp_servers = self.mcp_servers.len();
        if !self.ui_contribution_registered {
            self.projection.views.clear();
            self.projection.work_modes.clear();
            self.projection.zones.clear();
            self.projection.scripts.clear();
            self.projection.toolbar_items.clear();
            self.projection.statusbar_items.clear();
            self.projection.inline_extensions.clear();
            self.projection.configuration = None;
            self.projection.contribution_counts.work_modes = 0;
            self.projection.contribution_counts.views = 0;
            self.projection.contribution_counts.menus = 0;
            self.projection.contribution_counts.commands = 0;
            self.projection.contribution_counts.keybindings = 0;
            self.projection.contribution_counts.triggers = 0;
            self.projection.contribution_counts.zones = 0;
            self.projection.contribution_counts.scripts = 0;
            self.projection.contribution_counts.toolbar_items = 0;
            self.projection.contribution_counts.statusbar_items = 0;
            self.projection.contribution_counts.inline_extensions = 0;
            self.projection.contribution_counts.configuration = 0;
        }
        if self.is_empty() {
            self.projection = ExtensionRuntimeProjection::default();
        }
    }
}

impl Default for ExtensionRuntimeHandle {
    fn default() -> (r: Self)
        ensures
            r.spec_is_empty(),
    {
        ExtensionRuntimeHandle {
            provider_ids: Vec::new(),
            provider_capability_ids: Vec::new(),
            provider_validation_ids: Vec::new(),
            protocols: Vec::new(),
            tool_server_ids: Vec::new(),
            tool_overrides: Vec::new(),
            mcp_servers: Vec::new(),
            skills: Vec::new(),
            languages: Vec::new(),
            ui_contribution_registered: false,
            projection: ExtensionRuntimeProjection::default(),
        }
    }
}

// ---------------------------------------------------------------------------
// Host ports
// ---------------------------------------------------------------------------

/// The Gateway host, as the lifecycle uses it: extension providers, their
/// capabilities and the protocols they speak.
pub trait GatewayCapabilityPort {
    fn upsert_provider(&self, config: ProviderConfig) -> Result<(), String>;

    fn set_provider_capabilities(&self, provider_id: &str, capabilities: CapabilitySet) -> Result<
        (),
        String,
    >;

    fn remove_provider_capabilities(&self, provider_id: &str) -> Result<(), String>;

    fn remove_provider(&self, id: &str) -> Result<(), String>;

    fn acquire_protocol(&self, owner: &str, protocol: &ApiProtocol) -> Result<(), String>;

    /// Registers a declarative protocol from its declared configuration (JSON text).
    fn register_custom_protocol(&self, owner: &str, protocol: &ApiProtocol, config: String) -> Result<
        (),
        String,
    >;

    fn release_protocol(&self, owner: &str, protocol: &ApiProtocol) -> Result<(), String>;
}

/// The registry of provider validation contracts, keyed by runtime provider id.
pub trait ProviderValidationPort {
    fn register(&self, owner: &str, provider_id: &str) -> Result<(), String>;

    fn unregister(&self, owner: &str, provider_id: &str) -> Result<(), String>;
}

/// The MCP host, as the lifecycle uses it.
pub trait McpCapabilityPort {
    /// Adds a server an extension declares, under `server_id`; the host
    /// builds the server's configuration from the declaration and answers
    /// whether the server starts at once.
    fn add_server(&self, server_id: &str, declaration: &MCPServerConfig) -> Result<bool, String>;

    fn start_server(&self, server_id: &str) -> Result<(), String>;

    /// Registers a tool an extension declares, under the extension's tool
    /// server, with the risk level it declares.
    fn register_tool(&self, server_id: &str, tool: &ToolRegistration, declared_risk: Option<ToolRiskLevel>) -> Result<
        (),
        String,
    >;

    fn remove_server(&self, id: &str) -> Result<(), String>;

    fn unregister_server_tools(&self, server_id: &str) -> Result<usize, String>;

    fn apply_tool_override(
        &self,
        owner: &str,
        server_id: &str,
        tool_name: &str,
        tool_override: ToolDefinitionOverride,
    ) -> Result<(), String>;

    fn remove_tool_override(&self, owner: &str, server_id: &str, tool_name: &str) -> Result<
        (),
        String,
    >;
}

/// How a tool's user-facing name is shown.
#[derive(Debug, Clone, PartialEq)]
pub struct ToolUiHint {
    pub display_name: String,
}

/// Which renderer shows a tool's result, and an optional detail view.
#[derive(Debug, Clone, PartialEq)]
pub struct ToolRendererHint {
    pub renderer: String,
    pub detail_view: Option<String>,
}

/// What an extension overrides of a tool's definition.
#[derive(Debug, Clone, PartialEq)]
pub struct ToolDefinitionOverride {
    pub model_name: Option<String>,
    pub user_visible: Option<bool>,
    pub ui_hint: Option<ToolUiHint>,
    pub description: Option<String>,
    pub renderer_hint: Option<ToolRendererHint>,
    pub declared_risk: Option<ToolRiskLevel>,
}

/// The override a declaration asks for: its display name as the UI hint,
/// its renderer (with the detail view, if any) as the renderer hint, and
/// its risk level parsed; an unknown risk level is refused.
pub open spec fn override_matches(r: ToolDefinitionOverride, o: McpToolOverride) -> bool {
    &&& r.model_name == o.model_name
    &&& r.user_visible == o.user_visible
    &&& r.description == o.description
    &&& r.ui_hint == match o.display_name {
        Some(n) => Some(ToolUiHint { display_name: n }),
        None => None,
    }
    &&& r.renderer_hint == match o.renderer {
        Some(renderer) => Some(ToolRendererHint { renderer, detail_view: o.detail_view }),
        None => None,
    }
    &&& r.declared_risk == match o.declared_risk {
        Some(v) => risk_from(v@),
        None => None,
    }
}

/// The override a declaration asks for; see `override_matches`.
pub fn tool_definition_override(o: &McpToolOverride) -> (r: Result<ToolDefinitionOverride, GatewayError>)
    ensures
        match o.declared_risk {
            Some(v) if risk_from(v@) is None => r matches Err(e) && e.kind == GatewayErrorKind::UnsupportedRisk,
            _ => r matches Ok(d) && override_matches(d, *o),
        },
{
    let declared_risk = match &o.declared_risk {
        Some(v) => match parse_tool_risk(v.as_str()) {
            Ok(level) => Some(level),
            Err(e) => return Err(e),
        },
        None => None,
    };
    let ui_hint = match &o.display_name {
        Some(n) => Some(ToolUiHint { display_name: n.clone() }),
        None => None,
    };
    let renderer_hint = match &o.renderer {
        Some(renderer) => Some(ToolRendererHint { renderer: renderer.clone(), detail_view: clone_opt(&o.detail_view) }),
        None => None,
    };
    Ok(
        ToolDefinitionOverride {
            model_name: clone_opt(&o.model_name),
            user_visible: o.user_visible,
            ui_hint,
            description: clone_opt(&o.description),
            renderer_hint,
            declared_risk,
        },
    )
}

/// The (server, tool) pairs a list of override declarations targets for
/// `extension_id`, in order.
pub open spec fn override_targets(extension_id: Seq<char>, o: Seq<McpToolOverride>) -> Seq<(Seq<char>, Seq<char>)> {
    o.map_values(|x: McpToolOverride| (override_server_id(extension_id, x.server@), x.tool@))
}

/// Applies each declared tool override on behalf of `extension_id`, in
/// order, recording each override the MCP host accepted. It stops at the
/// first declaration that cannot be built or is refused.
#[verifier::loop_isolation(false)]
pub fn apply_mcp_tool_overrides<M: McpCapabilityPort + ?Sized>(
    mcp: &M,
    extension_id: &str,
    overrides: &Vec<McpToolOverride>,
    handle: &mut ExtensionRuntimeHandle,
    log: &mut HostCallLog,
) -> (r: Result<(), String>)
    ensures
        handle_register_logged(*old(handle), *final(handle), old(log).calls(), final(log).calls()),
        r is Ok ==> all_accepted(old(log).calls(), final(log).calls()),
        old(handle).tool_overrides@.len() <= final(handle).tool_overrides@.len() <= old(handle).tool_overrides@.len()
            + overrides@.len(),
        override_views(final(handle).tool_overrides@) == override_views(old(handle).tool_overrides@)
            + override_targets(extension_id@, overrides@).take(
            final(handle).tool_overrides@.len() - old(handle).tool_overrides@.len(),
        ),
        r is Ok ==> final(handle).tool_overrides@.len() == old(handle).tool_overrides@.len() + overrides@.len(),
        overrides@.len() == 0 ==> r is Ok,
        same_gateway(*final(handle), *old(handle)),
        final(handle).tool_server_ids == old(handle).tool_server_ids,
        final(handle).mcp_servers == old(handle).mcp_servers,
        final(handle).skills == old(handle).skills,
        final(handle).languages == old(handle).languages,
        final(handle).ui_contribution_registered == old(handle).ui_contribution_registered,
        final(handle).projection == old(handle).projection,
{
    let ghost h0 = *handle;
    let ghost l0 = log.calls();
    let ghost targets = override_targets(extension_id@, overrides@);
    proof {
        lemma_register_refl(h0, l0);
    }
    let n = overrides.len();
    let mut i: usize = 0;
    while i < n
        invariant
            i <= n,
            n == overrides@.len(),
            handle.tool_overrides@.len() == h0.tool_overrides@.len() + i,
            override_views(handle.tool_overrides@) == override_views(h0.tool_overrides@) + targets.take(i as int),
            same_gateway(*handle, h0),
            handle.tool_server_ids == h0.tool_server_ids,
            handle.mcp_servers == h0.mcp_servers,
            handle.skills == h0.skills,
            handle.languages == h0.languages,
            handle.ui_contribution_registered == h0.ui_contribution_registered,
            handle.projection == h0.projection,
            handle_register_logged(h0, *handle, l0, log.calls()),
            all_accepted(l0, log.calls()),
        decreases n - i,
    {
        let o = &overrides[i];
        let server_id = crate::gateway::mcp_override_server_id(extension_id, o.server.as_str());
        let tool_override = match tool_definition_override(o) {
            Ok(t) => t,
            Err(e) => return Err(e.to_string()),
        };
        let answer = mcp.apply_tool_override(extension_id, server_id.as_str(), o.tool.as_str(), tool_override);
        let ghost before = *handle;
        let ghost label = override_label((server_id@, o.tool@));
        let ghost call = HostCall::Register { kind: ResourceKind::ToolOverride, subject: label, accepted: answer is Ok };
        proof {
            lemma_register_record(h0, before, l0, log.calls(), call);
        }
        log.record(Ghost(call));
        if let Err(e) = answer {
            return Err(
                concat6(
                    "Failed to apply MCP tool override '",
                    server_id.as_str(),
                    ":",
                    o.tool.as_str(),
                    "': ",
                    e.as_str(),
                ),
            );
        }
        let ghost prev = handle.tool_overrides@;
        let tool = owned(o.tool.as_str());
        handle.tool_overrides.push((server_id, tool));
        proof {
            assert(targets[i as int] == (override_server_id(extension_id@, o.server@), o.tool@));
            assert(targets.take(i + 1) =~= targets.take(i as int).push(targets[i as int]));
            assert(override_views(handle.tool_overrides@) =~= override_views(prev).push(targets[i as int]));
            assert(override_subjects(handle.tool_overrides@) =~= override_subjects(prev).push(label));
            assert(log.calls()[log.calls().len() - 1] == call);
            assert(registered_in(log.calls(), ResourceKind::ToolOverride, label));
            assert forall|k: ResourceKind| k != ResourceKind::ToolOverride implies #[trigger] handle_subjects(*handle, k)
                == handle_subjects(before, k) by {}
            lemma_register_push(h0, before, *handle, ResourceKind::ToolOverride, label, l0, log.calls());
        }
        i = i + 1;
    }
    proof {
        assert(targets.take(n as int) =~= targets);
    }
    Ok(())
}



/// The skills host, as the lifecycle uses it.
pub trait SkillHostPort {
    fn register_extension_skill(&self, extension_id: &str, skill: &SkillDefinition) -> Result<(), String>;

    fn unregister_extension_skill(&self, extension_id: &str, skill_id: &str) -> Result<(), String>;
}

/// The LSP host: language registration by owner.
pub trait LspCapabilityPort {
    fn register_language(&self, config: LSPServerConfig, source: LanguageSource) -> Result<
        (),
        String,
    >;

    fn unregister_language(&self, language_id: &str, owner: &str) -> Result<(), String>;
}

// ---------------------------------------------------------------------------
// Cleanup errors
// ---------------------------------------------------------------------------

/// A kind of host resource an extension can own.
#[derive(Debug, Clone, Copy, PartialEq, Eq)]
pub enum ResourceKind {
    ProviderValidation,
    ProviderCapability,
    Provider,
    Protocol,
    ToolOverride,
    ToolServer,
    McpServer,
    Skill,
    Language,
    EventSubscription,
}

/// A host subsystem that can be missing.
#[derive(Debug, Clone, Copy, PartialEq, Eq)]
pub enum HostKind {
    ProviderValidation,
    Gateway,
    Mcp,
    Skills,
    Lsp,
    EventSubscriptions,
}

/// Why a release step failed.
#[derive(Debug, Clone, Copy, PartialEq, Eq)]
pub enum CleanupErrorKind {
    /// The host refused to release the resource named by the subject.
    Release(ResourceKind),
    /// Resources of this host remain but the host is not available.
    HostUnavailable(HostKind),
}

/// One failed release step: what failed, on which resource, and the host's words.
#[derive(Debug, Clone, PartialEq)]
pub struct CleanupError {
    pub kind: CleanupErrorKind,
    pub subject: String,
    pub detail: String,
}

/// How a failed release of a kind of resource is introduced.
pub open spec fn resource_label(k: ResourceKind) -> Seq<char> {
    match k {
        ResourceKind::ProviderValidation => "Provider validation '"@,
        ResourceKind::ProviderCapability => "Gateway provider capability source '"@,
        ResourceKind::Provider => "Gateway provider '"@,
        ResourceKind::Protocol => "Gateway protocol '"@,
        ResourceKind::ToolOverride => "MCP tool override '"@,
        ResourceKind::ToolServer => "MCP tools '"@,
        ResourceKind::McpServer => "MCP server '"@,
        ResourceKind::Skill => "Skill '"@,
        ResourceKind::Language => "LSP language '"@,
        ResourceKind::EventSubscription => "Event subscription '"@,
    }
}

/// What is said of a missing host.
pub open spec fn missing_host_text(h: HostKind) -> Seq<char> {
    match h {
        HostKind::ProviderValidation => "Provider validation resources exist but validation host is not available"@,
        HostKind::Gateway => "Gateway resources exist but Gateway host is not available"@,
        HostKind::Mcp => "MCP resources exist but MCP host is not available"@,
        HostKind::Skills => "Skills host is not available for skill cleanup"@,
        HostKind::Lsp => "LSP resources exist but LSP host is not available"@,
        HostKind::EventSubscriptions => "Event subscriptions exist but Extension event host is not available"@,
    }
}

impl CleanupError {
    /// The description of the failure, as a value.
    pub open spec fn text(&self) -> Seq<char> {
        match self.kind {
            CleanupErrorKind::Release(k) => resource_label(k) + self.subject@ + "': "@ + self.detail@,
            CleanupErrorKind::HostUnavailable(h) => missing_host_text(h),
        }
    }

    /// A human-readable description of the failure.
    pub fn to_string(&self) -> (r: String)
        ensures
            r@ == self.text(),
    {
        let s = self.subject.as_str();
        let d = self.detail.as_str();
        match self.kind {
            CleanupErrorKind::Release(k) => {
                let label = match k {
                    ResourceKind::ProviderValidation => "Provider validation '",
                    ResourceKind::ProviderCapability => "Gateway provider capability source '",
                    ResourceKind::Provider => "Gateway provider '",
                    ResourceKind::Protocol => "Gateway protocol '",
                    ResourceKind::ToolOverride => "MCP tool override '",
                    ResourceKind::ToolServer => "MCP tools '",
                    ResourceKind::McpServer => "MCP server '",
                    ResourceKind::Skill => "Skill '",
                    ResourceKind::Language => "LSP language '",
                    ResourceKind::EventSubscription => "Event subscription '",
                };
                concat4(label, s, "': ", d)
            },
            CleanupErrorKind::HostUnavailable(h) => owned(
                match h {
                    HostKind::ProviderValidation => "Provider validation resources exist but validation host is not available",
                    HostKind::Gateway => "Gateway resources exist but Gateway host is not available",
                    HostKind::Mcp => "MCP resources exist but MCP host is not available",
                    HostKind::Skills => "Skills host is not available for skill cleanup",
                    HostKind::Lsp => "LSP resources exist but LSP host is not available",
                    HostKind::EventSubscriptions => "Event subscriptions exist but Extension event host is not available",
                },
            ),
        }
    }
}

/// A failure to release `id` of `kind` is among `errs`.
pub open spec fn reported(errs: Seq<CleanupError>, kind: ResourceKind, id: Seq<char>) -> bool {
    exists|i: int|
        0 <= i < errs.len() && #[trigger] errs[i].kind == CleanupErrorKind::Release(kind)
            && errs[i].subject@ == id
}

/// `errs` reports the host `h` as missing.
pub open spec fn reported_missing(errs: Seq<CleanupError>, h: HostKind) -> bool {
    exists|i: int| 0 <= i < errs.len() && #[trigger] errs[i].kind == CleanupErrorKind::HostUnavailable(h)
}

/// Release of one list of ids went as it must: every id still listed was
/// listed before and its failed release is reported.
pub open spec fn released_or_reported(
    before: Seq<String>,
    after: Seq<String>,
    errs: Seq<CleanupError>,
    kind: ResourceKind,
) -> bool {
    &&& forall|k: int| 0 <= k < after.len() ==> views(before).contains(#[trigger] after[k]@)
    &&& forall|k: int| 0 <= k < after.len() ==> reported(errs, kind, #[trigger] after[k]@)
}

// ---------------------------------------------------------------------------
// The record of host calls
// ---------------------------------------------------------------------------

/// One call made on a host port: registering or releasing a resource of
/// `kind` named `subject`, and whether the host accepted it.
pub enum HostCall {
    Register { kind: ResourceKind, subject: Seq<char>, accepted: bool },
    Release { kind: ResourceKind, subject: Seq<char>, accepted: bool },
}

/// The calls made on the host ports, in order. It holds nothing at run
/// time; it is the record that contracts relate the hosts' answers to.
pub struct HostCallLog {
    calls: Ghost<Seq<HostCall>>,
}

impl HostCallLog {
    /// The calls made so far, in order.
    pub closed spec fn calls(&self) -> Seq<HostCall> {
        self.calls@
    }

    /// An empty record.
    pub fn new() -> (r: Self)
        ensures
            r.calls() == Seq::<HostCall>::empty(),
    {
        HostCallLog { calls: Ghost(Seq::empty()) }
    }

    /// Records one call, with the host's answer.
    pub(crate) fn record(&mut self, Ghost(call): Ghost<HostCall>)
        ensures
            final(self).calls() == old(self).calls().push(call),
    {
        self.calls = Ghost(self.calls@.push(call));
    }
}

/// The host accepted releasing `subject` of `kind`.
pub open spec fn released_in(log: Seq<HostCall>, kind: ResourceKind, subject: Seq<char>) -> bool {
    log.contains(HostCall::Release { kind, subject, accepted: true })
}

/// The host refused releasing `subject` of `kind`.
pub open spec fn refused_release_in(log: Seq<HostCall>, kind: ResourceKind, subject: Seq<char>) -> bool {
    log.contains(HostCall::Release { kind, subject, accepted: false })
}

/// The host accepted registering `subject` of `kind`.
pub open spec fn registered_in(log: Seq<HostCall>, kind: ResourceKind, subject: Seq<char>) -> bool {
    log.contains(HostCall::Register { kind, subject, accepted: true })
}

/// `c` releases one of `subjects`, of `kind`.
pub open spec fn release_of(c: HostCall, kind: ResourceKind, subjects: Seq<Seq<char>>) -> bool {
    match c {
        HostCall::Release { kind: k, subject, .. } => k == kind && subjects.contains(subject),
        HostCall::Register { .. } => false,
    }
}

/// A call in a record stays there when more calls are recorded.
pub proof fn lemma_log_grows(a: Seq<HostCall>, b: Seq<HostCall>)
    requires
        a.is_prefix_of(b),
    ensures
        forall|c: HostCall| a.contains(c) ==> #[trigger] b.contains(c),
{
    assert forall|c: HostCall| a.contains(c) implies #[trigger] b.contains(c) by {
        let i = choose|i: int| 0 <= i < a.len() && a[i] == c;
        assert(b[i] == a[i]);
    }
}

/// Releasing the subjects `before` of `kind` down to `after` went through
/// the host: each subject dropped was released by a call the host
/// accepted; each failure appended to the errors is of this kind, names
/// one of the subjects, and answers a call the host refused; each call
/// appended to the record releases one of the subjects.
pub open spec fn list_release_logged(
    before: Seq<Seq<char>>,
    after: Seq<Seq<char>>,
    kind: ResourceKind,
    errs0: Seq<CleanupError>,
    errs: Seq<CleanupError>,
    log0: Seq<HostCall>,
    log: Seq<HostCall>,
) -> bool {
    &&& errs0.is_prefix_of(errs)
    &&& log0.is_prefix_of(log)
    &&& forall|s: Seq<char>| #[trigger] after.contains(s) ==> before.contains(s)
    &&& forall|s: Seq<char>| #[trigger] before.contains(s) && !after.contains(s) ==> released_in(log, kind, s)
    &&& forall|i: int|
        errs0.len() <= i < errs.len() ==> (#[trigger] errs[i]).kind == CleanupErrorKind::Release(kind)
            && before.contains(errs[i].subject@) && refused_release_in(log, kind, errs[i].subject@)
    &&& forall|i: int| log0.len() <= i < log.len() ==> release_of(#[trigger] log[i], kind, before)
}

/// Which of the optional hosts are present.
pub struct HostsPresent {
    pub gateway: bool,
    pub provider_validation: bool,
    pub mcp: bool,
    pub skills: bool,
    pub lsp: bool,
}

/// The names under which `h` records its resources of `kind`, in order.
pub open spec fn handle_subjects(h: ExtensionRuntimeHandle, kind: ResourceKind) -> Seq<Seq<char>> {
    match kind {
        ResourceKind::ProviderValidation => views(h.provider_validation_ids@),
        ResourceKind::ProviderCapability => views(h.provider_capability_ids@),
        ResourceKind::Provider => views(h.provider_ids@),
        ResourceKind::Protocol => protocol_subjects(h.protocols@),
        ResourceKind::ToolOverride => override_subjects(h.tool_overrides@),
        ResourceKind::ToolServer => views(h.tool_server_ids@),
        ResourceKind::McpServer => views(h.mcp_servers@),
        ResourceKind::Skill => views(h.skills@),
        ResourceKind::Language => views(h.languages@),
        ResourceKind::EventSubscription => Seq::empty(),
    }
}

/// Host `host` is missing while `h` records resources only it can release.
pub open spec fn missing_needed(host: HostKind, h: ExtensionRuntimeHandle, p: HostsPresent) -> bool {
    match host {
        HostKind::ProviderValidation => !p.provider_validation && handle_subjects(
            h,
            ResourceKind::ProviderValidation,
        ).len() > 0,
        HostKind::Gateway => !p.gateway && (handle_subjects(h, ResourceKind::ProviderCapability).len() > 0
            || handle_subjects(h, ResourceKind::Provider).len() > 0 || handle_subjects(h, ResourceKind::Protocol).len()
            > 0),
        HostKind::Mcp => !p.mcp && (handle_subjects(h, ResourceKind::ToolOverride).len() > 0 || handle_subjects(
            h,
            ResourceKind::ToolServer,
        ).len() > 0 || handle_subjects(h, ResourceKind::McpServer).len() > 0),
        HostKind::Skills => !p.skills && handle_subjects(h, ResourceKind::Skill).len() > 0,
        HostKind::Lsp => !p.lsp && handle_subjects(h, ResourceKind::Language).len() > 0,
        HostKind::EventSubscriptions => false,
    }
}

/// A failure reported while releasing `h` has a cause: the host refused
/// to release a resource `h` records, or a host that resources of `h`
/// need is missing.
pub open spec fn release_error_explained(
    e: CleanupError,
    log: Seq<HostCall>,
    h: ExtensionRuntimeHandle,
    p: HostsPresent,
) -> bool {
    match e.kind {
        CleanupErrorKind::Release(k) => handle_subjects(h, k).contains(e.subject@) && refused_release_in(
            log,
            k,
            e.subject@,
        ),
        CleanupErrorKind::HostUnavailable(host) => missing_needed(host, h, p),
    }
}

/// `c` releases a resource `h` records.
pub open spec fn release_call_of(c: HostCall, h: ExtensionRuntimeHandle) -> bool {
    match c {
        HostCall::Release { kind, subject, .. } => handle_subjects(h, kind).contains(subject),
        HostCall::Register { .. } => false,
    }
}

/// Releasing `before` down to `after`, with the hosts `p`, went through the
/// hosts: nothing was added; each resource dropped was released by a call
/// its host accepted; each failure appended has a cause; each call
/// appended releases a resource of `before`.
pub open spec fn handle_release_logged(
    before: ExtensionRuntimeHandle,
    after: ExtensionRuntimeHandle,
    p: HostsPresent,
    errs0: Seq<CleanupError>,
    errs: Seq<CleanupError>,
    log0: Seq<HostCall>,
    log: Seq<HostCall>,
) -> bool {
    &&& errs0.is_prefix_of(errs)
    &&& log0.is_prefix_of(log)
    &&& forall|kind: ResourceKind, s: Seq<char>|
        #[trigger] handle_subjects(after, kind).contains(s) ==> handle_subjects(before, kind).contains(s)
    &&& forall|kind: ResourceKind, s: Seq<char>|
        #[trigger] handle_subjects(before, kind).contains(s) && !handle_subjects(after, kind).contains(s)
            ==> released_in(log, kind, s)
    &&& forall|i: int| errs0.len() <= i < errs.len() ==> release_error_explained(#[trigger] errs[i], log, before, p)
    &&& forall|i: int| log0.len() <= i < log.len() ==> release_call_of(#[trigger] log[i], before)
}

proof fn lemma_prefix_trans<A>(a: Seq<A>, b: Seq<A>, c: Seq<A>)
    requires
        a.is_prefix_of(b),
        b.is_prefix_of(c),
    ensures
        a.is_prefix_of(c),
{
    assert forall|i: int| 0 <= i < a.len() implies a[i] == c[i] by {
        assert(a[i] == b[i]);
        assert(b[i] == c[i]);
    }
}

pub(crate) proof fn lemma_release_refl(h: ExtensionRuntimeHandle, p: HostsPresent, e: Seq<CleanupError>, l: Seq<HostCall>)
    ensures
        handle_release_logged(h, h, p, e, e, l, l),
{
    assert(e.is_prefix_of(e));
    assert(l.is_prefix_of(l));
}

proof fn lemma_release_trans(
    h0: ExtensionRuntimeHandle,
    h1: ExtensionRuntimeHandle,
    h2: ExtensionRuntimeHandle,
    p: HostsPresent,
    e0: Seq<CleanupError>,
    e1: Seq<CleanupError>,
    e2: Seq<CleanupError>,
    l0: Seq<HostCall>,
    l1: Seq<HostCall>,
    l2: Seq<HostCall>,
)
    requires
        handle_release_logged(h0, h1, p, e0, e1, l0, l1),
        handle_release_logged(h1, h2, p, e1, e2, l1, l2),
    ensures
        handle_release_logged(h0, h2, p, e0, e2, l0, l2),
{
    lemma_prefix_trans(e0, e1, e2);
    lemma_prefix_trans(l0, l1, l2);
    lemma_log_grows(l1, l2);
    assert forall|kind: ResourceKind, s: Seq<char>|
        #[trigger] handle_subjects(h0, kind).contains(s) && !handle_subjects(h2, kind).contains(s) implies released_in(
        l2,
        kind,
        s,
    ) by {
        if !handle_subjects(h1, kind).contains(s) {
            assert(released_in(l1, kind, s));
        }
    }
    assert forall|k: ResourceKind| #[trigger] handle_subjects(h1, k).len() > 0 implies handle_subjects(h0, k).len() > 0 by {
        assert(handle_subjects(h1, k).contains(handle_subjects(h1, k)[0]));
    }
    assert forall|i: int| e0.len() <= i < e2.len() implies release_error_explained(#[trigger] e2[i], l2, h0, p) by {
        if i < e1.len() {
            assert(e2[i] == e1[i]);
            assert(release_error_explained(e1[i], l1, h0, p));
            match e2[i].kind {
                CleanupErrorKind::Release(k) => {
                    assert(refused_release_in(l1, k, e2[i].subject@));
                },
                CleanupErrorKind::HostUnavailable(host) => {},
            }
        } else {
            assert(release_error_explained(e2[i], l2, h1, p));
            match e2[i].kind {
                CleanupErrorKind::Release(k) => {},
                CleanupErrorKind::HostUnavailable(host) => {
                    assert(handle_subjects(h1, ResourceKind::ProviderValidation).len() > 0 ==> handle_subjects(h0, ResourceKind::ProviderValidation).len() > 0);
                    assert(handle_subjects(h1, ResourceKind::ProviderCapability).len() > 0 ==> handle_subjects(h0, ResourceKind::ProviderCapability).len() > 0);
                    assert(handle_subjects(h1, ResourceKind::Provider).len() > 0 ==> handle_subjects(h0, ResourceKind::Provider).len() > 0);
                    assert(handle_subjects(h1, ResourceKind::Protocol).len() > 0 ==> handle_subjects(h0, ResourceKind::Protocol).len() > 0);
                    assert(handle_subjects(h1, ResourceKind::ToolOverride).len() > 0 ==> handle_subjects(h0, ResourceKind::ToolOverride).len() > 0);
                    assert(handle_subjects(h1, ResourceKind::ToolServer).len() > 0 ==> handle_subjects(h0, ResourceKind::ToolServer).len() > 0);
                    assert(handle_subjects(h1, ResourceKind::McpServer).len() > 0 ==> handle_subjects(h0, ResourceKind::McpServer).len() > 0);
                    assert(handle_subjects(h1, ResourceKind::Skill).len() > 0 ==> handle_subjects(h0, ResourceKind::Skill).len() > 0);
                    assert(handle_subjects(h1, ResourceKind::Language).len() > 0 ==> handle_subjects(h0, ResourceKind::Language).len() > 0);
                },
            }
        }
    }
    assert forall|i: int| l0.len() <= i < l2.len() implies release_call_of(#[trigger] l2[i], h0) by {
        if i < l1.len() {
            assert(l2[i] == l1[i]);
        } else {
            assert(release_call_of(l2[i], h1));
        }
    }
}

/// One list of the handle, of `kind`, was released as `list_release_logged`
/// says, and nothing else changed.
proof fn lemma_release_lift(
    h1: ExtensionRuntimeHandle,
    h2: ExtensionRuntimeHandle,
    kind: ResourceKind,
    p: HostsPresent,
    e1: Seq<CleanupError>,
    e2: Seq<CleanupError>,
    l1: Seq<HostCall>,
    l2: Seq<HostCall>,
)
    requires
        list_release_logged(handle_subjects(h1, kind), handle_subjects(h2, kind), kind, e1, e2, l1, l2),
        forall|s: Seq<char>| #[trigger] handle_subjects(h2, kind).contains(s) ==> handle_subjects(h1, kind).contains(s),
        forall|k: ResourceKind| k != kind ==> #[trigger] handle_subjects(h2, k) == handle_subjects(h1, k),
    ensures
        handle_release_logged(h1, h2, p, e1, e2, l1, l2),
{
    assert forall|i: int| e1.len() <= i < e2.len() implies release_error_explained(#[trigger] e2[i], l2, h1, p) by {
        assert(e2[i].kind == CleanupErrorKind::Release(kind));
    }
    assert forall|i: int| l1.len() <= i < l2.len() implies release_call_of(#[trigger] l2[i], h1) by {
        assert(release_of(l2[i], kind, handle_subjects(h1, kind)));
    }
    assert forall|k: ResourceKind, s: Seq<char>|
        #[trigger] handle_subjects(h2, k).contains(s) implies handle_subjects(h1, k).contains(s) by {
        if k != kind {
            assert(handle_subjects(h2, k) == handle_subjects(h1, k));
        }
    }
    assert forall|k: ResourceKind, s: Seq<char>|
        #[trigger] handle_subjects(h1, k).contains(s) && !handle_subjects(h2, k).contains(s) implies released_in(
        l2,
        k,
        s,
    ) by {
        if k != kind {
            assert(handle_subjects(h2, k) == handle_subjects(h1, k));
        }
    }
}

/// A missing host was reported, and nothing else happened.
proof fn lemma_release_missing(
    h: ExtensionRuntimeHandle,
    host: HostKind,
    p: HostsPresent,
    e1: Seq<CleanupError>,
    e2: Seq<CleanupError>,
    l: Seq<HostCall>,
)
    requires
        e1.is_prefix_of(e2),
        e2.len() == e1.len() + 1,
        e2[e1.len() as int].kind == CleanupErrorKind::HostUnavailable(host),
        missing_needed(host, h, p),
    ensures
        handle_release_logged(h, h, p, e1, e2, l, l),
{
    assert(l.is_prefix_of(l));
}

/// The host accepted `c`.
pub open spec fn call_accepted(c: HostCall) -> bool {
    match c {
        HostCall::Register { accepted, .. } => accepted,
        HostCall::Release { accepted, .. } => accepted,
    }
}

/// The hosts accepted every call appended to `log0`.
pub open spec fn all_accepted(log0: Seq<HostCall>, log: Seq<HostCall>) -> bool {
    forall|i: int| log0.len() <= i < log.len() ==> call_accepted(#[trigger] log[i])
}

/// Registering moved `before` to `after` through the hosts: each resource
/// `after` records that `before` did not was registered by a call its host
/// accepted. (The tool server is recorded before its tools are handed over,
/// so that release finds it; it has no call of its own.)
pub open spec fn handle_register_logged(
    before: ExtensionRuntimeHandle,
    after: ExtensionRuntimeHandle,
    log0: Seq<HostCall>,
    log: Seq<HostCall>,
) -> bool {
    &&& log0.is_prefix_of(log)
    &&& forall|kind: ResourceKind, s: Seq<char>|
        kind != ResourceKind::ToolServer && #[trigger] handle_subjects(after, kind).contains(s) && !handle_subjects(
            before,
            kind,
        ).contains(s) ==> registered_in(log, kind, s)
}

pub(crate) proof fn lemma_register_refl(h: ExtensionRuntimeHandle, l: Seq<HostCall>)
    ensures
        handle_register_logged(h, h, l, l),
        all_accepted(l, l),
{
    assert(l.is_prefix_of(l));
}

/// Two handles that record the same resources; nothing was registered.
pub(crate) proof fn lemma_register_same(h0: ExtensionRuntimeHandle, h1: ExtensionRuntimeHandle, l: Seq<HostCall>)
    requires
        forall|k: ResourceKind| #[trigger] handle_subjects(h1, k) == handle_subjects(h0, k),
    ensures
        handle_register_logged(h0, h1, l, l),
        all_accepted(l, l),
{
    assert(l.is_prefix_of(l));
    assert forall|kind: ResourceKind, s: Seq<char>|
        kind != ResourceKind::ToolServer && #[trigger] handle_subjects(h1, kind).contains(s) && !handle_subjects(
            h0,
            kind,
        ).contains(s) implies registered_in(l, kind, s) by {
        assert(handle_subjects(h1, kind) == handle_subjects(h0, kind));
    }
}

pub(crate) proof fn lemma_register_trans(
    h0: ExtensionRuntimeHandle,
    h1: ExtensionRuntimeHandle,
    h2: ExtensionRuntimeHandle,
    l0: Seq<HostCall>,
    l1: Seq<HostCall>,
    l2: Seq<HostCall>,
)
    requires
        handle_register_logged(h0, h1, l0, l1),
        handle_register_logged(h1, h2, l1, l2),
    ensures
        handle_register_logged(h0, h2, l0, l2),
        all_accepted(l0, l1) && all_accepted(l1, l2) ==> all_accepted(l0, l2),
{
    lemma_prefix_trans(l0, l1, l2);
    lemma_log_grows(l1, l2);
    assert forall|kind: ResourceKind, s: Seq<char>|
        kind != ResourceKind::ToolServer && #[trigger] handle_subjects(h2, kind).contains(s) && !handle_subjects(
            h0,
            kind,
        ).contains(s) implies registered_in(l2, kind, s) by {
        if handle_subjects(h1, kind).contains(s) {
            assert(registered_in(l1, kind, s));
        }
    }
    if all_accepted(l0, l1) && all_accepted(l1, l2) {
        assert forall|i: int| l0.len() <= i < l2.len() implies call_accepted(#[trigger] l2[i]) by {
            if i < l1.len() {
                assert(l2[i] == l1[i]);
            }
        }
    }
}

/// One more call was recorded.
pub(crate) proof fn lemma_register_record(
    h0: ExtensionRuntimeHandle,
    h: ExtensionRuntimeHandle,
    l0: Seq<HostCall>,
    l: Seq<HostCall>,
    c: HostCall,
)
    requires
        handle_register_logged(h0, h, l0, l),
    ensures
        handle_register_logged(h0, h, l0, l.push(c)),
        all_accepted(l0, l) && call_accepted(c) ==> all_accepted(l0, l.push(c)),
{
    assert(l.is_prefix_of(l.push(c)));
    lemma_prefix_trans(l0, l, l.push(c));
    lemma_log_grows(l, l.push(c));
    if all_accepted(l0, l) && call_accepted(c) {
        assert forall|i: int| l0.len() <= i < l.push(c).len() implies call_accepted(#[trigger] l.push(c)[i]) by {
            if i < l.len() {
                assert(l.push(c)[i] == l[i]);
            }
        }
    }
}

/// One resource the host accepted was recorded.
pub(crate) proof fn lemma_register_push(
    h0: ExtensionRuntimeHandle,
    prev: ExtensionRuntimeHandle,
    next: ExtensionRuntimeHandle,
    kind: ResourceKind,
    s: Seq<char>,
    l0: Seq<HostCall>,
    l: Seq<HostCall>,
)
    requires
        handle_register_logged(h0, prev, l0, l),
        registered_in(l, kind, s),
        handle_subjects(next, kind) == handle_subjects(prev, kind).push(s),
        forall|k: ResourceKind| k != kind ==> #[trigger] handle_subjects(next, k) == handle_subjects(prev, k),
    ensures
        handle_register_logged(h0, next, l0, l),
{
    assert forall|k: ResourceKind, x: Seq<char>|
        k != ResourceKind::ToolServer && #[trigger] handle_subjects(next, k).contains(x) && !handle_subjects(
            h0,
            k,
        ).contains(x) implies registered_in(l, k, x) by {
        if k != kind {
            assert(handle_subjects(next, k) == handle_subjects(prev, k));
        } else if x != s {
            let i = choose|i: int| 0 <= i < handle_subjects(next, k).len() && handle_subjects(next, k)[i] == x;
            assert(handle_subjects(prev, k)[i] == x);
            assert(handle_subjects(prev, k).contains(x));
        } else {
            assert(registered_in(l, kind, s));
        }
    }
}

/// One list of the handle, of `kind`, grew only by resources its host
/// accepted, and nothing else changed.
pub(crate) proof fn lemma_register_lift(
    h1: ExtensionRuntimeHandle,
    h2: ExtensionRuntimeHandle,
    kind: ResourceKind,
    l1: Seq<HostCall>,
    l2: Seq<HostCall>,
)
    requires
        l1.is_prefix_of(l2),
        forall|s: Seq<char>|
            #[trigger] handle_subjects(h2, kind).contains(s) && !handle_subjects(h1, kind).contains(s) ==> registered_in(
                l2,
                kind,
                s,
            ),
        forall|k: ResourceKind| k != kind ==> #[trigger] handle_subjects(h2, k) == handle_subjects(h1, k),
    ensures
        handle_register_logged(h1, h2, l1, l2),
{
    assert forall|k: ResourceKind, x: Seq<char>|
        k != ResourceKind::ToolServer && #[trigger] handle_subjects(h2, k).contains(x) && !handle_subjects(
            h1,
            k,
        ).contains(x) implies registered_in(l2, k, x) by {
        if k != kind {
            assert(handle_subjects(h2, k) == handle_subjects(h1, k));
        }
    }
}

/// The tool server id was recorded; it needs no call of its own.
pub(crate) proof fn lemma_register_tool_server(
    h0: ExtensionRuntimeHandle,
    prev: ExtensionRuntimeHandle,
    next: ExtensionRuntimeHandle,
    l0: Seq<HostCall>,
    l: Seq<HostCall>,
)
    requires
        handle_register_logged(h0, prev, l0, l),
        forall|k: ResourceKind| k != ResourceKind::ToolServer ==> #[trigger] handle_subjects(next, k) == handle_subjects(prev, k),
    ensures
        handle_register_logged(h0, next, l0, l),
{
    assert forall|k: ResourceKind, x: Seq<char>|
        k != ResourceKind::ToolServer && #[trigger] handle_subjects(next, k).contains(x) && !handle_subjects(
            h0,
            k,
        ).contains(x) implies registered_in(l, k, x) by {
        assert(handle_subjects(next, k) == handle_subjects(prev, k));
    }
}

/// A release registers nothing.
pub(crate) proof fn lemma_register_after_release(
    h1: ExtensionRuntimeHandle,
    h2: ExtensionRuntimeHandle,
    p: HostsPresent,
    e1: Seq<CleanupError>,
    e2: Seq<CleanupError>,
    l1: Seq<HostCall>,
    l2: Seq<HostCall>,
)
    requires
        handle_release_logged(h1, h2, p, e1, e2, l1, l2),
    ensures
        handle_register_logged(h1, h2, l1, l2),
{
}

// ---------------------------------------------------------------------------
// Releasing lists of ids
// ---------------------------------------------------------------------------

/// Removes every copy of `x`.
pub fn remove_all(v: &mut Vec<String>, x: &str)
    ensures
        forall|k: int| 0 <= k < final(v)@.len() ==> #[trigger] final(v)@[k]@ != x@,
        forall|k: int| 0 <= k < final(v)@.len() ==> views(old(v)@).contains(#[trigger] final(v)@[k]@),
        forall|j: int|
            0 <= j < old(v)@.len() && #[trigger] old(v)@[j]@ != x@ ==> views(final(v)@).contains(
                old(v)@[j]@,
            ),
{
    let ghost before = v@;
    let mut out: Vec<String> = Vec::new();
    let n = v.len();
    for i in 0..n
        invariant
            n == v@.len(),
            v@ == before,
            forall|k: int| 0 <= k < out@.len() ==> #[trigger] out@[k]@ != x@,
            forall|k: int|
                0 <= k < out@.len() ==> views(before).contains(#[trigger] out@[k]@),
            forall|j: int|
                0 <= j < i && #[trigger] before[j]@ != x@ ==> views(out@).contains(before[j]@),
    {
        if !str_eq(v[i as usize].as_str(), x) {
            let ghost prev = out@;
            out.push(v[i as usize].clone());
            proof {
                assert(views(before)[i as int] == before[i as int]@);
                assert forall|j: int|
                    0 <= j < i + 1 && #[trigger] before[j]@ != x@ implies views(out@).contains(
                    before[j]@,
                ) by {
                    if j < i {
                        let w = choose|w: int| 0 <= w < views(prev).len() && #[trigger] views(prev)[w] == before[j]@;
                        assert(views(out@)[w] == before[j]@);
                    } else {
                        assert(views(out@)[out@.len() - 1] == before[j]@);
                    }
                }
            }
        }
    }
    *v = out;
}

/// Something that releases one resource by id.
trait Release {
    fn release(&self, id: &str) -> Result<(), String>;
}

struct ValidationRelease<'a, V: ?Sized> {
    port: &'a V,
    owner: &'a str,
}

impl<'a, V: ProviderValidationPort + ?Sized> Release for ValidationRelease<'a, V> {
    fn release(&self, id: &str) -> Result<(), String> {
        self.port.unregister(self.owner, id)
    }
}

struct CapabilityRelease<'a, G: ?Sized> {
    port: &'a G,
}

impl<'a, G: GatewayCapabilityPort + ?Sized> Release for CapabilityRelease<'a, G> {
    fn release(&self, id: &str) -> Result<(), String> {
        self.port.remove_provider_capabilities(id)
    }
}

struct ProviderRelease<'a, G: ?Sized> {
    port: &'a G,
}

impl<'a, G: GatewayCapabilityPort + ?Sized> Release for ProviderRelease<'a, G> {
    fn release(&self, id: &str) -> Result<(), String> {
        self.port.remove_provider(id)
    }
}

struct ToolServerRelease<'a, M: ?Sized> {
    port: &'a M,
}

impl<'a, M: McpCapabilityPort + ?Sized> Release for ToolServerRelease<'a, M> {
    fn release(&self, id: &str) -> Result<(), String> {
        match self.port.unregister_server_tools(id) {
            Ok(_) => Ok(()),
            Err(e) => Err(e),
        }
    }
}

struct McpServerRelease<'a, M: ?Sized> {
    port: &'a M,
}

impl<'a, M: McpCapabilityPort + ?Sized> Release for McpServerRelease<'a, M> {
    fn release(&self, id: &str) -> Result<(), String> {
        self.port.remove_server(id)
    }
}

struct SkillRelease<'a, S: ?Sized> {
    port: &'a S,
    owner: &'a str,
}

impl<'a, S: SkillHostPort + ?Sized> Release for SkillRelease<'a, S> {
    fn release(&self, id: &str) -> Result<(), String> {
        self.port.unregister_extension_skill(self.owner, id)
    }
}

struct LanguageRelease<'a, L: ?Sized> {
    port: &'a L,
    owner: &'a str,
}

impl<'a, L: LspCapabilityPort + ?Sized> Release for LanguageRelease<'a, L> {
    fn release(&self, id: &str) -> Result<(), String> {
        self.port.unregister_language(id, self.owner)
    }
}

/// Releases the ids of `ids`, last first. An id leaves the list when its
/// release succeeds; a failed release stays listed and is reported.
fn release_ids<R: Release>(
    r: &R,
    kind: ResourceKind,
    ids: &mut Vec<String>,
    errors: &mut Vec<CleanupError>,
    log: &mut HostCallLog,
)
    ensures
        released_or_reported(old(ids)@, final(ids)@, final(errors)@, kind),
        old(errors)@.is_prefix_of(final(errors)@),
        list_release_logged(
            views(old(ids)@),
            views(final(ids)@),
            kind,
            old(errors)@,
            final(errors)@,
            old(log).calls(),
            final(log).calls(),
        ),
{
    let snapshot = crate::gateway::clone_strings(ids);
    let ghost before = ids@;
    let ghost errs0 = errors@;
    let ghost log0 = log.calls();
    let mut i = snapshot.len();
    proof {
        assert(snapshot@.take(i as int) =~= snapshot@);
        assert forall|k: int| 0 <= k < ids@.len() implies views(before).contains(#[trigger] ids@[k]@) by {
            assert(views(before)[k] == ids@[k]@);
        }
        assert forall|k: int| 0 <= k < ids@.len() implies views(snapshot@.take(i as int)).contains(
            #[trigger] ids@[k]@,
        ) by {
            assert(views(before)[k] == ids@[k]@);
        }
    }
    while i > 0
        invariant
            i <= snapshot@.len(),
            views(snapshot@) == views(before),
            errs0.is_prefix_of(errors@),
            forall|k: int| 0 <= k < ids@.len() ==> views(before).contains(#[trigger] ids@[k]@),
            forall|k: int|
                0 <= k < ids@.len() ==> views(snapshot@.take(i as int)).contains(#[trigger] ids@[k]@)
                    || reported(errors@, kind, ids@[k]@),
            log0.is_prefix_of(log.calls()),
            forall|s: Seq<char>|
                #[trigger] views(before).contains(s) && !views(ids@).contains(s) ==> released_in(log.calls(), kind, s),
            forall|k: int|
                errs0.len() <= k < errors@.len() ==> (#[trigger] errors@[k]).kind == CleanupErrorKind::Release(kind)
                    && views(before).contains(errors@[k].subject@) && refused_release_in(
                    log.calls(),
                    kind,
                    errors@[k].subject@,
                ),
            forall|k: int| log0.len() <= k < log.calls().len() ==> release_of(#[trigger] log.calls()[k], kind, views(before)),
        decreases i,
    {
        i = i - 1;
        let id = snapshot[i].as_str();
        let ghost pre_ids = ids@;
        let ghost pre_errs = errors@;
        let ghost pre_log = log.calls();
        let answer = r.release(id);
        proof {
            assert(views(snapshot@)[i as int] == id@);
            assert(views(before).contains(id@));
        }
        log.record(Ghost(HostCall::Release { kind, subject: id@, accepted: answer is Ok }));
        proof {
            lemma_log_grows(pre_log, log.calls());
            assert(log.calls()[log.calls().len() - 1] == HostCall::Release { kind, subject: id@, accepted: answer is Ok });
            assert forall|k: int| log0.len() <= k < log.calls().len() implies release_of(#[trigger] log.calls()[k], kind, views(before)) by {
                if k < pre_log.len() {
                    assert(log.calls()[k] == pre_log[k]);
                }
            }
            assert forall|k: int| errs0.len() <= k < errors@.len() implies (#[trigger] errors@[k]).kind
                == CleanupErrorKind::Release(kind) && views(before).contains(errors@[k].subject@) && refused_release_in(
                log.calls(),
                kind,
                errors@[k].subject@,
            ) by {
                assert(refused_release_in(pre_log, kind, errors@[k].subject@));
            }
        }
        match answer {
            Ok(()) => {
                remove_all(ids, id);
                proof {
                    assert(released_in(log.calls(), kind, id@));
                    assert forall|s: Seq<char>|
                        #[trigger] views(before).contains(s) && !views(ids@).contains(s) implies released_in(
                        log.calls(),
                        kind,
                        s,
                    ) by {
                        if s != id@ && views(pre_ids).contains(s) {
                            let w = choose|w: int| 0 <= w < views(pre_ids).len() && views(pre_ids)[w] == s;
                            assert(pre_ids[w]@ == s);
                        } else if s != id@ {
                            assert(released_in(pre_log, kind, s));
                        }
                    }
                    assert forall|k: int| 0 <= k < ids@.len() implies views(snapshot@.take(i as int)).contains(
                        #[trigger] ids@[k]@,
                    ) || reported(errors@, kind, ids@[k]@) by {
                        let w = choose|w: int| 0 <= w < views(pre_ids).len() && #[trigger] views(pre_ids)[w] == ids@[k]@;
                        assert(pre_ids[w]@ == ids@[k]@);
                        if views(snapshot@.take(i + 1)).contains(pre_ids[w]@) {
                            let u = choose|u: int|
                                0 <= u < views(snapshot@.take(i + 1)).len() && #[trigger] views(snapshot@.take(i + 1))[u] == pre_ids[w]@;
                            assert(u != i);
                            assert(views(snapshot@.take(i as int))[u] == ids@[k]@);
                        }
                    }
                }
            },
            Err(e) => {
                errors.push(CleanupError { kind: CleanupErrorKind::Release(kind), subject: owned(id), detail: e });
                proof {
                    assert(errors@[errors@.len() - 1].kind == CleanupErrorKind::Release(kind));
                    assert(refused_release_in(log.calls(), kind, id@));
                    assert forall|k: int| errs0.len() <= k < errors@.len() implies (#[trigger] errors@[k]).kind
                        == CleanupErrorKind::Release(kind) && views(before).contains(errors@[k].subject@)
                        && refused_release_in(log.calls(), kind, errors@[k].subject@) by {
                        if k < pre_errs.len() {
                            assert(errors@[k] == pre_errs[k]);
                        }
                    }
                    assert forall|s: Seq<char>|
                        #[trigger] views(before).contains(s) && !views(ids@).contains(s) implies released_in(
                        log.calls(),
                        kind,
                        s,
                    ) by {
                        assert(released_in(pre_log, kind, s));
                    }
                    assert forall|k: int| 0 <= k < ids@.len() implies views(snapshot@.take(i as int)).contains(
                        #[trigger] ids@[k]@,
                    ) || reported(errors@, kind, ids@[k]@) by {
                        if reported(pre_errs, kind, ids@[k]@) {
                            let u = choose|u: int| 0 <= u < pre_errs.len() && #[trigger] pre_errs[u].kind == CleanupErrorKind::Release(kind)
                                && pre_errs[u].subject@ == ids@[k]@;
                            assert(errors@[u] == pre_errs[u]);
                        } else if views(snapshot@.take(i + 1)).contains(ids@[k]@) {
                            let u = choose|u: int|
                                0 <= u < views(snapshot@.take(i + 1)).len() && #[trigger] views(snapshot@.take(i + 1))[u] == ids@[k]@;
                            if u == i {
                                assert(errors@[errors@.len() - 1].subject@ == ids@[k]@);
                            } else {
                                assert(views(snapshot@.take(i as int))[u] == ids@[k]@);
                            }
                        }
                    }
                }
            },
        }
    }
    proof {
        assert forall|k: int| 0 <= k < ids@.len() implies reported(errors@, kind, #[trigger] ids@[k]@) by {
            assert(views(snapshot@.take(0)).len() == 0);
        }
    }
}

// ---------------------------------------------------------------------------
// Protocols and tool overrides
// ---------------------------------------------------------------------------

/// The name a protocol is reported under.
pub open spec fn protocol_label(p: ProtocolView) -> Seq<char> {
    match p {
        ProtocolView::ChatCompletions => "chat_completions"@,
        ProtocolView::Responses => "responses"@,
        ProtocolView::Custom(id) => id,
    }
}

/// Whether two protocols are the same protocol.
pub fn protocol_eq(a: &ApiProtocol, b: &ApiProtocol) -> (r: bool)
    ensures
        r == (a@ == b@),
{
    match (a, b) {
        (ApiProtocol::ChatCompletions, ApiProtocol::ChatCompletions) => true,
        (ApiProtocol::Responses, ApiProtocol::Responses) => true,
        (ApiProtocol::Custom(x), ApiProtocol::Custom(y)) => str_eq(x.as_str(), y.as_str()),
        _ => false,
    }
}

/// The protocols of a list, as values.
pub open spec fn protocol_views(v: Seq<ApiProtocol>) -> Seq<ProtocolView> {
    v.map_values(|p: ApiProtocol| p@)
}

/// Release of the protocol list went as it must.
pub open spec fn protocols_released_or_reported(
    before: Seq<ApiProtocol>,
    after: Seq<ApiProtocol>,
    errs: Seq<CleanupError>,
) -> bool {
    &&& forall|k: int| 0 <= k < after.len() ==> protocol_views(before).contains(#[trigger] after[k]@)
    &&& forall|k: int|
        0 <= k < after.len() ==> reported(errs, ResourceKind::Protocol, protocol_label(#[trigger] after[k]@))
}

/// The names the protocols of a list are reported under, in order.
pub open spec fn protocol_subjects(v: Seq<ApiProtocol>) -> Seq<Seq<char>> {
    protocol_views(v).map_values(|p: ProtocolView| protocol_label(p))
}

/// Removes every copy of protocol `x`.
fn remove_protocol(v: &mut Vec<ApiProtocol>, x: &ApiProtocol)
    ensures
        forall|k: int| 0 <= k < final(v)@.len() ==> #[trigger] final(v)@[k]@ != x@,
        forall|k: int|
            0 <= k < final(v)@.len() ==> protocol_views(old(v)@).contains(#[trigger] final(v)@[k]@),
        forall|j: int|
            0 <= j < old(v)@.len() && #[trigger] old(v)@[j]@ != x@ ==> protocol_views(final(v)@).contains(
                old(v)@[j]@,
            ),
{
    let ghost before = v@;
    let mut out: Vec<ApiProtocol> = Vec::new();
    let n = v.len();
    for i in 0..n
        invariant
            n == v@.len(),
            v@ == before,
            forall|k: int| 0 <= k < out@.len() ==> #[trigger] out@[k]@ != x@,
            forall|k: int| 0 <= k < out@.len() ==> protocol_views(before).contains(#[trigger] out@[k]@),
            forall|j: int|
                0 <= j < i && #[trigger] before[j]@ != x@ ==> protocol_views(out@).contains(before[j]@),
    {
        if !protocol_eq(&v[i as usize], x) {
            let ghost prev = out@;
            out.push(v[i as usize].duplicate());
            proof {
                assert(protocol_views(before)[i as int] == before[i as int]@);
                assert forall|j: int|
                    0 <= j < i + 1 && #[trigger] before[j]@ != x@ implies protocol_views(out@).contains(
                    before[j]@,
                ) by {
                    if j < i {
                        let w = choose|w: int|
                            0 <= w < protocol_views(prev).len() && #[trigger] protocol_views(prev)[w] == before[j]@;
                        assert(out@[w] == prev[w]);
                        assert(protocol_views(out@)[w] == before[j]@);
                    } else {
                        assert(protocol_views(out@)[out@.len() - 1] == before[j]@);
                    }
                }
            }
        }
    }
    *v = out;
}

/// Releases the protocols of `protocols` on behalf of `owner`, last first.
fn release_protocols<G: GatewayCapabilityPort + ?Sized>(
    gateway: &G,
    owner: &str,
    protocols: &mut Vec<ApiProtocol>,
    errors: &mut Vec<CleanupError>,
    log: &mut HostCallLog,
)
    ensures
        protocols_released_or_reported(old(protocols)@, final(protocols)@, final(errors)@),
        old(errors)@.is_prefix_of(final(errors)@),
        list_release_logged(
            protocol_subjects(old(protocols)@),
            protocol_subjects(final(protocols)@),
            ResourceKind::Protocol,
            old(errors)@,
            final(errors)@,
            old(log).calls(),
            final(log).calls(),
        ),
{
    let mut snapshot: Vec<ApiProtocol> = Vec::new();
    let n = protocols.len();
    for j in 0..n
        invariant
            n == protocols@.len(),
            protocol_views(snapshot@) == protocol_views(protocols@.take(j as int)),
    {
        let ghost prev = snapshot@;
        snapshot.push(protocols[j as usize].duplicate());
        proof {
            assert(protocol_views(prev).len() == prev.len());
            assert(protocol_views(protocols@.take(j as int)).len() == j);
            assert(snapshot@ == prev.push(snapshot@[j as int]));
            assert forall|k: int| 0 <= k < j + 1 implies #[trigger] protocol_views(snapshot@)[k]
                == protocol_views(protocols@.take(j + 1))[k] by {
                if k < j {
                    assert(protocol_views(prev)[k] == protocol_views(protocols@.take(j as int))[k]);
                    assert(snapshot@[k] == prev[k]);
                }
            }
            assert(protocol_views(snapshot@) =~= protocol_views(protocols@.take(j + 1)));
        }
    }
    proof {
        assert(protocols@.take(n as int) =~= protocols@);
    }
    let ghost before = protocols@;
    let ghost errs0 = errors@;
    let ghost log0 = log.calls();
    let ghost subjects = protocol_subjects(before);
    let mut i = snapshot.len();
    proof {
        assert(snapshot@.take(i as int) =~= snapshot@);
        assert forall|k: int| 0 <= k < protocols@.len() implies protocol_views(before).contains(
            #[trigger] protocols@[k]@,
        ) by {
            assert(protocol_views(before)[k] == protocols@[k]@);
        }
        assert forall|k: int| 0 <= k < protocols@.len() implies protocol_views(snapshot@.take(i as int)).contains(
            #[trigger] protocols@[k]@,
        ) by {
            assert(protocol_views(before)[k] == protocols@[k]@);
        }
    }
    while i > 0
        invariant
            i <= snapshot@.len(),
            protocol_views(snapshot@) == protocol_views(before),
            errs0.is_prefix_of(errors@),
            forall|k: int|
                0 <= k < protocols@.len() ==> protocol_views(before).contains(#[trigger] protocols@[k]@),
            forall|k: int|
                0 <= k < protocols@.len() ==> protocol_views(snapshot@.take(i as int)).contains(
                    #[trigger] protocols@[k]@,
                ) || reported(errors@, ResourceKind::Protocol, protocol_label(protocols@[k]@)),
            subjects == protocol_subjects(before),
            log0.is_prefix_of(log.calls()),
            forall|s: Seq<char>|
                #[trigger] subjects.contains(s) && !protocol_subjects(protocols@).contains(s) ==> released_in(
                    log.calls(),
                    ResourceKind::Protocol,
                    s,
                ),
            forall|k: int|
                errs0.len() <= k < errors@.len() ==> (#[trigger] errors@[k]).kind == CleanupErrorKind::Release(
                    ResourceKind::Protocol,
                ) && subjects.contains(errors@[k].subject@) && refused_release_in(
                    log.calls(),
                    ResourceKind::Protocol,
                    errors@[k].subject@,
                ),
            forall|k: int|
                log0.len() <= k < log.calls().len() ==> release_of(#[trigger] log.calls()[k], ResourceKind::Protocol, subjects),
        decreases i,
    {
        i = i - 1;
        let p = &snapshot[i];
        let ghost pre = protocols@;
        let ghost pre_errs = errors@;
        let ghost pre_log = log.calls();
        let ghost label = protocol_label(p@);
        let answer = gateway.release_protocol(owner, p);
        proof {
            assert(protocol_views(snapshot@)[i as int] == p@);
            assert(protocol_views(before)[i as int] == p@);
            assert(subjects[i as int] == label);
        }
        log.record(Ghost(HostCall::Release { kind: ResourceKind::Protocol, subject: label, accepted: answer is Ok }));
        proof {
            lemma_log_grows(pre_log, log.calls());
            assert(log.calls()[log.calls().len() - 1] == HostCall::Release {
                kind: ResourceKind::Protocol,
                subject: label,
                accepted: answer is Ok,
            });
            assert forall|k: int| log0.len() <= k < log.calls().len() implies release_of(
                #[trigger] log.calls()[k],
                ResourceKind::Protocol,
                subjects,
            ) by {
                if k < pre_log.len() {
                    assert(log.calls()[k] == pre_log[k]);
                }
            }
            assert forall|k: int| errs0.len() <= k < errors@.len() implies (#[trigger] errors@[k]).kind
                == CleanupErrorKind::Release(ResourceKind::Protocol) && subjects.contains(errors@[k].subject@)
                && refused_release_in(log.calls(), ResourceKind::Protocol, errors@[k].subject@) by {
                assert(refused_release_in(pre_log, ResourceKind::Protocol, errors@[k].subject@));
            }
        }
        match answer {
            Ok(()) => {
                remove_protocol(protocols, p);
                proof {
                    assert(released_in(log.calls(), ResourceKind::Protocol, label));
                    assert forall|s: Seq<char>|
                        #[trigger] subjects.contains(s) && !protocol_subjects(protocols@).contains(s) implies released_in(
                        log.calls(),
                        ResourceKind::Protocol,
                        s,
                    ) by {
                        if s != label {
                            if protocol_subjects(pre).contains(s) {
                                let w = choose|w: int| 0 <= w < protocol_subjects(pre).len() && protocol_subjects(pre)[w] == s;
                                assert(protocol_label(pre[w]@) == s);
                                assert(pre[w]@ != p@);
                                let u = choose|u: int|
                                    0 <= u < protocol_views(protocols@).len() && protocol_views(protocols@)[u] == pre[w]@;
                                assert(protocol_subjects(protocols@)[u] == s);
                            } else {
                                assert(released_in(pre_log, ResourceKind::Protocol, s));
                            }
                        }
                    }
                    assert forall|k: int| 0 <= k < protocols@.len() implies protocol_views(
                        snapshot@.take(i as int),
                    ).contains(#[trigger] protocols@[k]@) || reported(
                        errors@,
                        ResourceKind::Protocol,
                        protocol_label(protocols@[k]@),
                    ) by {
                        let w = choose|w: int|
                            0 <= w < protocol_views(pre).len() && #[trigger] protocol_views(pre)[w] == protocols@[k]@;
                        assert(pre[w]@ == protocols@[k]@);
                        if protocol_views(snapshot@.take(i + 1)).contains(pre[w]@) {
                            let u = choose|u: int|
                                0 <= u < protocol_views(snapshot@.take(i + 1)).len()
                                    && #[trigger] protocol_views(snapshot@.take(i + 1))[u] == pre[w]@;
                            assert(u != i);
                            assert(protocol_views(snapshot@.take(i as int))[u] == protocols@[k]@);
                        }
                    }
                }
            },
            Err(e) => {
                errors.push(
                    CleanupError {
                        kind: CleanupErrorKind::Release(ResourceKind::Protocol),
                        subject: owned(p.as_str()),
                        detail: e,
                    },
                );
                proof {
                    assert(errors@[errors@.len() - 1].kind == CleanupErrorKind::Release(ResourceKind::Protocol));
                    assert(errors@[errors@.len() - 1].subject@ == label);
                    assert(refused_release_in(log.calls(), ResourceKind::Protocol, label));
                    assert forall|k: int| errs0.len() <= k < errors@.len() implies (#[trigger] errors@[k]).kind
                        == CleanupErrorKind::Release(ResourceKind::Protocol) && subjects.contains(errors@[k].subject@)
                        && refused_release_in(log.calls(), ResourceKind::Protocol, errors@[k].subject@) by {
                        if k < pre_errs.len() {
                            assert(errors@[k] == pre_errs[k]);
                        }
                    }
                    assert forall|s: Seq<char>|
                        #[trigger] subjects.contains(s) && !protocol_subjects(protocols@).contains(s) implies released_in(
                        log.calls(),
                        ResourceKind::Protocol,
                        s,
                    ) by {
                        assert(released_in(pre_log, ResourceKind::Protocol, s));
                    }
                    assert forall|k: int| 0 <= k < protocols@.len() implies protocol_views(
                        snapshot@.take(i as int),
                    ).contains(#[trigger] protocols@[k]@) || reported(
                        errors@,
                        ResourceKind::Protocol,
                        protocol_label(protocols@[k]@),
                    ) by {
                        let l = protocol_label(protocols@[k]@);
                        if reported(pre_errs, ResourceKind::Protocol, l) {
                            let u = choose|u: int|
                                0 <= u < pre_errs.len() && #[trigger] pre_errs[u].kind == CleanupErrorKind::Release(
                                    ResourceKind::Protocol,
                                ) && pre_errs[u].subject@ == l;
                            assert(errors@[u] == pre_errs[u]);
                        } else if protocol_views(snapshot@.take(i + 1)).contains(protocols@[k]@) {
                            let u = choose|u: int|
                                0 <= u < protocol_views(snapshot@.take(i + 1)).len()
                                    && #[trigger] protocol_views(snapshot@.take(i + 1))[u] == protocols@[k]@;
                            if u == i {
                                assert(errors@[errors@.len() - 1].subject@ == l);
                            } else {
                                assert(protocol_views(snapshot@.take(i as int))[u] == protocols@[k]@);
                            }
                        }
                    }
                }
            },
        }
    }
    proof {
        assert(protocol_views(snapshot@.take(0)).len() == 0);
        assert forall|s: Seq<char>| #[trigger] protocol_subjects(protocols@).contains(s) implies subjects.contains(s) by {
            let u = choose|u: int| 0 <= u < protocol_subjects(protocols@).len() && protocol_subjects(protocols@)[u] == s;
            assert(protocol_views(before).contains(protocols@[u]@));
            let w = choose|w: int| 0 <= w < protocol_views(before).len() && protocol_views(before)[w] == protocols@[u]@;
            assert(subjects[w] == s);
        }
    }
}

/// A tool override as a value: its server id and tool name.
pub open spec fn override_views(v: Seq<(String, String)>) -> Seq<(Seq<char>, Seq<char>)> {
    v.map_values(|p: (String, String)| (p.0@, p.1@))
}

/// The name a tool override is reported under: `server:tool`.
pub open spec fn override_label(p: (Seq<char>, Seq<char>)) -> Seq<char> {
    p.0 + ":"@ + p.1
}

/// Release of the tool overrides went as it must.
pub open spec fn overrides_released_or_reported(
    before: Seq<(String, String)>,
    after: Seq<(String, String)>,
    errs: Seq<CleanupError>,
) -> bool {
    &&& forall|k: int|
        0 <= k < after.len() ==> override_views(before).contains(#[trigger] override_views(after)[k])
    &&& forall|k: int|
        0 <= k < after.len() ==> reported(
            errs,
            ResourceKind::ToolOverride,
            override_label(#[trigger] override_views(after)[k]),
        )
}

/// The names the tool overrides of a list are reported under, in order.
pub open spec fn override_subjects(v: Seq<(String, String)>) -> Seq<Seq<char>> {
    override_views(v).map_values(|p: (Seq<char>, Seq<char>)| override_label(p))
}

/// Removes every copy of the override `(server, tool)`.
fn remove_override(v: &mut Vec<(String, String)>, server: &str, tool: &str)
    ensures
        forall|k: int| 0 <= k < final(v)@.len() ==> #[trigger] override_views(final(v)@)[k] != (server@, tool@),
        forall|k: int|
            0 <= k < final(v)@.len() ==> override_views(old(v)@).contains(
                #[trigger] override_views(final(v)@)[k],
            ),
        forall|j: int|
            0 <= j < old(v)@.len() && #[trigger] override_views(old(v)@)[j] != (server@, tool@) ==> override_views(
                final(v)@,
            ).contains(override_views(old(v)@)[j]),
{
    let ghost before = v@;
    let mut out: Vec<(String, String)> = Vec::new();
    let n = v.len();
    for i in 0..n
        invariant
            n == v@.len(),
            v@ == before,
            forall|k: int| 0 <= k < out@.len() ==> #[trigger] override_views(out@)[k] != (server@, tool@),
            forall|k: int|
                0 <= k < out@.len() ==> override_views(before).contains(#[trigger] override_views(out@)[k]),
            forall|j: int|
                0 <= j < i && #[trigger] override_views(before)[j] != (server@, tool@) ==> override_views(out@).contains(
                    override_views(before)[j],
                ),
    {
        let (a, b) = &v[i as usize];
        if !(str_eq(a.as_str(), server) && str_eq(b.as_str(), tool)) {
            let ghost prev = out@;
            out.push((owned(a.as_str()), owned(b.as_str())));
            proof {
                assert(override_views(before)[i as int] == (a@, b@));
                assert forall|j: int|
                    0 <= j < i + 1 && #[trigger] override_views(before)[j] != (server@, tool@) implies override_views(
                    out@,
                ).contains(override_views(before)[j]) by {
                    if j < i {
                        let w = choose|w: int|
                            0 <= w < override_views(prev).len() && #[trigger] override_views(prev)[w] == override_views(before)[j];
                        assert(out@[w] == prev[w]);
                        assert(override_views(out@)[w] == override_views(before)[j]);
                    } else {
                        assert(override_views(out@)[out@.len() - 1] == override_views(before)[j]);
                    }
                }
                assert forall|k: int| 0 <= k < out@.len() implies override_views(before).contains(
                    #[trigger] override_views(out@)[k],
                ) && override_views(out@)[k] != (server@, tool@) by {
                    if k < prev.len() {
                        assert(out@[k] == prev[k]);
                        assert(override_views(out@)[k] == override_views(prev)[k]);
                    }
                }
            }
        }
    }
    *v = out;
}

/// Removes the tool overrides of `overrides` on behalf of `owner`, last first.
fn release_overrides<M: McpCapabilityPort + ?Sized>(
    mcp: &M,
    owner: &str,
    overrides: &mut Vec<(String, String)>,
    errors: &mut Vec<CleanupError>,
    log: &mut HostCallLog,
)
    ensures
        overrides_released_or_reported(old(overrides)@, final(overrides)@, final(errors)@),
        old(errors)@.is_prefix_of(final(errors)@),
        list_release_logged(
            override_subjects(old(overrides)@),
            override_subjects(final(overrides)@),
            ResourceKind::ToolOverride,
            old(errors)@,
            final(errors)@,
            old(log).calls(),
            final(log).calls(),
        ),
{
    let mut snapshot: Vec<(String, String)> = Vec::new();
    let n = overrides.len();
    for j in 0..n
        invariant
            n == overrides@.len(),
            override_views(snapshot@) == override_views(overrides@.take(j as int)),
    {
        let ghost prev = snapshot@;
        let (a, b) = &overrides[j as usize];
        snapshot.push((owned(a.as_str()), owned(b.as_str())));
        proof {
            assert(override_views(prev).len() == prev.len());
            assert(override_views(overrides@.take(j as int)).len() == j);
            assert(snapshot@ == prev.push(snapshot@[j as int]));
            assert forall|k: int| 0 <= k < j + 1 implies #[trigger] override_views(snapshot@)[k]
                == override_views(overrides@.take(j + 1))[k] by {
                if k < j {
                    assert(override_views(prev)[k] == override_views(overrides@.take(j as int))[k]);
                    assert(snapshot@[k] == prev[k]);
                }
            }
            assert(override_views(snapshot@) =~= override_views(overrides@.take(j + 1)));
        }
    }
    proof {
        assert(overrides@.take(n as int) =~= overrides@);
    }
    let ghost before = overrides@;
    let ghost errs0 = errors@;
    let ghost log0 = log.calls();
    let ghost subjects = override_subjects(before);
    let mut i = snapshot.len();
    proof {
        assert(snapshot@.take(i as int) =~= snapshot@);
    }
    while i > 0
        invariant
            i <= snapshot@.len(),
            override_views(snapshot@) == override_views(before),
            errs0.is_prefix_of(errors@),
            forall|k: int|
                0 <= k < overrides@.len() ==> override_views(before).contains(
                    #[trigger] override_views(overrides@)[k],
                ),
            forall|k: int|
                0 <= k < overrides@.len() ==> override_views(snapshot@.take(i as int)).contains(
                    #[trigger] override_views(overrides@)[k],
                ) || reported(
                    errors@,
                    ResourceKind::ToolOverride,
                    override_label(override_views(overrides@)[k]),
                ),
            subjects == override_subjects(before),
            log0.is_prefix_of(log.calls()),
            forall|s: Seq<char>|
                #[trigger] subjects.contains(s) && !override_subjects(overrides@).contains(s) ==> released_in(
                    log.calls(),
                    ResourceKind::ToolOverride,
                    s,
                ),
            forall|k: int|
                errs0.len() <= k < errors@.len() ==> (#[trigger] errors@[k]).kind == CleanupErrorKind::Release(
                    ResourceKind::ToolOverride,
                ) && subjects.contains(errors@[k].subject@) && refused_release_in(
                    log.calls(),
                    ResourceKind::ToolOverride,
                    errors@[k].subject@,
                ),
            forall|k: int|
                log0.len() <= k < log.calls().len() ==> release_of(
                    #[trigger] log.calls()[k],
                    ResourceKind::ToolOverride,
                    subjects,
                ),
        decreases i,
    {
        i = i - 1;
        let (server, tool) = &snapshot[i];
        let ghost pre = overrides@;
        let ghost pre_errs = errors@;
        let ghost pre_log = log.calls();
        let ghost target = override_views(snapshot@)[i as int];
        let ghost label = override_label(target);
        let answer = mcp.remove_tool_override(owner, server.as_str(), tool.as_str());
        proof {
            assert(override_views(before)[i as int] == target);
            assert(subjects[i as int] == label);
        }
        log.record(Ghost(HostCall::Release { kind: ResourceKind::ToolOverride, subject: label, accepted: answer is Ok }));
        proof {
            lemma_log_grows(pre_log, log.calls());
            assert(log.calls()[log.calls().len() - 1] == HostCall::Release {
                kind: ResourceKind::ToolOverride,
                subject: label,
                accepted: answer is Ok,
            });
            assert forall|k: int| log0.len() <= k < log.calls().len() implies release_of(
                #[trigger] log.calls()[k],
                ResourceKind::ToolOverride,
                subjects,
            ) by {
                if k < pre_log.len() {
                    assert(log.calls()[k] == pre_log[k]);
                }
            }
            assert forall|k: int| errs0.len() <= k < errors@.len() implies (#[trigger] errors@[k]).kind
                == CleanupErrorKind::Release(ResourceKind::ToolOverride) && subjects.contains(errors@[k].subject@)
                && refused_release_in(log.calls(), ResourceKind::ToolOverride, errors@[k].subject@) by {
                assert(refused_release_in(pre_log, ResourceKind::ToolOverride, errors@[k].subject@));
            }
        }
        match answer {
            Ok(()) => {
                remove_override(overrides, server.as_str(), tool.as_str());
                proof {
                    assert(released_in(log.calls(), ResourceKind::ToolOverride, label));
                    assert forall|s: Seq<char>|
                        #[trigger] subjects.contains(s) && !override_subjects(overrides@).contains(s) implies released_in(
                        log.calls(),
                        ResourceKind::ToolOverride,
                        s,
                    ) by {
                        if s != label {
                            if override_subjects(pre).contains(s) {
                                let w = choose|w: int| 0 <= w < override_subjects(pre).len() && override_subjects(pre)[w] == s;
                                assert(override_label(override_views(pre)[w]) == s);
                                assert(override_views(pre)[w] != target);
                                let u = choose|u: int|
                                    0 <= u < override_views(overrides@).len() && override_views(overrides@)[u]
                                        == override_views(pre)[w];
                                assert(override_subjects(overrides@)[u] == s);
                            } else {
                                assert(released_in(pre_log, ResourceKind::ToolOverride, s));
                            }
                        }
                    }
                    assert forall|k: int| 0 <= k < overrides@.len() implies override_views(
                        snapshot@.take(i as int),
                    ).contains(#[trigger] override_views(overrides@)[k]) || reported(
                        errors@,
                        ResourceKind::ToolOverride,
                        override_label(override_views(overrides@)[k]),
                    ) by {
                        let x = override_views(overrides@)[k];
                        let w = choose|w: int|
                            0 <= w < override_views(pre).len() && #[trigger] override_views(pre)[w] == x;
                        if override_views(snapshot@.take(i + 1)).contains(x) {
                            let u = choose|u: int|
                                0 <= u < override_views(snapshot@.take(i + 1)).len()
                                    && #[trigger] override_views(snapshot@.take(i + 1))[u] == x;
                            assert(override_views(snapshot@.take(i + 1))[u] == override_views(snapshot@)[u]);
                            assert(u != i);
                            assert(override_views(snapshot@.take(i as int))[u] == x);
                        }
                    }
                }
            },
            Err(e) => {
                errors.push(
                    CleanupError {
                        kind: CleanupErrorKind::Release(ResourceKind::ToolOverride),
                        subject: concat3(server.as_str(), ":", tool.as_str()),
                        detail: e,
                    },
                );
                proof {
                    assert(errors@[errors@.len() - 1].kind == CleanupErrorKind::Release(ResourceKind::ToolOverride));
                    assert(errors@[errors@.len() - 1].subject@ == override_label(target));
                    assert(refused_release_in(log.calls(), ResourceKind::ToolOverride, label));
                    assert forall|k: int| errs0.len() <= k < errors@.len() implies (#[trigger] errors@[k]).kind
                        == CleanupErrorKind::Release(ResourceKind::ToolOverride) && subjects.contains(errors@[k].subject@)
                        && refused_release_in(log.calls(), ResourceKind::ToolOverride, errors@[k].subject@) by {
                        if k < pre_errs.len() {
                            assert(errors@[k] == pre_errs[k]);
                        }
                    }
                    assert forall|s: Seq<char>|
                        #[trigger] subjects.contains(s) && !override_subjects(overrides@).contains(s) implies released_in(
                        log.calls(),
                        ResourceKind::ToolOverride,
                        s,
                    ) by {
                        assert(released_in(pre_log, ResourceKind::ToolOverride, s));
                    }
                    assert forall|k: int| 0 <= k < overrides@.len() implies override_views(
                        snapshot@.take(i as int),
                    ).contains(#[trigger] override_views(overrides@)[k]) || reported(
                        errors@,
                        ResourceKind::ToolOverride,
                        override_label(override_views(overrides@)[k]),
                    ) by {
                        let x = override_views(overrides@)[k];
                        let l = override_label(x);
                        if reported(pre_errs, ResourceKind::ToolOverride, l) {
                            let u = choose|u: int|
                                0 <= u < pre_errs.len() && #[trigger] pre_errs[u].kind == CleanupErrorKind::Release(
                                    ResourceKind::ToolOverride,
                                ) && pre_errs[u].subject@ == l;
                            assert(errors@[u] == pre_errs[u]);
                        } else if override_views(snapshot@.take(i + 1)).contains(x) {
                            let u = choose|u: int|
                                0 <= u < override_views(snapshot@.take(i + 1)).len()
                                    && #[trigger] override_views(snapshot@.take(i + 1))[u] == x;
                            assert(override_views(snapshot@.take(i + 1))[u] == override_views(snapshot@)[u]);
                            if u == i {
                                assert(errors@[errors@.len() - 1].subject@ == l);
                            } else {
                                assert(override_views(snapshot@.take(i as int))[u] == x);
                            }
                        }
                    }
                }
            },
        }
    }
    proof {
        assert(override_views(snapshot@.take(0)).len() == 0);
        assert forall|s: Seq<char>| #[trigger] override_subjects(overrides@).contains(s) implies subjects.contains(s) by {
            let u = choose|u: int| 0 <= u < override_subjects(overrides@).len() && override_subjects(overrides@)[u] == s;
            assert(override_views(before).contains(override_views(overrides@)[u]));
            let w = choose|w: int| 0 <= w < override_views(before).len() && override_views(before)[w] == override_views(overrides@)[u];
            assert(subjects[w] == s);
        }
    }
}

// ---------------------------------------------------------------------------
// Releasing a handle
// ---------------------------------------------------------------------------

/// A report stays a report when more errors are appended.
proof fn lemma_reported_grows(a: Seq<CleanupError>, b: Seq<CleanupError>, kind: ResourceKind, id: Seq<char>)
    requires
        a.is_prefix_of(b),
        reported(a, kind, id),
    ensures
        reported(b, kind, id),
{
    let u = choose|u: int| 0 <= u < a.len() && #[trigger] a[u].kind == CleanupErrorKind::Release(kind) && a[u].subject@ == id;
    assert(b[u] == a[u]);
}

proof fn lemma_released_grows(
    before: Seq<String>,
    after: Seq<String>,
    a: Seq<CleanupError>,
    b: Seq<CleanupError>,
    kind: ResourceKind,
)
    requires
        a.is_prefix_of(b),
        released_or_reported(before, after, a, kind),
    ensures
        released_or_reported(before, after, b, kind),
{
    assert forall|k: int| 0 <= k < after.len() implies reported(b, kind, #[trigger] after[k]@) by {
        lemma_reported_grows(a, b, kind, after[k]@);
    }
}

proof fn lemma_protocols_released_grows(
    before: Seq<ApiProtocol>,
    after: Seq<ApiProtocol>,
    a: Seq<CleanupError>,
    b: Seq<CleanupError>,
)
    requires
        a.is_prefix_of(b),
        protocols_released_or_reported(before, after, a),
    ensures
        protocols_released_or_reported(before, after, b),
{
    assert forall|k: int| 0 <= k < after.len() implies reported(
        b,
        ResourceKind::Protocol,
        protocol_label(#[trigger] after[k]@),
    ) by {
        lemma_reported_grows(a, b, ResourceKind::Protocol, protocol_label(after[k]@));
    }
}

proof fn lemma_overrides_released_grows(
    before: Seq<(String, String)>,
    after: Seq<(String, String)>,
    a: Seq<CleanupError>,
    b: Seq<CleanupError>,
)
    requires
        a.is_prefix_of(b),
        overrides_released_or_reported(before, after, a),
    ensures
        overrides_released_or_reported(before, after, b),
{
    assert forall|k: int| 0 <= k < after.len() implies reported(
        b,
        ResourceKind::ToolOverride,
        override_label(#[trigger] override_views(after)[k]),
    ) by {
        lemma_reported_grows(a, b, ResourceKind::ToolOverride, override_label(override_views(after)[k]));
    }
}

proof fn lemma_missing_grows(a: Seq<CleanupError>, b: Seq<CleanupError>, h: HostKind)
    requires
        a.is_prefix_of(b),
        reported_missing(a, h),
    ensures
        reported_missing(b, h),
{
    let u = choose|u: int| 0 <= u < a.len() && #[trigger] a[u].kind == CleanupErrorKind::HostUnavailable(h);
    assert(b[u] == a[u]);
}

/// Reports that host `h` is missing.
fn report_missing(h: HostKind, errors: &mut Vec<CleanupError>)
    ensures
        old(errors)@.is_prefix_of(final(errors)@),
        reported_missing(final(errors)@, h),
        final(errors)@.len() == old(errors)@.len() + 1,
        final(errors)@[old(errors)@.len() as int].kind == CleanupErrorKind::HostUnavailable(h),
{
    errors.push(
        CleanupError { kind: CleanupErrorKind::HostUnavailable(h), subject: String::new(), detail: String::new() },
    );
    proof {
        assert(final(errors)@[final(errors)@.len() - 1].kind == CleanupErrorKind::HostUnavailable(h));
    }
}

/// The handle's facts outside the Gateway are those of `other`.
pub open spec fn same_outside_gateway(h: ExtensionRuntimeHandle, other: ExtensionRuntimeHandle) -> bool {
    &&& h.tool_server_ids == other.tool_server_ids
    &&& h.tool_overrides == other.tool_overrides
    &&& h.mcp_servers == other.mcp_servers
    &&& h.skills == other.skills
    &&& h.languages == other.languages
    &&& h.ui_contribution_registered == other.ui_contribution_registered
    &&& h.projection == other.projection
}

/// The handle's Gateway facts are those of `other`.
pub open spec fn same_gateway(h: ExtensionRuntimeHandle, other: ExtensionRuntimeHandle) -> bool {
    &&& h.provider_ids == other.provider_ids
    &&& h.provider_capability_ids == other.provider_capability_ids
    &&& h.provider_validation_ids == other.provider_validation_ids
    &&& h.protocols == other.protocols
}

/// Releases the Gateway resources `handle` records, in reverse dependency
/// order: validation contracts, capability sources, providers, protocols.
/// What a missing host cannot release stays recorded, and the missing host
/// is reported when it had something to release.
pub fn unregister_gateway_resources<G: GatewayCapabilityPort + ?Sized, V: ProviderValidationPort + ?Sized>(
    extension_id: &str,
    handle: &mut ExtensionRuntimeHandle,
    gateway: Option<&G>,
    provider_validation: Option<&V>,
    cleanup_errors: &mut Vec<CleanupError>,
    log: &mut HostCallLog,
)
    ensures
        old(cleanup_errors)@.is_prefix_of(final(cleanup_errors)@),
        same_outside_gateway(*final(handle), *old(handle)),
        match provider_validation {
            Some(_) => released_or_reported(
                old(handle).provider_validation_ids@,
                final(handle).provider_validation_ids@,
                final(cleanup_errors)@,
                ResourceKind::ProviderValidation,
            ),
            None => final(handle).provider_validation_ids == old(handle).provider_validation_ids
                && (old(handle).provider_validation_ids@.len() > 0 ==> reported_missing(
                final(cleanup_errors)@,
                HostKind::ProviderValidation,
            )),
        },
        match gateway {
            Some(_) => released_or_reported(
                old(handle).provider_capability_ids@,
                final(handle).provider_capability_ids@,
                final(cleanup_errors)@,
                ResourceKind::ProviderCapability,
            ) && released_or_reported(
                old(handle).provider_ids@,
                final(handle).provider_ids@,
                final(cleanup_errors)@,
                ResourceKind::Provider,
            ) && protocols_released_or_reported(
                old(handle).protocols@,
                final(handle).protocols@,
                final(cleanup_errors)@,
            ),
            None => final(handle).provider_capability_ids == old(handle).provider_capability_ids
                && final(handle).provider_ids == old(handle).provider_ids && final(handle).protocols
                == old(handle).protocols && (old(handle).provider_capability_ids@.len() > 0
                || old(handle).provider_ids@.len() > 0 || old(handle).protocols@.len() > 0
                ==> reported_missing(final(cleanup_errors)@, HostKind::Gateway)),
        },
        forall|p: HostsPresent|
            p.gateway == gateway is Some && p.provider_validation == provider_validation is Some
                ==> #[trigger] handle_release_logged(
                *old(handle),
                *final(handle),
                p,
                old(cleanup_errors)@,
                final(cleanup_errors)@,
                old(log).calls(),
                final(log).calls(),
            ),
{
    let ghost h0 = *handle;
    let ghost e0 = cleanup_errors@;
    let ghost l0 = log.calls();
    match provider_validation {
        Some(v) => {
            let r = ValidationRelease { port: v, owner: extension_id };
            release_ids(&r, ResourceKind::ProviderValidation, &mut handle.provider_validation_ids, cleanup_errors, log);
        },
        None => {
            if handle.provider_validation_ids.len() > 0 {
                report_missing(HostKind::ProviderValidation, cleanup_errors);
            }
        },
    }
    let ghost h1 = *handle;
    let ghost e1 = cleanup_errors@;
    let ghost l1 = log.calls();
    proof {
        assert forall|k: ResourceKind| k != ResourceKind::ProviderValidation implies #[trigger] handle_subjects(h1, k)
            == handle_subjects(h0, k) by {}
        assert forall|p: HostsPresent|
            p.gateway == gateway is Some && p.provider_validation == provider_validation is Some implies #[trigger] handle_release_logged(
            h0,
            h1,
            p,
            e0,
            e1,
            l0,
            l1,
        ) by {
            if provider_validation is Some {
                lemma_release_lift(h0, h1, ResourceKind::ProviderValidation, p, e0, e1, l0, l1);
            } else if h0.provider_validation_ids@.len() > 0 {
                lemma_release_missing(h0, HostKind::ProviderValidation, p, e0, e1, l0);
            } else {
                lemma_release_refl(h0, p, e0, l0);
            }
        }
    }
    match gateway {
        Some(g) => {
            let r = CapabilityRelease { port: g };
            release_ids(&r, ResourceKind::ProviderCapability, &mut handle.provider_capability_ids, cleanup_errors, log);
            let ghost h2 = *handle;
            let ghost e2 = cleanup_errors@;
            let ghost l2 = log.calls();
            let r = ProviderRelease { port: g };
            release_ids(&r, ResourceKind::Provider, &mut handle.provider_ids, cleanup_errors, log);
            let ghost h3 = *handle;
            let ghost e3 = cleanup_errors@;
            let ghost l3 = log.calls();
            release_protocols(g, extension_id, &mut handle.protocols, cleanup_errors, log);
            proof {
                lemma_released_grows(
                    h0.provider_capability_ids@,
                    handle.provider_capability_ids@,
                    e2,
                    cleanup_errors@,
                    ResourceKind::ProviderCapability,
                );
                lemma_released_grows(h0.provider_ids@, handle.provider_ids@, e3, cleanup_errors@, ResourceKind::Provider);
                assert forall|k: ResourceKind| k != ResourceKind::ProviderCapability implies #[trigger] handle_subjects(h2, k)
                    == handle_subjects(h1, k) by {}
                assert forall|k: ResourceKind| k != ResourceKind::Provider implies #[trigger] handle_subjects(h3, k)
                    == handle_subjects(h2, k) by {}
                assert forall|k: ResourceKind| k != ResourceKind::Protocol implies #[trigger] handle_subjects(*handle, k)
                    == handle_subjects(h3, k) by {}
                assert forall|p: HostsPresent|
                    p.gateway == gateway is Some && p.provider_validation == provider_validation is Some implies #[trigger] handle_release_logged(
                    h0,
                    *handle,
                    p,
                    e0,
                    cleanup_errors@,
                    l0,
                    log.calls(),
                ) by {
                    lemma_release_lift(h1, h2, ResourceKind::ProviderCapability, p, e1, e2, l1, l2);
                    lemma_release_lift(h2, h3, ResourceKind::Provider, p, e2, e3, l2, l3);
                    lemma_release_lift(h3, *handle, ResourceKind::Protocol, p, e3, cleanup_errors@, l3, log.calls());
                    lemma_release_trans(h0, h1, h2, p, e0, e1, e2, l0, l1, l2);
                    lemma_release_trans(h0, h2, h3, p, e0, e2, e3, l0, l2, l3);
                    lemma_release_trans(h0, h3, *handle, p, e0, e3, cleanup_errors@, l0, l3, log.calls());
                }
            }
        },
        None => {
            if handle.provider_capability_ids.len() > 0 || handle.provider_ids.len() > 0
                || handle.protocols.len() > 0 {
                report_missing(HostKind::Gateway, cleanup_errors);
            }
            proof {
                assert forall|p: HostsPresent|
                    p.gateway == gateway is Some && p.provider_validation == provider_validation is Some implies #[trigger] handle_release_logged(
                    h0,
                    *handle,
                    p,
                    e0,
                    cleanup_errors@,
                    l0,
                    log.calls(),
                ) by {
                    if h1.provider_capability_ids@.len() > 0 || h1.provider_ids@.len() > 0 || h1.protocols@.len() > 0 {
                        lemma_release_missing(h1, HostKind::Gateway, p, e1, cleanup_errors@, l1);
                    } else {
                        lemma_release_refl(h1, p, e1, l1);
                    }
                    lemma_release_trans(h0, h1, *handle, p, e0, e1, cleanup_errors@, l0, l1, log.calls());
                }
            }
        },
    }
    proof {
        if provider_validation is Some {
            lemma_released_grows(
                h0.provider_validation_ids@,
                handle.provider_validation_ids@,
                e1,
                cleanup_errors@,
                ResourceKind::ProviderValidation,
            );
        } else if h0.provider_validation_ids@.len() > 0 {
            lemma_missing_grows(e1, cleanup_errors@, HostKind::ProviderValidation);
        }
    }
}

/// Releases the MCP, skill and language resources `handle` records, each
/// kind last first: tool overrides, tool servers, MCP servers, skills,
/// languages. What a missing host cannot release stays recorded, and the
/// missing host is reported when it had something to release.
pub fn release_host_resources<M: McpCapabilityPort + ?Sized, S: SkillHostPort + ?Sized, L: LspCapabilityPort + ?Sized>(
    extension_id: &str,
    handle: &mut ExtensionRuntimeHandle,
    mcp: Option<&M>,
    skills: Option<&S>,
    lsp: Option<&L>,
    cleanup_errors: &mut Vec<CleanupError>,
    log: &mut HostCallLog,
)
    ensures
        old(cleanup_errors)@.is_prefix_of(final(cleanup_errors)@),
        same_gateway(*final(handle), *old(handle)),
        final(handle).ui_contribution_registered == old(handle).ui_contribution_registered,
        final(handle).projection == old(handle).projection,
        match mcp {
            Some(_) => overrides_released_or_reported(
                old(handle).tool_overrides@,
                final(handle).tool_overrides@,
                final(cleanup_errors)@,
            ) && released_or_reported(
                old(handle).tool_server_ids@,
                final(handle).tool_server_ids@,
                final(cleanup_errors)@,
                ResourceKind::ToolServer,
            ) && released_or_reported(
                old(handle).mcp_servers@,
                final(handle).mcp_servers@,
                final(cleanup_errors)@,
                ResourceKind::McpServer,
            ),
            None => final(handle).tool_overrides == old(handle).tool_overrides
                && final(handle).tool_server_ids == old(handle).tool_server_ids
                && final(handle).mcp_servers == old(handle).mcp_servers && (old(handle).tool_overrides@.len()
                > 0 || old(handle).tool_server_ids@.len() > 0 || old(handle).mcp_servers@.len() > 0
                ==> reported_missing(final(cleanup_errors)@, HostKind::Mcp)),
        },
        match skills {
            Some(_) => released_or_reported(
                old(handle).skills@,
                final(handle).skills@,
                final(cleanup_errors)@,
                ResourceKind::Skill,
            ),
            None => final(handle).skills == old(handle).skills && (old(handle).skills@.len() > 0
                ==> reported_missing(final(cleanup_errors)@, HostKind::Skills)),
        },
        match lsp {
            Some(_) => released_or_reported(
                old(handle).languages@,
                final(handle).languages@,
                final(cleanup_errors)@,
                ResourceKind::Language,
            ),
            None => final(handle).languages == old(handle).languages && (old(handle).languages@.len() > 0
                ==> reported_missing(final(cleanup_errors)@, HostKind::Lsp)),
        },
        forall|p: HostsPresent|
            p.mcp == mcp is Some && p.skills == skills is Some && p.lsp == lsp is Some
                ==> #[trigger] handle_release_logged(
                *old(handle),
                *final(handle),
                p,
                old(cleanup_errors)@,
                final(cleanup_errors)@,
                old(log).calls(),
                final(log).calls(),
            ),
{
    let ghost h0 = *handle;
    let ghost e0 = cleanup_errors@;
    let ghost l0 = log.calls();
    match mcp {
        Some(m) => {
            release_overrides(m, extension_id, &mut handle.tool_overrides, cleanup_errors, log);
            let ghost h1 = *handle;
            let ghost e1 = cleanup_errors@;
            let ghost l1 = log.calls();
            let r = ToolServerRelease { port: m };
            release_ids(&r, ResourceKind::ToolServer, &mut handle.tool_server_ids, cleanup_errors, log);
            let ghost h2 = *handle;
            let ghost e2 = cleanup_errors@;
            let ghost l2 = log.calls();
            let r = McpServerRelease { port: m };
            release_ids(&r, ResourceKind::McpServer, &mut handle.mcp_servers, cleanup_errors, log);
            proof {
                lemma_overrides_released_grows(h0.tool_overrides@, handle.tool_overrides@, e1, cleanup_errors@);
                lemma_released_grows(h0.tool_server_ids@, handle.tool_server_ids@, e2, cleanup_errors@, ResourceKind::ToolServer);
                assert forall|k: ResourceKind| k != ResourceKind::ToolOverride implies #[trigger] handle_subjects(h1, k)
                    == handle_subjects(h0, k) by {}
                assert forall|k: ResourceKind| k != ResourceKind::ToolServer implies #[trigger] handle_subjects(h2, k)
                    == handle_subjects(h1, k) by {}
                assert forall|k: ResourceKind| k != ResourceKind::McpServer implies #[trigger] handle_subjects(*handle, k)
                    == handle_subjects(h2, k) by {}
                assert forall|p: HostsPresent|
                    p.mcp == mcp is Some && p.skills == skills is Some && p.lsp == lsp is Some implies #[trigger] handle_release_logged(
                    h0,
                    *handle,
                    p,
                    e0,
                    cleanup_errors@,
                    l0,
                    log.calls(),
                ) by {
                    lemma_release_lift(h0, h1, ResourceKind::ToolOverride, p, e0, e1, l0, l1);
                    lemma_release_lift(h1, h2, ResourceKind::ToolServer, p, e1, e2, l1, l2);
                    lemma_release_lift(h2, *handle, ResourceKind::McpServer, p, e2, cleanup_errors@, l2, log.calls());
                    lemma_release_trans(h0, h1, h2, p, e0, e1, e2, l0, l1, l2);
                    lemma_release_trans(h0, h2, *handle, p, e0, e2, cleanup_errors@, l0, l2, log.calls());
                }
            }
        },
        None => {
            if handle.tool_overrides.len() > 0 || handle.tool_server_ids.len() > 0 || handle.mcp_servers.len() > 0 {
                report_missing(HostKind::Mcp, cleanup_errors);
            }
            proof {
                assert forall|p: HostsPresent|
                    p.mcp == mcp is Some && p.skills == skills is Some && p.lsp == lsp is Some implies #[trigger] handle_release_logged(
                    h0,
                    *handle,
                    p,
                    e0,
                    cleanup_errors@,
                    l0,
                    log.calls(),
                ) by {
                    if h0.tool_overrides@.len() > 0 || h0.tool_server_ids@.len() > 0 || h0.mcp_servers@.len() > 0 {
                        lemma_release_missing(h0, HostKind::Mcp, p, e0, cleanup_errors@, l0);
                    } else {
                        lemma_release_refl(h0, p, e0, l0);
                    }
                }
            }
        },
    }
    let ghost m1 = cleanup_errors@;
    let ghost h3 = *handle;
    let ghost l3 = log.calls();
    if handle.skills.len() > 0 {
        match skills {
            Some(sk) => {
                let r = SkillRelease { port: sk, owner: extension_id };
                release_ids(&r, ResourceKind::Skill, &mut handle.skills, cleanup_errors, log);
            },
            None => report_missing(HostKind::Skills, cleanup_errors),
        }
    }
    let ghost m2 = cleanup_errors@;
    let ghost h4 = *handle;
    let ghost l4 = log.calls();
    proof {
        assert forall|k: ResourceKind| k != ResourceKind::Skill implies #[trigger] handle_subjects(h4, k)
            == handle_subjects(h3, k) by {}
        assert forall|p: HostsPresent|
            p.mcp == mcp is Some && p.skills == skills is Some && p.lsp == lsp is Some implies #[trigger] handle_release_logged(
            h0,
            h4,
            p,
            e0,
            m2,
            l0,
            l4,
        ) by {
            if h3.skills@.len() > 0 {
                if skills is Some {
                    lemma_release_lift(h3, h4, ResourceKind::Skill, p, m1, m2, l3, l4);
                } else {
                    lemma_release_missing(h3, HostKind::Skills, p, m1, m2, l3);
                }
            } else {
                lemma_release_refl(h3, p, m1, l3);
            }
            lemma_release_trans(h0, h3, h4, p, e0, m1, m2, l0, l3, l4);
        }
    }
    match lsp {
        Some(l) => {
            let r = LanguageRelease { port: l, owner: extension_id };
            release_ids(&r, ResourceKind::Language, &mut handle.languages, cleanup_errors, log);
        },
        None => {
            if handle.languages.len() > 0 {
                report_missing(HostKind::Lsp, cleanup_errors);
            }
        },
    }
    proof {
        assert forall|k: ResourceKind| k != ResourceKind::Language implies #[trigger] handle_subjects(*handle, k)
            == handle_subjects(h4, k) by {}
        assert forall|p: HostsPresent|
            p.mcp == mcp is Some && p.skills == skills is Some && p.lsp == lsp is Some implies #[trigger] handle_release_logged(
            h0,
            *handle,
            p,
            e0,
            cleanup_errors@,
            l0,
            log.calls(),
        ) by {
            if lsp is Some {
                lemma_release_lift(h4, *handle, ResourceKind::Language, p, m2, cleanup_errors@, l4, log.calls());
            } else if h4.languages@.len() > 0 {
                lemma_release_missing(h4, HostKind::Lsp, p, m2, cleanup_errors@, l4);
            } else {
                lemma_release_refl(h4, p, m2, l4);
            }
            lemma_release_trans(h0, h4, *handle, p, e0, m2, cleanup_errors@, l0, l4, log.calls());
        }
        if mcp is Some {
            lemma_overrides_released_grows(h0.tool_overrides@, handle.tool_overrides@, m1, cleanup_errors@);
            lemma_released_grows(h0.tool_server_ids@, handle.tool_server_ids@, m1, cleanup_errors@, ResourceKind::ToolServer);
            lemma_released_grows(h0.mcp_servers@, handle.mcp_servers@, m1, cleanup_errors@, ResourceKind::McpServer);
        } else if h0.tool_overrides@.len() > 0 || h0.tool_server_ids@.len() > 0 || h0.mcp_servers@.len() > 0 {
            lemma_missing_grows(m1, cleanup_errors@, HostKind::Mcp);
        }
        if skills is Some {
            lemma_released_grows(h0.skills@, handle.skills@, m2, cleanup_errors@, ResourceKind::Skill);
        } else if h0.skills@.len() > 0 {
            lemma_missing_grows(m2, cleanup_errors@, HostKind::Skills);
        }
    }
}

// ---------------------------------------------------------------------------
// Registering a Gateway plan
// ---------------------------------------------------------------------------

/// The protocols a list of adapter plans registers, in order.
pub open spec fn plan_protocols(a: Seq<GatewayAdapterPlan>) -> Seq<ProtocolView> {
    a.map_values(|x: GatewayAdapterPlan| x.protocol@)
}

/// The runtime ids of a list of provider plans, in order.
pub open spec fn plan_provider_ids(p: Seq<GatewayProviderPlan>) -> Seq<Seq<char>> {
    p.map_values(|x: GatewayProviderPlan| x.config.id@)
}

/// After registering providers: the first `b1` providers were upserted, the
/// first `b2` got their capabilities and the first `b3` their validation
/// contract, each recorded in that order; a provider is counted once its
/// validation contract is registered.
pub open spec fn providers_recorded(
    before: ExtensionRuntimeHandle,
    after: ExtensionRuntimeHandle,
    ids: Seq<Seq<char>>,
    b1: int,
    b2: int,
    b3: int,
) -> bool {
    &&& 0 <= b3 <= b2 <= b1 <= ids.len()
    &&& b1 <= b3 + 1
    &&& views(after.provider_ids@) == views(before.provider_ids@) + ids.take(b1)
    &&& views(after.provider_capability_ids@) == views(before.provider_capability_ids@) + ids.take(b2)
    &&& views(after.provider_validation_ids@) == views(before.provider_validation_ids@) + ids.take(b3)
    &&& after.projection.contribution_counts == ExtensionContributionCounts {
        providers: (before.projection.contribution_counts.providers + b3) as usize,
        ..before.projection.contribution_counts
    }
}

/// Registers the protocols of `adapters` for `owner`, in order: a declarative
/// protocol from its configuration, a builtin one by acquiring it. Each
/// registered protocol is recorded; registration stops at the first refusal.
#[verifier::loop_isolation(false)]
fn register_adapters<G: GatewayCapabilityPort + ?Sized>(
    owner: &str,
    adapters: Vec<GatewayAdapterPlan>,
    gateway: &G,
    protocols: &mut Vec<ApiProtocol>,
    log: &mut HostCallLog,
) -> (r: Result<(), String>)
    ensures
        old(log).calls().is_prefix_of(final(log).calls()),
        forall|s: Seq<char>|
            #[trigger] protocol_subjects(final(protocols)@).contains(s) && !protocol_subjects(old(protocols)@).contains(s)
                ==> registered_in(final(log).calls(), ResourceKind::Protocol, s),
        r is Ok ==> all_accepted(old(log).calls(), final(log).calls()),
        old(protocols)@.len() <= final(protocols)@.len() <= old(protocols)@.len() + adapters@.len(),
        protocol_views(final(protocols)@) == protocol_views(old(protocols)@) + plan_protocols(
            adapters@.take(final(protocols)@.len() - old(protocols)@.len()),
        ),
        r is Ok ==> final(protocols)@.len() == old(protocols)@.len() + adapters@.len(),
        adapters@.len() == 0 ==> r is Ok,
{
    let ghost all = adapters@;
    let total = adapters.len();
    let ghost p0 = protocols@;
    let ghost l0 = log.calls();
    let mut rest = adapters;
    proof {
        assert(l0.is_prefix_of(l0));
    }
    let mut done: usize = 0;
    while rest.len() > 0
        invariant
            done <= all.len(),
            all.len() == total,
            rest@ == all.skip(done as int),
            protocols@.len() == p0.len() + done,
            protocol_views(protocols@) == protocol_views(p0) + plan_protocols(all.take(done as int)),
            l0.is_prefix_of(log.calls()),
            forall|s: Seq<char>|
                #[trigger] protocol_subjects(protocols@).contains(s) && !protocol_subjects(p0).contains(s) ==> registered_in(
                    log.calls(),
                    ResourceKind::Protocol,
                    s,
                ),
            all_accepted(l0, log.calls()),
        decreases rest@.len(),
    {
        let adapter = rest.remove(0);
        proof {
            assert(adapter == all[done as int]);
        }
        let registered = match adapter.custom_config {
            Some(config) => gateway.register_custom_protocol(owner, &adapter.protocol, config),
            None => gateway.acquire_protocol(owner, &adapter.protocol),
        };
        let ghost label = protocol_label(adapter.protocol@);
        let ghost call = HostCall::Register { kind: ResourceKind::Protocol, subject: label, accepted: registered is Ok };
        let ghost pre_log = log.calls();
        log.record(Ghost(call));
        proof {
            lemma_log_grows(pre_log, log.calls());
            lemma_prefix_trans(l0, pre_log, log.calls());
            assert(pre_log.is_prefix_of(log.calls()));
            assert(log.calls()[log.calls().len() - 1] == call);
            if registered is Ok {
                assert forall|i: int| l0.len() <= i < log.calls().len() implies call_accepted(#[trigger] log.calls()[i]) by {
                    if i < pre_log.len() {
                        assert(log.calls()[i] == pre_log[i]);
                    }
                }
            }
        }
        if let Err(e) = registered {
            proof {
                assert(protocol_views(protocols@) == protocol_views(p0) + plan_protocols(all.take(done as int)));
                assert(0 <= done <= all.len());
            }
            return Err(e);
        }
        let ghost prev = protocols@;
        protocols.push(adapter.protocol);
        proof {
            assert(protocol_views(protocols@) =~= protocol_views(prev).push(all[done as int].protocol@));
            assert(protocol_subjects(protocols@) =~= protocol_subjects(prev).push(label));
            assert(registered_in(log.calls(), ResourceKind::Protocol, label));
            assert forall|s: Seq<char>|
                #[trigger] protocol_subjects(protocols@).contains(s) && !protocol_subjects(p0).contains(s) implies registered_in(
                log.calls(),
                ResourceKind::Protocol,
                s,
            ) by {
                if s != label {
                    let i = choose|i: int| 0 <= i < protocol_subjects(protocols@).len() && protocol_subjects(protocols@)[i] == s;
                    assert(protocol_subjects(prev)[i] == s);
                    assert(protocol_subjects(prev).contains(s));
                }
            }
            assert(all.take(done + 1) =~= all.take(done as int).push(all[done as int]));
            assert(plan_protocols(all.take(done + 1)) =~= plan_protocols(all.take(done as int)).push(
                all[done as int].protocol@,
            ));
            assert(rest@ =~= all.skip(done + 1));
        }
        done = done + 1;
    }
    proof {
        assert(protocol_views(protocols@) == protocol_views(p0) + plan_protocols(all.take(done as int)));
    }
    Ok(())
}

/// One call was recorded after `pre`: what `pre` held stays, and the call
/// is there.
pub(crate) proof fn step_recorded(l0: Seq<HostCall>, pre: Seq<HostCall>, c: HostCall)
    ensures
        pre.push(c)[pre.len() as int] == c,
        pre.push(c).contains(c),
        pre.is_prefix_of(pre.push(c)),
        l0.is_prefix_of(pre) ==> l0.is_prefix_of(pre.push(c)),
        forall|x: HostCall| pre.contains(x) ==> #[trigger] pre.push(c).contains(x),
        l0.is_prefix_of(pre) && all_accepted(l0, pre) && call_accepted(c) ==> all_accepted(l0, pre.push(c)),
{
    assert(pre.push(c)[pre.len() as int] == c);
    assert(pre.is_prefix_of(pre.push(c)));
    if l0.is_prefix_of(pre) {
        lemma_prefix_trans(l0, pre, pre.push(c));
    }
    lemma_log_grows(pre, pre.push(c));
    if all_accepted(l0, pre) && call_accepted(c) {
        assert forall|i: int| l0.len() <= i < pre.push(c).len() implies call_accepted(#[trigger] pre.push(c)[i]) by {
            if i < pre.len() {
                assert(pre.push(c)[i] == pre[i]);
            }
        }
    }
}

/// After registering providers, every provider, capability source and
/// validation contract the handle gained was accepted by its host.
proof fn lemma_providers_registered(
    h0: ExtensionRuntimeHandle,
    h: ExtensionRuntimeHandle,
    ids: Seq<Seq<char>>,
    l0: Seq<HostCall>,
    l: Seq<HostCall>,
)
    requires
        providers_recorded(
            h0,
            h,
            ids,
            h.provider_ids@.len() - h0.provider_ids@.len(),
            h.provider_capability_ids@.len() - h0.provider_capability_ids@.len(),
            h.provider_validation_ids@.len() - h0.provider_validation_ids@.len(),
        ),
        l0.is_prefix_of(l),
        forall|j: int|
            0 <= j < h.provider_ids@.len() - h0.provider_ids@.len() ==> registered_in(
                l,
                ResourceKind::Provider,
                #[trigger] ids[j],
            ),
        forall|j: int|
            0 <= j < h.provider_capability_ids@.len() - h0.provider_capability_ids@.len() ==> registered_in(
                l,
                ResourceKind::ProviderCapability,
                #[trigger] ids[j],
            ),
        forall|j: int|
            0 <= j < h.provider_validation_ids@.len() - h0.provider_validation_ids@.len() ==> registered_in(
                l,
                ResourceKind::ProviderValidation,
                #[trigger] ids[j],
            ),
        h.protocols == h0.protocols,
        h.tool_server_ids == h0.tool_server_ids,
        h.tool_overrides == h0.tool_overrides,
        h.mcp_servers == h0.mcp_servers,
        h.skills == h0.skills,
        h.languages == h0.languages,
    ensures
        handle_register_logged(h0, h, l0, l),
{
    assert forall|k: ResourceKind, x: Seq<char>|
        k != ResourceKind::ToolServer && #[trigger] handle_subjects(h, k).contains(x) && !handle_subjects(
            h0,
            k,
        ).contains(x) implies registered_in(l, k, x) by {
        let hs = handle_subjects(h, k);
        let i = choose|i: int| 0 <= i < hs.len() && hs[i] == x;
        if k == ResourceKind::Provider {
            let n0 = views(h0.provider_ids@).len();
            if i < n0 {
                assert(handle_subjects(h0, k)[i] == x);
            } else {
                assert(hs[i] == ids.take(h.provider_ids@.len() - h0.provider_ids@.len())[i - n0]);
            }
        } else if k == ResourceKind::ProviderCapability {
            let n0 = views(h0.provider_capability_ids@).len();
            if i < n0 {
                assert(handle_subjects(h0, k)[i] == x);
            } else {
                assert(hs[i] == ids.take(h.provider_capability_ids@.len() - h0.provider_capability_ids@.len())[i - n0]);
            }
        } else if k == ResourceKind::ProviderValidation {
            let n0 = views(h0.provider_validation_ids@).len();
            if i < n0 {
                assert(handle_subjects(h0, k)[i] == x);
            } else {
                assert(hs[i] == ids.take(h.provider_validation_ids@.len() - h0.provider_validation_ids@.len())[i - n0]);
            }
        } else {
            assert(handle_subjects(h, k) == handle_subjects(h0, k));
        }
    }
}

/// Registers the providers of `providers` for `owner`, in order: each is
/// upserted, then given its capabilities, then its validation contract, and
/// each step is recorded as soon as the host accepts it. Registration stops
/// at the first refusal; without a validation host a provider cannot
/// complete.
#[verifier::loop_isolation(false)]
fn register_providers<G: GatewayCapabilityPort + ?Sized, V: ProviderValidationPort + ?Sized>(
    owner: &str,
    providers: Vec<GatewayProviderPlan>,
    gateway: &G,
    provider_validation: Option<&V>,
    handle: &mut ExtensionRuntimeHandle,
    log: &mut HostCallLog,
) -> (r: Result<(), String>)
    requires
        old(handle).projection.contribution_counts.providers + providers@.len() <= usize::MAX,
    ensures
        providers_recorded(
            *old(handle),
            *final(handle),
            plan_provider_ids(providers@),
            final(handle).provider_ids@.len() - old(handle).provider_ids@.len(),
            final(handle).provider_capability_ids@.len() - old(handle).provider_capability_ids@.len(),
            final(handle).provider_validation_ids@.len() - old(handle).provider_validation_ids@.len(),
        ),
        final(handle).protocols == old(handle).protocols,
        final(handle).tool_server_ids == old(handle).tool_server_ids,
        final(handle).tool_overrides == old(handle).tool_overrides,
        final(handle).mcp_servers == old(handle).mcp_servers,
        final(handle).skills == old(handle).skills,
        final(handle).languages == old(handle).languages,
        final(handle).ui_contribution_registered == old(handle).ui_contribution_registered,
        final(handle).projection.same_ui_parts(old(handle).projection),
        r is Ok ==> final(handle).provider_validation_ids@.len() == old(handle).provider_validation_ids@.len()
            + providers@.len(),
        provider_validation is None && providers@.len() > 0 ==> r is Err,
        providers@.len() == 0 ==> r is Ok,
        handle_register_logged(*old(handle), *final(handle), old(log).calls(), final(log).calls()),
        r is Ok ==> all_accepted(old(log).calls(), final(log).calls()),
{
    let ghost all = providers@;
    let ghost ids = plan_provider_ids(providers@);
    let ghost h0 = *handle;
    let ghost l0 = log.calls();
    proof {
        assert(l0.is_prefix_of(l0));
    }
    let total = providers.len();
    let mut rest = providers;
    let mut done: usize = 0;
    while rest.len() > 0
        invariant
            done <= all.len(),
            all.len() == total,
            rest@ == all.skip(done as int),
            handle.projection.contribution_counts.providers + (all.len() - done) <= usize::MAX,
            providers_recorded(h0, *handle, ids, done as int, done as int, done as int),
            handle.protocols == h0.protocols,
            handle.tool_server_ids == h0.tool_server_ids,
            handle.tool_overrides == h0.tool_overrides,
            handle.mcp_servers == h0.mcp_servers,
            handle.skills == h0.skills,
            handle.languages == h0.languages,
            handle.ui_contribution_registered == h0.ui_contribution_registered,
            handle.projection.same_ui_parts(h0.projection),
            handle.provider_ids@.len() == h0.provider_ids@.len() + done,
            handle.provider_capability_ids@.len() == h0.provider_capability_ids@.len() + done,
            handle.provider_validation_ids@.len() == h0.provider_validation_ids@.len() + done,
            provider_validation is None ==> done == 0,
            l0.is_prefix_of(log.calls()),
            all_accepted(l0, log.calls()),
            forall|j: int|
                0 <= j < done ==> registered_in(log.calls(), ResourceKind::Provider, #[trigger] ids[j])
                    && registered_in(log.calls(), ResourceKind::ProviderCapability, ids[j]) && registered_in(
                    log.calls(),
                    ResourceKind::ProviderValidation,
                    ids[j],
                ),
        decreases rest@.len(),
    {
        let plan = rest.remove(0);
        let ghost id = ids[done as int];
        proof {
            assert(plan == all[done as int]);
            assert(ids.take(done + 1) =~= ids.take(done as int).push(id));
            assert(rest@ =~= all.skip(done + 1));
        }
        let pid = owned(plan.config.id.as_str());
        proof {
            assert(pid@ == id);
        }
        let answer = gateway.upsert_provider(plan.config);
        let ghost call = HostCall::Register { kind: ResourceKind::Provider, subject: id, accepted: answer is Ok };
        let ghost pre_log = log.calls();
        log.record(Ghost(call));
        proof {
            step_recorded(l0, pre_log, call);
        }
        if let Err(e) = answer {
            proof {
                lemma_providers_registered(h0, *handle, ids, l0, log.calls());
            }
            return Err(
                concat6("Extension '", owner, "' failed to register Gateway provider '", pid.as_str(), "': ", e.as_str()),
            );
        }
        let ghost before_push = handle.provider_ids@;
        push_view(&mut handle.provider_ids, pid.as_str());
        proof {
            assert(views(before_push).len() == before_push.len());
            assert(views(handle.provider_ids@).len() == handle.provider_ids@.len());
            assert(handle.provider_ids@.len() == before_push.len() + 1);
            assert(log.calls()[log.calls().len() - 1] == call);
            assert(registered_in(log.calls(), ResourceKind::Provider, id));
            assert(views(h0.provider_ids@) + ids.take(done + 1) =~= (views(h0.provider_ids@) + ids.take(
                done as int,
            )).push(id));
        }
        let answer = gateway.set_provider_capabilities(pid.as_str(), plan.capabilities);
        let ghost call = HostCall::Register { kind: ResourceKind::ProviderCapability, subject: id, accepted: answer is Ok };
        let ghost pre_log = log.calls();
        log.record(Ghost(call));
        proof {
            step_recorded(l0, pre_log, call);
        }
        if let Err(e) = answer {
            proof {
                lemma_providers_registered(h0, *handle, ids, l0, log.calls());
            }
            return Err(
                concat6(
                    "Extension '",
                    owner,
                    "' failed to register Gateway provider capabilities '",
                    pid.as_str(),
                    "': ",
                    e.as_str(),
                ),
            );
        }
        let ghost before_push = handle.provider_capability_ids@;
        push_view(&mut handle.provider_capability_ids, pid.as_str());
        proof {
            assert(views(before_push).len() == before_push.len());
            assert(views(handle.provider_capability_ids@).len() == handle.provider_capability_ids@.len());
            assert(handle.provider_capability_ids@.len() == before_push.len() + 1);
            assert(log.calls()[log.calls().len() - 1] == call);
            assert(registered_in(log.calls(), ResourceKind::ProviderCapability, id));
            assert(views(h0.provider_capability_ids@) + ids.take(done + 1) =~= (views(
                h0.provider_capability_ids@,
            ) + ids.take(done as int)).push(id));
        }
        match provider_validation {
            None => {
                proof {
                    lemma_providers_registered(h0, *handle, ids, l0, log.calls());
                }
                return Err(
                    concat3(
                        "Extension '",
                        owner,
                        "' declares Gateway Provider validation but validation host is not available",
                    ),
                );
            },
            Some(v) => {
                let answer = v.register(owner, pid.as_str());
                let ghost call = HostCall::Register {
                    kind: ResourceKind::ProviderValidation,
                    subject: id,
                    accepted: answer is Ok,
                };
                let ghost pre_log = log.calls();
                log.record(Ghost(call));
                proof {
                    step_recorded(l0, pre_log, call);
                }
                if let Err(e) = answer {
                    proof {
                        lemma_providers_registered(h0, *handle, ids, l0, log.calls());
                    }
                    return Err(
                        concat6(
                            "Extension '",
                            owner,
                            "' failed to register Gateway Provider validation '",
                            pid.as_str(),
                            "': ",
                            e.as_str(),
                        ),
                    );
                }
                proof {
                    assert(log.calls()[log.calls().len() - 1] == call);
                    assert(registered_in(log.calls(), ResourceKind::ProviderValidation, id));
                }
            },
        }
        let ghost before_push = handle.provider_validation_ids@;
        push_view(&mut handle.provider_validation_ids, pid.as_str());
        proof {
            assert(views(before_push).len() == before_push.len());
            assert(views(handle.provider_validation_ids@).len() == handle.provider_validation_ids@.len());
            assert(handle.provider_validation_ids@.len() == before_push.len() + 1);
            assert(registered_in(log.calls(), ResourceKind::ProviderValidation, id));
            assert(views(h0.provider_validation_ids@) + ids.take(done + 1) =~= (views(
                h0.provider_validation_ids@,
            ) + ids.take(done as int)).push(id));
        }
        handle.projection.contribution_counts.providers = handle.projection.contribution_counts.providers + 1;
        proof {
            assert(registered_in(log.calls(), ResourceKind::Provider, id));
            assert(registered_in(log.calls(), ResourceKind::ProviderCapability, id));
        }
        done = done + 1;
    }
    proof {
        lemma_providers_registered(h0, *handle, ids, l0, log.calls());
    }
    Ok(())
}

/// Registers a Gateway plan for `extension_id`: every adapter's protocol,
/// then every provider, recording in `handle` each resource a host accepted.
/// On a refusal the resources already accepted stay recorded, for release.
pub fn register_gateway_plan<G: GatewayCapabilityPort + ?Sized, V: ProviderValidationPort + ?Sized>(
    extension_id: &str,
    plan: GatewayPlan,
    gateway: &G,
    provider_validation: Option<&V>,
    handle: &mut ExtensionRuntimeHandle,
    log: &mut HostCallLog,
) -> (r: Result<(), String>)
    requires
        old(handle).projection.contribution_counts.providers + plan.providers@.len() <= usize::MAX,
    ensures
        old(handle).protocols@.len() <= final(handle).protocols@.len() <= old(handle).protocols@.len()
            + plan.adapters@.len(),
        protocol_views(final(handle).protocols@) == protocol_views(old(handle).protocols@) + plan_protocols(
            plan.adapters@.take(final(handle).protocols@.len() - old(handle).protocols@.len()),
        ),
        final(handle).protocols@.len() < old(handle).protocols@.len() + plan.adapters@.len() ==> r is Err
            && final(handle).provider_ids == old(handle).provider_ids,
        providers_recorded(
            *old(handle),
            *final(handle),
            plan_provider_ids(plan.providers@),
            final(handle).provider_ids@.len() - old(handle).provider_ids@.len(),
            final(handle).provider_capability_ids@.len() - old(handle).provider_capability_ids@.len(),
            final(handle).provider_validation_ids@.len() - old(handle).provider_validation_ids@.len(),
        ),
        final(handle).tool_server_ids == old(handle).tool_server_ids,
        final(handle).tool_overrides == old(handle).tool_overrides,
        final(handle).mcp_servers == old(handle).mcp_servers,
        final(handle).skills == old(handle).skills,
        final(handle).languages == old(handle).languages,
        final(handle).ui_contribution_registered == old(handle).ui_contribution_registered,
        final(handle).projection.same_ui_parts(old(handle).projection),
        r is Ok ==> final(handle).protocols@.len() == old(handle).protocols@.len() + plan.adapters@.len()
            && final(handle).provider_validation_ids@.len() == old(handle).provider_validation_ids@.len()
            + plan.providers@.len(),
        provider_validation is None && plan.providers@.len() > 0 ==> r is Err,
        plan.adapters@.len() == 0 && plan.providers@.len() == 0 ==> r is Ok,
        handle_register_logged(*old(handle), *final(handle), old(log).calls(), final(log).calls()),
        r is Ok ==> all_accepted(old(log).calls(), final(log).calls()),
{
    let GatewayPlan { adapters, providers } = plan;
    let ghost h0 = *handle;
    let ghost l0 = log.calls();
    let r = register_adapters(extension_id, adapters, gateway, &mut handle.protocols, log);
    let ghost h1 = *handle;
    let ghost l1 = log.calls();
    proof {
        assert forall|k: ResourceKind| k != ResourceKind::Protocol implies #[trigger] handle_subjects(h1, k)
            == handle_subjects(h0, k) by {}
        lemma_register_lift(h0, h1, ResourceKind::Protocol, l0, l1);
    }
    if r.is_err() {
        proof {
            assert(views(handle.provider_ids@) =~= views(old(handle).provider_ids@) + plan_provider_ids(providers@).take(0));
            assert(views(handle.provider_capability_ids@) =~= views(old(handle).provider_capability_ids@) + plan_provider_ids(providers@).take(0));
            assert(views(handle.provider_validation_ids@) =~= views(old(handle).provider_validation_ids@) + plan_provider_ids(providers@).take(0));
        }
        return r;
    }
    let r2 = register_providers(extension_id, providers, gateway, provider_validation, handle, log);
    proof {
        lemma_register_trans(h0, h1, *handle, l0, l1, log.calls());
    }
    r2
}

// ---------------------------------------------------------------------------
// Languages
// ---------------------------------------------------------------------------

/// The language ids of a list of language declarations, in order.
pub open spec fn language_ids(l: Seq<LanguageRegistration>) -> Seq<Seq<char>> {
    l.map_values(|x: LanguageRegistration| x.language_id@)
}

/// Registers each declared language with the LSP host on behalf of
/// `extension_id`, in order, recording each accepted language id.
/// Registration stops at the first refusal.
#[verifier::loop_isolation(false)]
pub fn register_lsp_languages<L: LspCapabilityPort + ?Sized>(
    extension_id: &str,
    languages: &Vec<LanguageRegistration>,
    lsp: &L,
    handle: &mut ExtensionRuntimeHandle,
    log: &mut HostCallLog,
) -> (r: Result<(), String>)
    ensures
        handle_register_logged(*old(handle), *final(handle), old(log).calls(), final(log).calls()),
        r is Ok ==> all_accepted(old(log).calls(), final(log).calls()),
        old(handle).languages@.len() <= final(handle).languages@.len() <= old(handle).languages@.len()
            + languages@.len(),
        views(final(handle).languages@) == views(old(handle).languages@) + language_ids(languages@).take(
            final(handle).languages@.len() - old(handle).languages@.len(),
        ),
        r is Ok ==> final(handle).languages@.len() == old(handle).languages@.len() + languages@.len(),
        languages@.len() == 0 ==> r is Ok,
        same_gateway(*final(handle), *old(handle)),
        final(handle).tool_server_ids == old(handle).tool_server_ids,
        final(handle).tool_overrides == old(handle).tool_overrides,
        final(handle).mcp_servers == old(handle).mcp_servers,
        final(handle).skills == old(handle).skills,
        final(handle).ui_contribution_registered == old(handle).ui_contribution_registered,
        final(handle).projection == old(handle).projection,
{
    let ghost h0 = *handle;
    let ghost l0 = log.calls();
    let ghost ids = language_ids(languages@);
    proof {
        lemma_register_refl(h0, l0);
    }
    let n = languages.len();
    for i in 0..n
        invariant
            n == languages@.len(),
            handle.languages@.len() == h0.languages@.len() + i,
            views(handle.languages@) == views(h0.languages@) + ids.take(i as int),
            same_gateway(*handle, h0),
            handle.tool_server_ids == h0.tool_server_ids,
            handle.tool_overrides == h0.tool_overrides,
            handle.mcp_servers == h0.mcp_servers,
            handle.skills == h0.skills,
            handle.ui_contribution_registered == h0.ui_contribution_registered,
            handle.projection == h0.projection,
            handle_register_logged(h0, *handle, l0, log.calls()),
            all_accepted(l0, log.calls()),
    {
        let language = &languages[i];
        let config = crate::gateway::lsp_server_config_from_extension_language(language);
        let source = LanguageSource::Extension { owner: owned(extension_id) };
        let answer = lsp.register_language(config, source);
        let ghost prev = *handle;
        let ghost call = HostCall::Register {
            kind: ResourceKind::Language,
            subject: language.language_id@,
            accepted: answer is Ok,
        };
        proof {
            lemma_register_record(h0, prev, l0, log.calls(), call);
        }
        log.record(Ghost(call));
        if let Err(e) = answer {
            return Err(
                concat6(
                    "Extension '",
                    extension_id,
                    "' failed to register LSP language '",
                    language.language_id.as_str(),
                    "': ",
                    e.as_str(),
                ),
            );
        }
        push_view(&mut handle.languages, language.language_id.as_str());
        proof {
            assert(log.calls()[log.calls().len() - 1] == call);
            assert(registered_in(log.calls(), ResourceKind::Language, language.language_id@));
            assert forall|k: ResourceKind| k != ResourceKind::Language implies #[trigger] handle_subjects(*handle, k)
                == handle_subjects(prev, k) by {}
            lemma_register_push(h0, prev, *handle, ResourceKind::Language, language.language_id@, l0, log.calls());
            assert(ids[i as int] == language.language_id@);
            assert(views(h0.languages@) + ids.take(i + 1) =~= (views(h0.languages@) + ids.take(i as int)).push(
                ids[i as int],
            ));
        }
    }
    proof {
        assert(ids.take(n as int) =~= ids);
    }
    Ok(())
}

// ---------------------------------------------------------------------------
// UI contributions
// ---------------------------------------------------------------------------

/// The handle projects `reg`: its UI parts and their counts.
pub open spec fn projects(p: ExtensionRuntimeProjection, reg: UiContributionRegistration) -> bool {
    &&& p.views.copy_of(&reg.views)
    &&& p.work_modes.copy_of(&reg.work_modes)
    &&& p.zones.copy_of(&reg.zones)
    &&& p.scripts.copy_of(&reg.scripts)
    &&& p.toolbar_items.copy_of(&reg.toolbar_items)
    &&& p.statusbar_items.copy_of(&reg.statusbar_items)
    &&& p.inline_extensions.copy_of(&reg.inline_extensions)
    &&& p.configuration == reg.configuration
    &&& p.contribution_counts.views == reg.views@.len()
    &&& p.contribution_counts.commands == reg.commands@.len()
    &&& p.contribution_counts.menus == reg.menus@.len()
    &&& p.contribution_counts.keybindings == reg.keybindings@.len()
    &&& p.contribution_counts.work_modes == reg.work_modes@.len()
    &&& p.contribution_counts.zones == reg.zones@.len()
    &&& p.contribution_counts.scripts == reg.scripts@.len()
    &&& p.contribution_counts.toolbar_items == reg.toolbar_items@.len()
    &&& p.contribution_counts.statusbar_items == reg.statusbar_items@.len()
    &&& p.contribution_counts.inline_extensions == reg.inline_extensions@.len()
    &&& p.contribution_counts.configuration == (if reg.configuration is Some { 1usize } else { 0usize })
}

/// Commits a prepared UI registration to the registrar and projects it into
/// the handle. An extension that already has a registration is refused and
/// nothing changes.
pub fn commit_ui_contributions(
    registrar: &mut UiContributionRegistrar,
    registration: UiContributionRegistration,
    handle: &mut ExtensionRuntimeHandle,
) -> (r: Result<(), ContributionError>)
    requires
        old(registrar).wf(),
    ensures
        final(registrar).wf(),
        registration_ids(old(registrar)@).contains(registration.extension_id@) ==> (r matches Err(e)
            && e.fault() == ui_fault(ContributionErrorKind::AlreadyRegistered, registration.extension_id@, Seq::empty())
            && final(registrar)@ == old(registrar)@ && *final(handle) == *old(handle)),
        !registration_ids(old(registrar)@).contains(registration.extension_id@) ==> (r is Ok
            && final(registrar)@ == old(registrar)@.push(registration)
            && final(handle).ui_contribution_registered
            && projects(final(handle).projection, registration)
            && final(handle).projection.contribution_counts.providers == old(handle).projection.contribution_counts.providers
            && final(handle).projection.contribution_counts.mcp_servers == old(handle).projection.contribution_counts.mcp_servers
            && final(handle).projection.contribution_counts.triggers == old(handle).projection.contribution_counts.triggers
            && same_gateway(*final(handle), *old(handle))
            && final(handle).tool_server_ids == old(handle).tool_server_ids
            && final(handle).tool_overrides == old(handle).tool_overrides
            && final(handle).mcp_servers == old(handle).mcp_servers
            && final(handle).skills == old(handle).skills
            && final(handle).languages == old(handle).languages),
{
    let projection = registration.duplicate();
    let ghost reg = registration;
    let r = registrar.commit_registration(registration);
    if r.is_err() {
        return r;
    }
    let configuration_count: usize = if projection.configuration.is_some() { 1 } else { 0 };
    handle.ui_contribution_registered = true;
    handle.projection.contribution_counts.views = projection.views.len();
    handle.projection.contribution_counts.commands = projection.commands.len();
    handle.projection.contribution_counts.menus = projection.menus.len();
    handle.projection.contribution_counts.keybindings = projection.keybindings.len();
    handle.projection.contribution_counts.work_modes = projection.work_modes.len();
    handle.projection.contribution_counts.zones = projection.zones.len();
    handle.projection.contribution_counts.scripts = projection.scripts.len();
    handle.projection.contribution_counts.toolbar_items = projection.toolbar_items.len();
    handle.projection.contribution_counts.statusbar_items = projection.statusbar_items.len();
    handle.projection.contribution_counts.inline_extensions = projection.inline_extensions.len();
    handle.projection.contribution_counts.configuration = configuration_count;
    handle.projection.views = projection.views;
    handle.projection.work_modes = projection.work_modes;
    handle.projection.zones = projection.zones;
    handle.projection.scripts = projection.scripts;
    handle.projection.toolbar_items = projection.toolbar_items;
    handle.projection.statusbar_items = projection.statusbar_items;
    handle.projection.inline_extensions = projection.inline_extensions;
    handle.projection.configuration = projection.configuration;
    Ok(())
}

/// Withdraws the extension's UI registration when the handle records one.
pub fn disable_ui_contributions(
    registrar: &mut UiContributionRegistrar,
    extension_id: &str,
    handle: &mut ExtensionRuntimeHandle,
)
    requires
        old(registrar).wf(),
    ensures
        final(registrar).wf(),
        !final(handle).ui_contribution_registered,
        old(handle).ui_contribution_registered ==> final(registrar)@ == registrations_without(
            old(registrar)@,
            extension_id@,
        ),
        !old(handle).ui_contribution_registered ==> final(registrar)@ == old(registrar)@,
        same_gateway(*final(handle), *old(handle)),
        final(handle).tool_server_ids == old(handle).tool_server_ids,
        final(handle).tool_overrides == old(handle).tool_overrides,
        final(handle).mcp_servers == old(handle).mcp_servers,
        final(handle).skills == old(handle).skills,
        final(handle).languages == old(handle).languages,
        final(handle).projection == old(handle).projection,
{
    if !handle.ui_contribution_registered {
        return;
    }
    let _ = registrar.unregister_extension(extension_id);
    handle.ui_contribution_registered = false;
}

/// Withdraws the extension's UI registration when the handle records one,
/// and drops the UI parts from the projection.
pub fn rollback_ui_contributions(
    registrar: &mut UiContributionRegistrar,
    extension_id: &str,
    handle: &mut ExtensionRuntimeHandle,
)
    requires
        old(registrar).wf(),
    ensures
        final(registrar).wf(),
        !final(handle).ui_contribution_registered,
        old(handle).ui_contribution_registered ==> final(registrar)@ == registrations_without(
            old(registrar)@,
            extension_id@,
        ) && final(handle).projection.no_ui_parts() && final(handle).projection.contribution_counts
            == (ExtensionContributionCounts {
            triggers: old(handle).projection.contribution_counts.triggers,
            ..old(handle).projection.contribution_counts.without_ui()
        }),
        !old(handle).ui_contribution_registered ==> final(registrar)@ == old(registrar)@
            && final(handle).projection == old(handle).projection,
        same_gateway(*final(handle), *old(handle)),
        final(handle).tool_server_ids == old(handle).tool_server_ids,
        final(handle).tool_overrides == old(handle).tool_overrides,
        final(handle).mcp_servers == old(handle).mcp_servers,
        final(handle).skills == old(handle).skills,
        final(handle).languages == old(handle).languages,
{
    if !handle.ui_contribution_registered {
        return;
    }
    let _ = registrar.unregister_extension(extension_id);
    handle.ui_contribution_registered = false;
    handle.projection.views.clear();
    handle.projection.work_modes.clear();
    handle.projection.zones.clear();
    handle.projection.scripts.clear();
    handle.projection.toolbar_items.clear();
    handle.projection.statusbar_items.clear();
    handle.projection.inline_extensions.clear();
    handle.projection.configuration = None;
    handle.projection.contribution_counts.views = 0;
    handle.projection.contribution_counts.work_modes = 0;
    handle.projection.contribution_counts.menus = 0;
    handle.projection.contribution_counts.commands = 0;
    handle.projection.contribution_counts.keybindings = 0;
    handle.projection.contribution_counts.zones = 0;
    handle.projection.contribution_counts.scripts = 0;
    handle.projection.contribution_counts.toolbar_items = 0;
    handle.projection.contribution_counts.statusbar_items = 0;
    handle.projection.contribution_counts.inline_extensions = 0;
    handle.projection.contribution_counts.configuration = 0;
}

// ---------------------------------------------------------------------------
// Settling a handle after release
// ---------------------------------------------------------------------------

/// Reconciles the handle after a release and says whether the ledger must
/// keep it: it is dropped only when release reported nothing and the handle
/// owns and projects nothing.
pub fn settle_handle(handle: &mut ExtensionRuntimeHandle, cleanup_errors: &Vec<CleanupError>) -> (keep: bool)
    ensures
        final(handle).same_resources(*old(handle)),
        final(handle).projection.contribution_counts == old(handle).reconciled_counts(),
        old(handle).ui_contribution_registered ==> final(handle).projection.same_ui_parts(old(handle).projection),
        !old(handle).ui_contribution_registered ==> final(handle).projection.no_ui_parts(),
        keep == !(cleanup_errors@.len() == 0 && final(handle).spec_is_empty()),
{
    handle.reconcile_projection();
    !(cleanup_errors.len() == 0 && handle.is_empty())
}

// ---------------------------------------------------------------------------
// Releasing everything an extension owns
// ---------------------------------------------------------------------------

/// Release of one list of ids through a host that may be missing: with the
/// host, what stays is reported; without it, nothing changes and the missing
/// host is reported when there was something to release.
pub open spec fn list_released(
    before: Seq<String>,
    after: Seq<String>,
    errs: Seq<CleanupError>,
    kind: ResourceKind,
    host_present: bool,
    host: HostKind,
) -> bool {
    if host_present {
        released_or_reported(before, after, errs, kind)
    } else {
        after == before && (before.len() > 0 ==> reported_missing(errs, host))
    }
}

/// Release of a whole handle went as it must, given which hosts were there:
/// every kind of resource was released or its failure reported, and the UI
/// registration is withdrawn.
pub open spec fn handle_released(
    before: ExtensionRuntimeHandle,
    after: ExtensionRuntimeHandle,
    errs: Seq<CleanupError>,
    gateway: bool,
    provider_validation: bool,
    mcp: bool,
    skills: bool,
    lsp: bool,
) -> bool {
    &&& list_released(
        before.provider_validation_ids@,
        after.provider_validation_ids@,
        errs,
        ResourceKind::ProviderValidation,
        provider_validation,
        HostKind::ProviderValidation,
    )
    &&& (if gateway {
        released_or_reported(before.provider_capability_ids@, after.provider_capability_ids@, errs, ResourceKind::ProviderCapability)
            && released_or_reported(before.provider_ids@, after.provider_ids@, errs, ResourceKind::Provider)
            && protocols_released_or_reported(before.protocols@, after.protocols@, errs)
    } else {
        after.provider_capability_ids == before.provider_capability_ids && after.provider_ids == before.provider_ids
            && after.protocols == before.protocols && (before.provider_capability_ids@.len() > 0
            || before.provider_ids@.len() > 0 || before.protocols@.len() > 0 ==> reported_missing(errs, HostKind::Gateway))
    })
    &&& (if mcp {
        overrides_released_or_reported(before.tool_overrides@, after.tool_overrides@, errs)
            && released_or_reported(before.tool_server_ids@, after.tool_server_ids@, errs, ResourceKind::ToolServer)
            && released_or_reported(before.mcp_servers@, after.mcp_servers@, errs, ResourceKind::McpServer)
    } else {
        after.tool_overrides == before.tool_overrides && after.tool_server_ids == before.tool_server_ids
            && after.mcp_servers == before.mcp_servers && (before.tool_overrides@.len() > 0
            || before.tool_server_ids@.len() > 0 || before.mcp_servers@.len() > 0 ==> reported_missing(errs, HostKind::Mcp))
    })
    &&& list_released(before.skills@, after.skills@, errs, ResourceKind::Skill, skills, HostKind::Skills)
    &&& list_released(before.languages@, after.languages@, errs, ResourceKind::Language, lsp, HostKind::Lsp)
    &&& !after.ui_contribution_registered
}

/// Release of an extension's event subscriptions went as it must: other
/// extensions keep theirs, nothing is added, and what stays is reported (or,
/// without a host, nothing changes and the missing host is reported).
pub open spec fn subscriptions_released(
    before: LedgerView,
    after: LedgerView,
    errs: Seq<CleanupError>,
    extension_id: Seq<char>,
    host_present: bool,
) -> bool {
    &&& forall|e: Seq<char>, id: Seq<char>|
        e != extension_id ==> (ext_owns_handle(after, e, id) <==> ext_owns_handle(before, e, id))
    &&& forall|id: Seq<char>| ext_owns_handle(after, extension_id, id) ==> ext_owns_handle(before, extension_id, id)
    &&& host_present ==> forall|id: Seq<char>|
        ext_owns_handle(after, extension_id, id) ==> reported(errs, ResourceKind::EventSubscription, id)
    &&& !host_present ==> after == before && (has_owner(before, extension_id) ==> reported_missing(
        errs,
        HostKind::EventSubscriptions,
    ))
}

proof fn lemma_subscriptions_released_grows(
    before: LedgerView,
    after: LedgerView,
    a: Seq<CleanupError>,
    b: Seq<CleanupError>,
    extension_id: Seq<char>,
    host_present: bool,
)
    requires
        a.is_prefix_of(b),
        subscriptions_released(before, after, a, extension_id, host_present),
    ensures
        subscriptions_released(before, after, b, extension_id, host_present),
{
    if host_present {
        assert forall|id: Seq<char>| ext_owns_handle(after, extension_id, id) implies reported(
            b,
            ResourceKind::EventSubscription,
            id,
        ) by {
            lemma_reported_grows(a, b, ResourceKind::EventSubscription, id);
        }
    } else if has_owner(before, extension_id) {
        lemma_missing_grows(a, b, HostKind::EventSubscriptions);
    }
}

/// `h` records a resource some host must release.
pub open spec fn holds_host_resources(h: ExtensionRuntimeHandle) -> bool {
    exists|kind: ResourceKind| #[trigger] handle_subjects(h, kind).len() > 0
}

/// Two handles that record the same resources release alike.
proof fn lemma_release_rebase(
    h0: ExtensionRuntimeHandle,
    h1: ExtensionRuntimeHandle,
    h2: ExtensionRuntimeHandle,
    p: HostsPresent,
    e1: Seq<CleanupError>,
    e2: Seq<CleanupError>,
    l1: Seq<HostCall>,
    l2: Seq<HostCall>,
)
    requires
        forall|k: ResourceKind| #[trigger] handle_subjects(h1, k) == handle_subjects(h0, k),
        handle_release_logged(h1, h2, p, e1, e2, l1, l2),
    ensures
        handle_release_logged(h0, h2, p, e1, e2, l1, l2),
{
    assert forall|i: int| e1.len() <= i < e2.len() implies release_error_explained(#[trigger] e2[i], l2, h0, p) by {
        assert(release_error_explained(e2[i], l2, h1, p));
        assert(handle_subjects(h1, ResourceKind::ProviderValidation) == handle_subjects(h0, ResourceKind::ProviderValidation));
        assert(handle_subjects(h1, ResourceKind::ProviderCapability) == handle_subjects(h0, ResourceKind::ProviderCapability));
        assert(handle_subjects(h1, ResourceKind::Provider) == handle_subjects(h0, ResourceKind::Provider));
        assert(handle_subjects(h1, ResourceKind::Protocol) == handle_subjects(h0, ResourceKind::Protocol));
        assert(handle_subjects(h1, ResourceKind::ToolOverride) == handle_subjects(h0, ResourceKind::ToolOverride));
        assert(handle_subjects(h1, ResourceKind::ToolServer) == handle_subjects(h0, ResourceKind::ToolServer));
        assert(handle_subjects(h1, ResourceKind::McpServer) == handle_subjects(h0, ResourceKind::McpServer));
        assert(handle_subjects(h1, ResourceKind::Skill) == handle_subjects(h0, ResourceKind::Skill));
        assert(handle_subjects(h1, ResourceKind::Language) == handle_subjects(h0, ResourceKind::Language));
    }
    assert forall|i: int| l1.len() <= i < l2.len() implies release_call_of(#[trigger] l2[i], h0) by {
        assert(release_call_of(l2[i], h1));
    }
    assert forall|kind: ResourceKind, s: Seq<char>|
        #[trigger] handle_subjects(h2, kind).contains(s) implies handle_subjects(h0, kind).contains(s) by {
        assert(handle_subjects(h1, kind) == handle_subjects(h0, kind));
    }
    assert forall|kind: ResourceKind, s: Seq<char>|
        #[trigger] handle_subjects(h0, kind).contains(s) && !handle_subjects(h2, kind).contains(s) implies released_in(
        l2,
        kind,
        s,
    ) by {
        assert(handle_subjects(h1, kind) == handle_subjects(h0, kind));
    }
}

/// Releases everything `extension_id` owns, in the order that undoes its
/// registration: event subscriptions; then, when it has a handle, its
/// components and backend processes, the UI registration, Gateway
/// resources, and MCP, skill and language resources. The hosts are those
/// present. Returns the handle the ledger must keep (none once everything
/// is released without a failure) and every failure, in order.
#[verifier::spinoff_prover]
pub fn cleanup_runtime_resources<
    E: EventSubscriptionPort + ?Sized,
    G: GatewayCapabilityPort + ?Sized,
    V: ProviderValidationPort + ?Sized,
    M: McpCapabilityPort + ?Sized,
    S: SkillHostPort + ?Sized,
    L: LspCapabilityPort + ?Sized,
    B: BackendServicePort + ?Sized,
    C: ComponentHostPort + ?Sized,
>(
    extension_id: &str,
    ledger: &mut ExtensionSubscriptionLedger,
    registrar: &mut UiContributionRegistrar,
    handle: Option<ExtensionRuntimeHandle>,
    events: Option<&mut E>,
    gateway: Option<&G>,
    provider_validation: Option<&V>,
    mcp: Option<&M>,
    skills: Option<&S>,
    lsp: Option<&L>,
    backend: Option<&B>,
    components: Option<&mut C>,
    log: &mut HostCallLog,
) -> (r: (Option<ExtensionRuntimeHandle>, Vec<CleanupError>))
    requires
        old(ledger).wf(),
        old(registrar).wf(),
    ensures
        final(ledger).wf(),
        final(registrar).wf(),
        subscriptions_released(old(ledger)@, final(ledger)@, r.1@, extension_id@, events is Some),
        match handle {
            None => final(registrar)@ == old(registrar)@ && r.0 is None,
            Some(h) => {
                &&& h.ui_contribution_registered ==> final(registrar)@ == registrations_without(
                    old(registrar)@,
                    extension_id@,
                )
                &&& !h.ui_contribution_registered ==> final(registrar)@ == old(registrar)@
                &&& match r.0 {
                    Some(k) => handle_released(
                        h,
                        k,
                        r.1@,
                        gateway is Some,
                        provider_validation is Some,
                        mcp is Some,
                        skills is Some,
                        lsp is Some,
                    ) && (r.1@.len() > 0 || !k.spec_is_empty())
                        && k.projection.contribution_counts == k.reconciled_counts(),
                    None => r.1@.len() == 0 && exists|after: ExtensionRuntimeHandle|
                        #[trigger] after.spec_is_empty() && handle_released(
                            h,
                            after,
                            r.1@,
                            gateway is Some,
                            provider_validation is Some,
                            mcp is Some,
                            skills is Some,
                            lsp is Some,
                        ),
                }
            },
        },
        old(log).calls().is_prefix_of(final(log).calls()),
        forall|id: Seq<char>|
            #[trigger] ext_owns_handle(old(ledger)@, extension_id@, id) && !ext_owns_handle(final(ledger)@, extension_id@, id)
                ==> released_in(final(log).calls(), ResourceKind::EventSubscription, id),
        handle matches Some(h) ==> forall|kind: ResourceKind, s: Seq<char>|
            #[trigger] handle_subjects(h, kind).contains(s) && (r.0 matches Some(k) ==> !handle_subjects(k, kind).contains(s))
                ==> released_in(final(log).calls(), kind, s),
        forall|i: int|
            0 <= i < r.1@.len() ==> subscription_error_explained(
                #[trigger] r.1@[i],
                final(log).calls(),
                old(ledger)@,
                extension_id@,
                events is Some,
            ) || (handle matches Some(h) && release_error_explained(
                r.1@[i],
                final(log).calls(),
                h,
                HostsPresent {
                    gateway: gateway is Some,
                    provider_validation: provider_validation is Some,
                    mcp: mcp is Some,
                    skills: skills is Some,
                    lsp: lsp is Some,
                },
            )),
        forall|i: int|
            old(log).calls().len() <= i < final(log).calls().len() ==> subscription_call_of(
                #[trigger] final(log).calls()[i],
                old(ledger)@,
                extension_id@,
            ) || (handle matches Some(h) && release_call_of(final(log).calls()[i], h)),
        !has_owner(old(ledger)@, extension_id@) && !(handle matches Some(h) && holds_host_resources(h)) ==> r.1@.len()
            == 0,
{
    let mut errors: Vec<CleanupError> = Vec::new();
    let ghost events_present = events is Some;
    let ghost log0 = log.calls();
    let ghost hd = handle;
    let ghost p = HostsPresent {
        gateway: gateway is Some,
        provider_validation: provider_validation is Some,
        mcp: mcp is Some,
        skills: skills is Some,
        lsp: lsp is Some,
    };
    release_subscriptions(extension_id, ledger, events, &mut errors, log);
    let ghost e1 = errors@;
    let ghost log1 = log.calls();
    let kept = match handle {
        None => None,
        Some(h) => {
            let mut h = h;
            let ghost h0 = h;
            if let Some(c) = components {
                c.dispose_all_for_extension(extension_id);
            }
            if let Some(b) = backend {
                b.kill_all_for_extension(extension_id);
            }
            disable_ui_contributions(registrar, extension_id, &mut h);
            let ghost h1 = h;
            unregister_gateway_resources(extension_id, &mut h, gateway, provider_validation, &mut errors, log);
            let ghost h2 = h;
            let ghost e2 = errors@;
            let ghost log2 = log.calls();
            release_host_resources(extension_id, &mut h, mcp, skills, lsp, &mut errors, log);
            let ghost h3 = h;
            let ghost e3 = errors@;
            proof {
                assert(handle_release_logged(h1, h2, p, e1, e2, log1, log2));
                assert(handle_release_logged(h2, h3, p, e2, e3, log2, log.calls()));
                lemma_release_trans(h1, h2, h3, p, e1, e2, e3, log1, log2, log.calls());
                assert forall|k: ResourceKind| #[trigger] handle_subjects(h1, k) == handle_subjects(h0, k) by {}
                lemma_release_rebase(h0, h1, h3, p, e1, e3, log1, log.calls());
                assert(handle_release_logged(h0, h3, p, e1, e3, log1, log.calls()));
                if provider_validation is Some {
                    lemma_released_grows(
                        h1.provider_validation_ids@,
                        h2.provider_validation_ids@,
                        e2,
                        e3,
                        ResourceKind::ProviderValidation,
                    );
                } else if h1.provider_validation_ids@.len() > 0 {
                    lemma_missing_grows(e2, e3, HostKind::ProviderValidation);
                }
                if gateway is Some {
                    lemma_released_grows(
                        h1.provider_capability_ids@,
                        h2.provider_capability_ids@,
                        e2,
                        e3,
                        ResourceKind::ProviderCapability,
                    );
                    lemma_released_grows(h1.provider_ids@, h2.provider_ids@, e2, e3, ResourceKind::Provider);
                    lemma_protocols_released_grows(h1.protocols@, h2.protocols@, e2, e3);
                } else if h1.provider_capability_ids@.len() > 0 || h1.provider_ids@.len() > 0
                    || h1.protocols@.len() > 0 {
                    lemma_missing_grows(e2, e3, HostKind::Gateway);
                }
                assert(handle_released(
                    h0,
                    h3,
                    e3,
                    gateway is Some,
                    provider_validation is Some,
                    mcp is Some,
                    skills is Some,
                    lsp is Some,
                ));
            }
            let keep = settle_handle(&mut h, &errors);
            proof {
                assert(h.same_resources(h3));
                law_reconcile_idempotent(h3, h);
                assert forall|k: ResourceKind| #[trigger] handle_subjects(h, k) == handle_subjects(h3, k) by {}
            }
            if keep {
                Some(h)
            } else {
                proof {
                    assert(h.spec_is_empty());
                    assert forall|k: ResourceKind| #[trigger] handle_subjects(h3, k).len() == 0 by {
                        assert(handle_subjects(h, k).len() == 0);
                    }
                }
                None
            }
        },
    };
    proof {
        lemma_subscriptions_released_grows(old(ledger)@, ledger@, e1, errors@, extension_id@, events_present);
        lemma_log_grows(log1, log.calls());
        if hd is None {
            assert(log.calls() == log1);
            assert(errors@ == e1);
        }
        assert(log0.is_prefix_of(log.calls())) by {
            if hd is Some {
                lemma_prefix_trans(log0, log1, log.calls());
            }
        }
        assert forall|i: int| 0 <= i < errors@.len() implies subscription_error_explained(
            #[trigger] errors@[i],
            log.calls(),
            old(ledger)@,
            extension_id@,
            events_present,
        ) || (hd matches Some(h) && release_error_explained(errors@[i], log.calls(), h, p)) by {
            if i < e1.len() {
                assert(errors@[i] == e1[i]);
                assert(subscription_error_explained(e1[i], log1, old(ledger)@, extension_id@, events_present));
                if e1[i].kind is Release {
                    assert(refused_release_in(log1, ResourceKind::EventSubscription, e1[i].subject@));
                }
            }
        }
        assert forall|i: int| log0.len() <= i < log.calls().len() implies subscription_call_of(
            #[trigger] log.calls()[i],
            old(ledger)@,
            extension_id@,
        ) || (hd matches Some(h) && release_call_of(log.calls()[i], h)) by {
            if i < log1.len() {
                assert(log.calls()[i] == log1[i]);
            }
        }
        assert forall|id: Seq<char>|
            #[trigger] ext_owns_handle(old(ledger)@, extension_id@, id) && !ext_owns_handle(ledger@, extension_id@, id)
                implies released_in(log.calls(), ResourceKind::EventSubscription, id) by {
            assert(released_in(log1, ResourceKind::EventSubscription, id));
        }
        if !has_owner(old(ledger)@, extension_id@) && !(hd matches Some(h) && holds_host_resources(h)) {
            if errors@.len() > 0 {
                let i: int = 0;
                assert(subscription_error_explained(errors@[i], log.calls(), old(ledger)@, extension_id@, events_present)
                    || (hd matches Some(h) && release_error_explained(errors@[i], log.calls(), h, p)));
                if errors@[i].kind is Release && subscription_error_explained(errors@[i], log.calls(), old(ledger)@, extension_id@, events_present) {
                    let w = choose|w: int| 0 <= w < old(ledger)@.len() && (#[trigger] old(ledger)@[w]).0 == extension_id@
                        && old(ledger)@[w].1.0 == errors@[i].subject@;
                    assert(has_owner(old(ledger)@, extension_id@));
                }
                if let Some(h) = hd {
                    match errors@[i].kind {
                        CleanupErrorKind::Release(k) => {
                            if release_error_explained(errors@[i], log.calls(), h, p) {
                                assert(handle_subjects(h, k).len() > 0);
                            }
                        },
                        CleanupErrorKind::HostUnavailable(host) => {
                            if release_error_explained(errors@[i], log.calls(), h, p) {
                                assert(handle_subjects(h, ResourceKind::ProviderValidation).len() == 0);
                                assert(handle_subjects(h, ResourceKind::ProviderCapability).len() == 0);
                                assert(handle_subjects(h, ResourceKind::Provider).len() == 0);
                                assert(handle_subjects(h, ResourceKind::Protocol).len() == 0);
                                assert(handle_subjects(h, ResourceKind::ToolOverride).len() == 0);
                                assert(handle_subjects(h, ResourceKind::ToolServer).len() == 0);
                                assert(handle_subjects(h, ResourceKind::McpServer).len() == 0);
                                assert(handle_subjects(h, ResourceKind::Skill).len() == 0);
                                assert(handle_subjects(h, ResourceKind::Language).len() == 0);
                            }
                        },
                    }
                }
                assert(false);
            }
        }
    }
    (kept, errors)
}

// ---------------------------------------------------------------------------
// Laws
// ---------------------------------------------------------------------------

/// When release reports no failure for a kind of resource, the handle keeps
/// no resource of that kind.
pub proof fn law_unreported_release_empties(
    before: Seq<String>,
    after: Seq<String>,
    errs: Seq<CleanupError>,
    kind: ResourceKind,
)
    requires
        released_or_reported(before, after, errs, kind),
        forall|i: int| 0 <= i < errs.len() ==> #[trigger] errs[i].kind != CleanupErrorKind::Release(kind),
    ensures
        after.len() == 0,
{
    if after.len() > 0 {
        assert(reported(errs, kind, after[0]@));
    }
}

/// Release never invents a resource: whatever a handle still lists after a
/// release it listed before.
pub proof fn law_release_only_shrinks(
    before: Seq<String>,
    after: Seq<String>,
    errs: Seq<CleanupError>,
    kind: ResourceKind,
    id: Seq<char>,
)
    requires
        released_or_reported(before, after, errs, kind),
        views(after).contains(id),
    ensures
        views(before).contains(id),
{
    let k = choose|k: int| 0 <= k < views(after).len() && views(after)[k] == id;
    assert(views(before).contains(after[k]@));
}

/// A release through every host that reports no failure leaves the handle
/// owning nothing.
pub proof fn law_clean_release_owns_nothing(before: ExtensionRuntimeHandle, after: ExtensionRuntimeHandle)
    requires
        handle_released(before, after, Seq::empty(), true, true, true, true, true),
    ensures
        after.owns_nothing(),
{
    let e = Seq::<CleanupError>::empty();
    if after.provider_validation_ids@.len() > 0 {
        assert(reported(e, ResourceKind::ProviderValidation, after.provider_validation_ids@[0]@));
    }
    if after.provider_capability_ids@.len() > 0 {
        assert(reported(e, ResourceKind::ProviderCapability, after.provider_capability_ids@[0]@));
    }
    if after.provider_ids@.len() > 0 {
        assert(reported(e, ResourceKind::Provider, after.provider_ids@[0]@));
    }
    if after.protocols@.len() > 0 {
        assert(reported(e, ResourceKind::Protocol, protocol_label(after.protocols@[0]@)));
    }
    if after.tool_overrides@.len() > 0 {
        assert(reported(e, ResourceKind::ToolOverride, override_label(override_views(after.tool_overrides@)[0])));
    }
    if after.tool_server_ids@.len() > 0 {
        assert(reported(e, ResourceKind::ToolServer, after.tool_server_ids@[0]@));
    }
    if after.mcp_servers@.len() > 0 {
        assert(reported(e, ResourceKind::McpServer, after.mcp_servers@[0]@));
    }
    if after.skills@.len() > 0 {
        assert(reported(e, ResourceKind::Skill, after.skills@[0]@));
    }
    if after.languages@.len() > 0 {
        assert(reported(e, ResourceKind::Language, after.languages@[0]@));
    }
}

/// Reconciling is idempotent: a handle whose counts are already reconciled
/// reconciles to the same counts.
pub proof fn law_reconcile_idempotent(h: ExtensionRuntimeHandle, h2: ExtensionRuntimeHandle)
    requires
        h2.same_resources(h),
        h2.projection.contribution_counts == h.reconciled_counts(),
    ensures
        h2.reconciled_counts() == h2.projection.contribution_counts,
{
}

// ---------------------------------------------------------------------------
// Event subscriptions
// ---------------------------------------------------------------------------

/// A failure reported while releasing the subscriptions of `ext` has a
/// cause: the host refused to release a subscription `ext` owned, or the
/// host is missing while `ext` owns subscriptions.
pub open spec fn subscription_error_explained(
    e: CleanupError,
    log: Seq<HostCall>,
    ledger: LedgerView,
    ext: Seq<char>,
    host_present: bool,
) -> bool {
    match e.kind {
        CleanupErrorKind::Release(k) => k == ResourceKind::EventSubscription && ext_owns_handle(ledger, ext, e.subject@)
            && refused_release_in(log, k, e.subject@),
        CleanupErrorKind::HostUnavailable(h) => h == HostKind::EventSubscriptions && !host_present && has_owner(
            ledger,
            ext,
        ),
    }
}

/// `c` releases a subscription `ext` owns in `ledger`.
pub open spec fn subscription_call_of(c: HostCall, ledger: LedgerView, ext: Seq<char>) -> bool {
    match c {
        HostCall::Release { kind, subject, .. } => kind == ResourceKind::EventSubscription && ext_owns_handle(
            ledger,
            ext,
            subject,
        ),
        HostCall::Register { .. } => false,
    }
}

/// Releasing the subscriptions of `ext` went through the host: each one
/// dropped was released by a call the host accepted; each failure appended
/// has a cause; each call appended releases a subscription `ext` owned.
pub open spec fn subscriptions_logged(
    before: LedgerView,
    after: LedgerView,
    ext: Seq<char>,
    host_present: bool,
    errs0: Seq<CleanupError>,
    errs: Seq<CleanupError>,
    log0: Seq<HostCall>,
    log: Seq<HostCall>,
) -> bool {
    &&& errs0.is_prefix_of(errs)
    &&& log0.is_prefix_of(log)
    &&& forall|id: Seq<char>|
        #[trigger] ext_owns_handle(before, ext, id) && !ext_owns_handle(after, ext, id) ==> released_in(
            log,
            ResourceKind::EventSubscription,
            id,
        )
    &&& forall|i: int|
        errs0.len() <= i < errs.len() ==> subscription_error_explained(#[trigger] errs[i], log, before, ext, host_present)
    &&& forall|i: int| log0.len() <= i < log.len() ==> subscription_call_of(#[trigger] log[i], before, ext)
}

/// Each record `owned_by` lists is owned.
proof fn lemma_record_owned(l: LedgerView, ext: Seq<char>, k: int)
    requires
        0 <= k < owned_by(l, ext).len(),
    ensures
        ext_owns_handle(l, ext, owned_by(l, ext)[k].0),
    decreases l.len(),
{
    let p = l.drop_last();
    if l.last().0 == ext && k == owned_by(l, ext).len() - 1 {
        assert(l[l.len() - 1].0 == ext);
    } else {
        if l.last().0 == ext {
            assert(owned_by(l, ext)[k] == owned_by(p, ext)[k]);
        }
        lemma_record_owned(p, ext, k);
        let i = choose|i: int| 0 <= i < p.len() && (#[trigger] p[i]).0 == ext && p[i].1.0 == owned_by(p, ext)[k].0;
        assert(l[i] == p[i]);
    }
}

/// Releases the event subscriptions `extension_id` owns in `ledger`, last
/// first, through the subscription host. A subscription leaves the ledger
/// only when the host removed it; one that stays is reported. Without a host
/// nothing changes and the missing host is reported when the extension owns
/// subscriptions. Other extensions' subscriptions are untouched.
pub fn release_subscriptions<P: EventSubscriptionPort + ?Sized>(
    extension_id: &str,
    ledger: &mut ExtensionSubscriptionLedger,
    port: Option<&mut P>,
    cleanup_errors: &mut Vec<CleanupError>,
    log: &mut HostCallLog,
)
    requires
        old(ledger).wf(),
    ensures
        final(ledger).wf(),
        old(cleanup_errors)@.is_prefix_of(final(cleanup_errors)@),
        forall|e: Seq<char>, id: Seq<char>|
            e != extension_id@ ==> (ext_owns_handle(final(ledger)@, e, id) <==> ext_owns_handle(old(ledger)@, e, id)),
        forall|id: Seq<char>|
            ext_owns_handle(final(ledger)@, extension_id@, id) ==> ext_owns_handle(old(ledger)@, extension_id@, id),
        port is Some ==> forall|id: Seq<char>|
            ext_owns_handle(final(ledger)@, extension_id@, id) ==> reported(
                final(cleanup_errors)@,
                ResourceKind::EventSubscription,
                id,
            ),
        port is None ==> final(ledger)@ == old(ledger)@ && (has_owner(old(ledger)@, extension_id@)
            ==> reported_missing(final(cleanup_errors)@, HostKind::EventSubscriptions)),
        subscriptions_logged(
            old(ledger)@,
            final(ledger)@,
            extension_id@,
            port is Some,
            old(cleanup_errors)@,
            final(cleanup_errors)@,
            old(log).calls(),
            final(log).calls(),
        ),
{
    let records = ledger.records(extension_id);
    let ghost l0 = ledger@;
    let ghost ext = extension_id@;
    let ghost errs0 = cleanup_errors@;
    let ghost log0 = log.calls();
    let ghost recs = record_views(records@);
    proof {
        assert(errs0.is_prefix_of(errs0));
        assert(log0.is_prefix_of(log0));
    }
    if records.len() == 0 {
        proof {
            if has_owner(l0, ext) {
                let k = choose|k: int| 0 <= k < l0.len() && (#[trigger] l0[k]).0 == ext;
                assert(ext_owns_handle(l0, ext, l0[k].1.0));
                lemma_owned_record(l0, ext, l0[k].1.0);
            }
        }
        return;
    }
    match port {
        None => {
            report_missing(HostKind::EventSubscriptions, cleanup_errors);
            proof {
                assert(recs.len() > 0);
                lemma_record_owned(l0, ext, 0);
                assert(has_owner(l0, ext));
            }
        },
        Some(p) => {
            proof {
                assert forall|id: Seq<char>| ext_owns_handle(l0, ext, id) implies exists|k: int|
                    0 <= k < recs.len() && (#[trigger] recs[k]).0 == id by {
                    lemma_owned_record(l0, ext, id);
                }
            }
            let mut i = records.len();
            while i > 0
                invariant
                    i <= records@.len(),
                    ext == extension_id@,
                    recs == record_views(records@),
                    ledger.wf(),
                    errs0.is_prefix_of(cleanup_errors@),
                    forall|e: Seq<char>, id: Seq<char>|
                        e != ext ==> (ext_owns_handle(ledger@, e, id) <==> ext_owns_handle(l0, e, id)),
                    forall|id: Seq<char>| ext_owns_handle(ledger@, ext, id) ==> ext_owns_handle(l0, ext, id),
                    forall|id: Seq<char>|
                        ext_owns_handle(l0, ext, id) ==> exists|k: int| 0 <= k < recs.len() && (#[trigger] recs[k]).0 == id,
                    forall|id: Seq<char>|
                        ext_owns_handle(ledger@, ext, id) ==> (exists|k: int| 0 <= k < i && (#[trigger] recs[k]).0 == id)
                            || reported(cleanup_errors@, ResourceKind::EventSubscription, id),
                subscriptions_logged(l0, ledger@, ext, true, errs0, cleanup_errors@, log0, log.calls()),
                recs == owned_by(l0, ext),
                decreases i,
            {
                i = i - 1;
                let sid = &records[i].subscription_id;
                let ghost pre = ledger@;
                let ghost pre_errs = cleanup_errors@;
                let ghost pre_log = log.calls();
                proof {
                    assert(recs[i as int] == records@[i as int]@);
                    lemma_record_owned(l0, ext, i as int);
                    assert(ext_owns_handle(l0, ext, sid@));
                }
                let answer = p.unsubscribe_extension(extension_id, sid);
                log.record(
                    Ghost(HostCall::Release { kind: ResourceKind::EventSubscription, subject: sid@, accepted: answer is Ok }),
                );
                proof {
                    lemma_log_grows(pre_log, log.calls());
                    lemma_prefix_trans(log0, pre_log, log.calls());
                    assert(log.calls()[log.calls().len() - 1] == HostCall::Release {
                        kind: ResourceKind::EventSubscription,
                        subject: sid@,
                        accepted: answer is Ok,
                    });
                    assert forall|k: int| log0.len() <= k < log.calls().len() implies subscription_call_of(
                        #[trigger] log.calls()[k],
                        l0,
                        ext,
                    ) by {
                        if k < pre_log.len() {
                            assert(log.calls()[k] == pre_log[k]);
                        }
                    }
                    assert forall|k: int| errs0.len() <= k < cleanup_errors@.len() implies subscription_error_explained(
                        #[trigger] cleanup_errors@[k],
                        log.calls(),
                        l0,
                        ext,
                        true,
                    ) by {
                        if cleanup_errors@[k].kind is Release {
                            assert(refused_release_in(pre_log, ResourceKind::EventSubscription, cleanup_errors@[k].subject@));
                        }
                    }
                    assert forall|id: Seq<char>|
                        #[trigger] ext_owns_handle(l0, ext, id) && !ext_owns_handle(ledger@, ext, id) implies released_in(
                        log.calls(),
                        ResourceKind::EventSubscription,
                        id,
                    ) by {
                        assert(released_in(pre_log, ResourceKind::EventSubscription, id));
                    }
                }
                match answer {
                    Err(e) => {
                        cleanup_errors.push(
                            CleanupError {
                                kind: CleanupErrorKind::Release(ResourceKind::EventSubscription),
                                subject: owned(sid.as_str()),
                                detail: e,
                            },
                        );
                        proof {
                            let last = cleanup_errors@.len() - 1;
                            assert(cleanup_errors@[last].kind == CleanupErrorKind::Release(ResourceKind::EventSubscription));
                            assert(refused_release_in(log.calls(), ResourceKind::EventSubscription, sid@));
                            assert forall|k: int| errs0.len() <= k < cleanup_errors@.len() implies subscription_error_explained(
                                #[trigger] cleanup_errors@[k],
                                log.calls(),
                                l0,
                                ext,
                                true,
                            ) by {
                                if k < last {
                                    assert(cleanup_errors@[k] == pre_errs[k]);
                                }
                            }
                            assert(errs0.is_prefix_of(cleanup_errors@)) by {
                                assert forall|k: int| 0 <= k < errs0.len() implies errs0[k] == cleanup_errors@[k] by {
                                    assert(errs0[k] == pre_errs[k]);
                                }
                            }
                            assert forall|id: Seq<char>| ext_owns_handle(ledger@, ext, id) implies (exists|k: int|
                                0 <= k < i && (#[trigger] recs[k]).0 == id) || reported(
                                cleanup_errors@,
                                ResourceKind::EventSubscription,
                                id,
                            ) by {
                                if reported(pre_errs, ResourceKind::EventSubscription, id) {
                                    lemma_reported_grows(pre_errs, cleanup_errors@, ResourceKind::EventSubscription, id);
                                } else {
                                    let k = choose|k: int| 0 <= k < i + 1 && (#[trigger] recs[k]).0 == id;
                                    if k == i {
                                        assert(cleanup_errors@[last].subject@ == id);
                                    }
                                }
                            }
                        }
                    },
                    Ok(()) => {
                        let _ = ledger.remove(extension_id, sid);
                        proof {
                            assert(released_in(log.calls(), ResourceKind::EventSubscription, sid@));
                            assert forall|id: Seq<char>|
                                #[trigger] ext_owns_handle(l0, ext, id) && !ext_owns_handle(ledger@, ext, id) implies released_in(
                                log.calls(),
                                ResourceKind::EventSubscription,
                                id,
                            ) by {
                                lemma_without_owns(pre, ext, sid@, ext, id);
                            }
                            assert forall|e: Seq<char>, id: Seq<char>|
                                e != ext implies (ext_owns_handle(ledger@, e, id) <==> ext_owns_handle(l0, e, id)) by {
                                lemma_without_owns(pre, ext, sid@, e, id);
                                assert(ext_owns_handle(pre, e, id) <==> ext_owns_handle(l0, e, id));
                            }
                            assert forall|id: Seq<char>| ext_owns_handle(ledger@, ext, id) implies ext_owns_handle(
                                l0,
                                ext,
                                id,
                            ) by {
                                lemma_without_owns(pre, ext, sid@, ext, id);
                            }
                            assert forall|id: Seq<char>| ext_owns_handle(ledger@, ext, id) implies (exists|k: int|
                                0 <= k < i && (#[trigger] recs[k]).0 == id) || reported(
                                cleanup_errors@,
                                ResourceKind::EventSubscription,
                                id,
                            ) by {
                                lemma_without_owns(pre, ext, sid@, ext, id);
                                assert(ext_owns_handle(pre, ext, id));
                                assert(recs[i as int].0 == sid@);
                                if !reported(cleanup_errors@, ResourceKind::EventSubscription, id) {
                                    let k = choose|k: int| 0 <= k < i + 1 && (#[trigger] recs[k]).0 == id;
                                    assert(k != i);
                                }
                            }
                        }
                    },
                }
            }
            proof {
                assert forall|id: Seq<char>| ext_owns_handle(ledger@, ext, id) implies reported(
                    cleanup_errors@,
                    ResourceKind::EventSubscription,
                    id,
                ) by {
                    if !reported(cleanup_errors@, ResourceKind::EventSubscription, id) {
                        let k = choose|k: int| 0 <= k < 0 && (#[trigger] recs[k]).0 == id;
                    }
                }
            }
        },
    }
}

} // verus!

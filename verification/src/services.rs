//! Names of the capability services the host offers backend extensions, and
//! the service seams extensions may replace.

use vstd::prelude::*;
use vstd::string::*;

use crate::models::BackendServiceRegistration;
use crate::text::owned;

verus! {

/// The backend extension lifecycle.
pub const SERVICE_LIFECYCLE: &'static str = "lifecycle";

/// MCP.
pub const SERVICE_MCP: &'static str = "mcp";

/// LSP.
pub const SERVICE_LSP: &'static str = "lsp";

/// The Gateway.
pub const SERVICE_GATEWAY: &'static str = "gateway";

/// Extension-owned provider validation.
pub const SERVICE_PROVIDER_VALIDATION: &'static str = "provider_validation";

/// Extension event subscriptions.
pub const SERVICE_EVENT_SUBSCRIPTION: &'static str = "event_subscription";

/// The backend process manager.
pub const SERVICE_BACKEND_MANAGER: &'static str = "backend_manager";

/// Backend process management.
pub const SERVICE_BACKEND_PROCESS: &'static str = "backend_process";

/// The WASM component registry.
pub const SERVICE_COMPONENT_REGISTRY: &'static str = "component_registry";

/// The global policy engine.
pub const SERVICE_POLICY_ENGINE: &'static str = "policy_engine";

/// The agent orchestration loop.
pub const SERVICE_AGENT_LOOP: &'static str = "agentLoop";

/// Backend process management as the lifecycle needs it: start a declared
/// service while the extension is loading, and stop all of an extension's
/// processes.
pub trait BackendProcessPort: Send + Sync {
    fn spawn_for_lifecycle(&self, extension_id: &str, service: &BackendServiceRegistration) -> Result<
        String,
        String,
    >;

    fn kill_all_for_extension(&self, extension_id: &str);
}

/// The input of one agent turn.
#[derive(Debug, Clone)]
pub struct AgentLoopContext {
    pub session_id: String,
    pub worktree: Option<String>,
    pub message: String,
}

/// The result of one agent turn.
#[derive(Debug, Clone, PartialEq)]
pub enum AgentLoopOutcome {
    /// A direct answer, no tool loop.
    Direct(String),
    /// The final messages after the tool loop.
    FinalMessages(Vec<String>),
}

/// The agent orchestration seam: the host provides a default, extensions
/// may replace it.
pub trait AgentLoopPort: Send + Sync {
    fn run_turn(&self, ctx: AgentLoopContext) -> Result<AgentLoopOutcome, String>;
}

/// The host's default agent loop; orchestration is not wired into it, so it
/// fails closed.
pub struct DefaultAgentLoopPort;

impl AgentLoopPort for DefaultAgentLoopPort {
    fn run_turn(&self, ctx: AgentLoopContext) -> (r: Result<AgentLoopOutcome, String>)
        ensures
            r matches Err(e) && e@ == "agentLoop default impl not wired yet"@,
    {
        proof {
            reveal_strlit("agentLoop default impl not wired yet");
        }
        Err(owned("agentLoop default impl not wired yet"))
    }
}

} // verus!

use std::sync::Arc;

use navis_extension::context::{disposal_outcome, resolve_capability, ErasedCapability, HostExtensionContext};
use navis_extension::services::{
    AgentLoopContext, AgentLoopOutcome, AgentLoopPort, DefaultAgentLoopPort, SERVICE_AGENT_LOOP,
};

trait GreeterPort: Send + Sync {
    fn greeting(&self) -> &'static str;
}

struct StaticGreeter;

impl GreeterPort for StaticGreeter {
    fn greeting(&self) -> &'static str {
        "hello"
    }
}

struct TestAgentLoopPort;

impl AgentLoopPort for TestAgentLoopPort {
    fn run_turn(&self, ctx: AgentLoopContext) -> Result<AgentLoopOutcome, String> {
        Ok(AgentLoopOutcome::Direct(ctx.message))
    }
}

#[test]
fn capability_service_dyn_trait_round_trip() {
    let mut host = HostExtensionContext::new();

    host.register_capability_service::<dyn GreeterPort>("greet", Arc::new(StaticGreeter))
        .unwrap();

    let provided: Arc<dyn GreeterPort> = host
        .get_capability_service::<dyn GreeterPort>("greet")
        .unwrap()
        .expect("capability service should be visible after registration");
    assert_eq!(provided.greeting(), "hello");

    let required: Arc<dyn GreeterPort> = host
        .require_capability_service::<dyn GreeterPort>("greet")
        .unwrap();
    assert_eq!(required.greeting(), "hello");
}

#[test]
fn duplicate_capability_service_is_rejected() {
    let mut host = HostExtensionContext::new();
    host.register_capability_service::<dyn GreeterPort>("greet", Arc::new(StaticGreeter))
        .unwrap();

    let result =
        host.register_capability_service::<dyn GreeterPort>("greet", Arc::new(StaticGreeter));
    assert!(result.is_err());
    assert!(result
        .unwrap_err()
        .to_string()
        .contains("has been registered"));
}

#[test]
fn missing_capability_service_returns_none() {
    let host = HostExtensionContext::new();
    let service = host.get_capability_service::<dyn GreeterPort>("mcp").unwrap();
    assert!(service.is_none());
}

#[test]
fn missing_required_service_is_an_error() {
    let host = HostExtensionContext::default();
    let error = host.require_capability_service::<dyn GreeterPort>("mcp").err().unwrap();
    assert!(error.to_string().contains("`mcp` is not registered"));
    assert!(resolve_capability::<dyn GreeterPort>(&host, "mcp").unwrap().is_none());
}

#[test]
fn reading_with_another_type_is_refused() {
    let mut host = HostExtensionContext::new();
    host.register_capability_service::<dyn GreeterPort>("greet", Arc::new(StaticGreeter)).unwrap();
    assert!(host.get_capability_service::<dyn AgentLoopPort>("greet").is_err());
}

#[test]
fn erased_capability_keeps_its_port() {
    let port: Arc<dyn GreeterPort> = Arc::new(StaticGreeter);
    let erased = ErasedCapability::new(port);
    assert_eq!(erased.inner().greeting(), "hello");
}

#[test]
fn agent_loop_capability_service_registration_round_trip() {
    let mut host = HostExtensionContext::new();

    host.register_capability_service::<dyn AgentLoopPort>(
        SERVICE_AGENT_LOOP,
        Arc::new(TestAgentLoopPort),
    )
    .unwrap();

    let ctx = AgentLoopContext {
        session_id: "session-test".into(),
        worktree: Some("D:\\worktree".into()),
        message: "hello".into(),
    };

    let provided: Arc<dyn AgentLoopPort> = host
        .get_capability_service::<dyn AgentLoopPort>(SERVICE_AGENT_LOOP)
        .unwrap()
        .expect("agentLoop capability service should be visible after registration");
    assert_eq!(
        provided.run_turn(ctx.clone()).unwrap(),
        AgentLoopOutcome::Direct("hello".into())
    );

    let required: Arc<dyn AgentLoopPort> = host
        .require_capability_service::<dyn AgentLoopPort>(SERVICE_AGENT_LOOP)
        .unwrap();
    assert!(required.run_turn(ctx).is_ok());

    assert!(host
        .get_capability_service::<dyn AgentLoopPort>("missing")
        .unwrap()
        .is_none());
}

#[test]
fn default_agent_loop_fails_closed() {
    let ctx = AgentLoopContext { session_id: "s".into(), worktree: None, message: "m".into() };
    assert_eq!(
        DefaultAgentLoopPort.run_turn(ctx).unwrap_err(),
        "agentLoop default impl not wired yet"
    );
}

#[test]
fn fibers_are_tracked_per_extension() {
    let mut host = HostExtensionContext::new();
    assert_eq!(host.track_fiber("ext.a", 1), None);
    assert_eq!(host.track_fiber("ext.b", 2), None);
    assert_eq!(host.track_fiber("ext.a", 3), Some(1));
    assert_eq!(host.take_extension_fiber("ext.a"), Some(3));
    assert_eq!(host.take_extension_fiber("ext.a"), None);
    assert_eq!(host.dispose_extension("ext.b"), Some(2));
    assert_eq!(host.dispose_extension("ext.b"), None);
}

#[test]
fn a_failed_disposal_names_the_extension() {
    assert!(disposal_outcome("ext.a", None).is_ok());
    assert!(disposal_outcome("ext.a", Some(Ok(()))).is_ok());
    assert_eq!(
        disposal_outcome("ext.a", Some(Err("still running".to_string()))).unwrap_err(),
        "failed to dispose extension `ext.a`: still running"
    );
}

#[test]
fn an_erased_capability_clone_shares_the_port() {
    let port: Arc<dyn GreeterPort> = Arc::new(StaticGreeter);
    let erased = ErasedCapability::new(port.clone());
    let copy = erased.clone();
    assert!(Arc::ptr_eq(erased.inner(), copy.inner()));
    assert_eq!(copy.inner().greeting(), "hello");
}

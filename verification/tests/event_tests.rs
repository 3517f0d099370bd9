use navis_extension::event::{
    DeclaredEventSubscription, ExtensionSubscriptionLedger, ExtensionSubscriptionRecord,
    SubscriptionId, Topic,
};
use navis_extension::models::{EventHandlerReference, EventSubscriptionRegistration};
use navis_extension::event::{check_declared_subscriptions, is_high_frequency_pattern};

fn record(id: &str) -> ExtensionSubscriptionRecord {
    ExtensionSubscriptionRecord {
        subscription_id: SubscriptionId::new(id),
        topic: Topic::new("agent.completed"),
        scope_key: Some("session:1".to_string()),
    }
}

#[test]
fn declared_event_subscription_projects_from_manifest_dto() {
    let registration = EventSubscriptionRegistration {
        id: "session-completed".into(),
        topic: "session.completed".into(),
        scope_key: Some("session:active".into()),
        handler: EventHandlerReference {
            module: "./runtime/events".into(),
            export: "onSessionCompleted".into(),
        },
    };
    let projected = DeclaredEventSubscription::from(&registration);
    assert_eq!(projected.id, "session-completed");
    assert_eq!(projected.topic, "session.completed");
    assert_eq!(projected.scope_key.as_deref(), Some("session:active"));
}

#[test]
fn ledger_empty_batch_does_not_create_owner() {
    let mut ledger = ExtensionSubscriptionLedger::default();
    ledger.record_many("ext.demo", &vec![]).unwrap();
    assert!(!ledger.contains_extension("ext.demo"));
    assert!(ledger.records("ext.demo").is_empty());
}

#[test]
fn ledger_records_and_removes_owned_subscription() {
    let mut ledger = ExtensionSubscriptionLedger::default();
    ledger.record_many("ext.demo", &vec![record("sub-1")]).unwrap();
    assert!(ledger.contains_extension("ext.demo"));
    assert_eq!(ledger.records("ext.demo").len(), 1);

    assert!(ledger.remove("ext.demo", &SubscriptionId::new("sub-1")));
    assert!(!ledger.contains_extension("ext.demo"));
    assert!(ledger.records("ext.demo").is_empty());
}

#[test]
fn ledger_rejects_duplicate_opaque_handle() {
    let mut ledger = ExtensionSubscriptionLedger::default();
    ledger.record_many("ext.one", &vec![record("sub-1")]).unwrap();
    let error = ledger
        .record_many("ext.two", &vec![record("sub-1")])
        .unwrap_err();
    assert!(error.to_string().contains("already owned"));
}

#[test]
fn ledger_does_not_remove_unknown_handle() {
    let mut ledger = ExtensionSubscriptionLedger::default();
    ledger.record_many("ext.demo", &vec![record("sub-1")]).unwrap();
    assert!(!ledger.remove("ext.demo", &SubscriptionId::new("missing")));
    assert_eq!(ledger.records("ext.demo").len(), 1);
}

#[test]
fn ledger_batch_record_is_atomic_when_validation_fails() {
    let mut ledger = ExtensionSubscriptionLedger::default();
    let error = ledger
        .record_many("ext.demo", &vec![record("sub-1"), record("sub-1")])
        .unwrap_err();

    assert!(error.to_string().contains("duplicated"));
    assert!(ledger.records("ext.demo").is_empty());
}

#[test]
fn ledger_blank_extension_id_is_rejected() {
    let mut ledger = ExtensionSubscriptionLedger::default();
    let error = ledger.record_many("  ", &vec![record("sub-1")]).unwrap_err();
    assert_eq!(error.to_string(), "Extension ID must not be empty");
    assert!(ledger.records("  ").is_empty());
}

#[test]
fn ledger_records_keep_registration_order_per_extension() {
    let mut ledger = ExtensionSubscriptionLedger::new();
    ledger.record_many("ext.a", &vec![record("a-1"), record("a-2")]).unwrap();
    ledger.record_many("ext.b", &vec![record("b-1")]).unwrap();
    ledger.record_many("ext.a", &vec![record("a-3")]).unwrap();
    let ids: Vec<String> = ledger
        .records("ext.a")
        .iter()
        .map(|r| r.subscription_id.as_str().to_string())
        .collect();
    assert_eq!(ids, vec!["a-1", "a-2", "a-3"]);
    assert_eq!(ledger.records("ext.b").len(), 1);
    assert!(ledger.remove("ext.a", &SubscriptionId::new("a-2")));
    assert_eq!(ledger.records("ext.a").len(), 2);
    assert_eq!(ledger.records("ext.b").len(), 1);
}

#[test]
fn removing_another_extensions_handle_is_refused() {
    let mut ledger = ExtensionSubscriptionLedger::new();
    ledger.record_many("ext.a", &vec![record("a-1")]).unwrap();
    assert!(!ledger.remove("ext.b", &SubscriptionId::new("a-1")));
    assert_eq!(ledger.records("ext.a").len(), 1);
}

#[test]
fn high_frequency_patterns_cover_agent_terminal_and_task_families() {
    for pattern in ["agent", "agent/pre-step", "agent.*", "terminal:output", "  task/run  "] {
        assert!(is_high_frequency_pattern(pattern), "{pattern}");
    }
    for pattern in ["agents", "tools/pre-execute", "llm/stream", "session.*", "taskbar"] {
        assert!(!is_high_frequency_pattern(pattern), "{pattern}");
    }
}

#[test]
fn declared_high_frequency_topics_are_refused_before_registration() {
    let ok = DeclaredEventSubscription {
        id: "a".into(),
        topic: "session.completed".into(),
        scope_key: None,
    };
    let hot = DeclaredEventSubscription {
        id: "b".into(),
        topic: "agent/pre-step".into(),
        scope_key: None,
    };
    assert!(check_declared_subscriptions("ext.demo", &vec![ok.clone()]).is_ok());
    let error = check_declared_subscriptions("ext.demo", &vec![ok, hot]).unwrap_err();
    assert!(error.to_string().contains("agent/pre-step"));
    assert!(error.to_string().contains("stream channel"));
    assert!(check_declared_subscriptions(" ", &vec![]).is_err());
}

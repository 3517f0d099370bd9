use std::cell::RefCell;

use navis_extension::event::{DeclaredEventSubscription, ExtensionSubscriptionLedger, SubscriptionId, Topic};
use navis_extension::runtime::{release_subscriptions, CleanupError, HostCallLog};
use navis_extension::subscriptions::{
    EventSubscriptionPort, KernelEventBus, KernelEventSubscriptionAdapter,
};

/// An EventBus that numbers its handles and refuses the topics and handles
/// it is told to.
#[derive(Default)]
struct Bus {
    next: RefCell<u32>,
    refused_topics: Vec<String>,
    refused_handles: RefCell<Vec<String>>,
    log: RefCell<Vec<String>>,
}

impl KernelEventBus for Bus {
    fn subscribe(&self, topic: &Topic, _scope_key: Option<String>) -> Result<SubscriptionId, String> {
        if self.refused_topics.iter().any(|t| t == topic.as_str()) {
            return Err("refused".to_string());
        }
        let mut next = self.next.borrow_mut();
        *next += 1;
        let id = format!("sub-{}", *next);
        self.log.borrow_mut().push(format!("subscribe {} {id}", topic.as_str()));
        Ok(SubscriptionId::new(&id))
    }

    fn unsubscribe(&self, id: &SubscriptionId) -> Result<(), String> {
        self.log.borrow_mut().push(format!("unsubscribe {}", id.as_str()));
        if self.refused_handles.borrow().iter().any(|h| h == id.as_str()) {
            return Err("busy".to_string());
        }
        Ok(())
    }
}

fn declared(id: &str, topic: &str) -> DeclaredEventSubscription {
    DeclaredEventSubscription { id: id.to_string(), topic: topic.to_string(), scope_key: None }
}

#[test]
fn declared_subscriptions_register_in_order() {
    let mut adapter = KernelEventSubscriptionAdapter::new(Bus::default());
    let records = adapter
        .subscribe_declared("example", &vec![declared("a", "session.created"), declared("b", "tools.*")])
        .unwrap();
    assert_eq!(records.len(), 2);
    assert_eq!(records[0].topic.as_str(), "session.created");
    assert_eq!(records[1].topic.as_str(), "tools.*");
    assert_eq!(records[0].subscription_id.as_str(), "sub-1");
    assert!(adapter.unsubscribe_extension("example", &records[1].subscription_id).is_ok());
}

#[test]
fn high_frequency_topics_refuse_the_whole_batch() {
    let mut adapter = KernelEventSubscriptionAdapter::new(Bus::default());
    let error = adapter
        .subscribe_declared("example", &vec![declared("a", "session.created"), declared("b", "agent/pre-step")])
        .unwrap_err();
    assert_eq!(
        error,
        "Event topic 'agent/pre-step' declared by Extension 'example' is a high-frequency stream pattern (agent/terminal/task) and must use the stream channel"
    );
    assert!(adapter.event_bus().log.borrow().is_empty());
}

#[test]
fn a_refused_subscription_withdraws_the_batch() {
    let bus = Bus { refused_topics: vec!["tools.*".to_string()], ..Bus::default() };
    let mut adapter = KernelEventSubscriptionAdapter::new(bus);
    let error = adapter
        .subscribe_declared("example", &vec![declared("a", "session.created"), declared("b", "tools.*")])
        .unwrap_err();
    assert_eq!(error, "Extension 'example' failed to subscribe to event topic 'tools.*': refused");
    assert_eq!(
        *adapter.event_bus().log.borrow(),
        vec!["subscribe session.created sub-1".to_string(), "unsubscribe sub-1".to_string()]
    );
    assert!(adapter.unsubscribe_all("example").is_ok());
}

#[test]
fn only_the_owner_can_unsubscribe() {
    let mut adapter = KernelEventSubscriptionAdapter::new(Bus::default());
    let id = adapter.subscribe_extension("owner", "session.created".to_string(), None).unwrap();
    assert_eq!(
        adapter.unsubscribe_extension("other", &id).unwrap_err(),
        "Event subscription 'sub-1' belongs to Extension 'owner', not 'other'"
    );
    assert!(adapter.unsubscribe_extension("owner", &id).is_ok());
    assert_eq!(
        adapter.unsubscribe_extension("owner", &id).unwrap_err(),
        "Event subscription 'sub-1' is not owned by an Extension"
    );
    assert_eq!(
        adapter.subscribe_extension("  ", "session.created".to_string(), None).unwrap_err(),
        "Extension ID must not be empty"
    );
}

#[test]
fn unsubscribe_all_keeps_failed_handles_for_a_retry() {
    let mut adapter = KernelEventSubscriptionAdapter::new(Bus::default());
    adapter.subscribe_extension("example", "a".to_string(), None).unwrap();
    adapter.subscribe_extension("example", "b".to_string(), None).unwrap();
    adapter.subscribe_extension("other", "c".to_string(), None).unwrap();
    adapter.event_bus().refused_handles.borrow_mut().push("sub-2".to_string());
    assert_eq!(
        adapter.unsubscribe_all("example").unwrap_err(),
        "Extension 'example' failed to unsubscribe event subscription 'sub-2': busy"
    );
    adapter.event_bus().refused_handles.borrow_mut().clear();
    assert!(adapter.unsubscribe_all("example").is_ok());
    assert!(adapter.unsubscribe_extension("other", &SubscriptionId::new("sub-3")).is_ok());
}

#[test]
fn release_subscriptions_empties_the_ledger_through_the_port() {
    let mut adapter = KernelEventSubscriptionAdapter::new(Bus::default());
    let records = adapter
        .subscribe_declared("example", &vec![declared("a", "session.created"), declared("b", "tools.*")])
        .unwrap();
    let mut ledger = ExtensionSubscriptionLedger::new();
    ledger.record_many("example", &records).unwrap();
    let mut errors: Vec<CleanupError> = Vec::new();
    release_subscriptions("example", &mut ledger, Some(&mut adapter), &mut errors, &mut HostCallLog::new());
    assert!(errors.is_empty());
    assert!(!ledger.contains_extension("example"));
    assert_eq!(
        adapter.event_bus().log.borrow()[2..].to_vec(),
        vec!["unsubscribe sub-2".to_string(), "unsubscribe sub-1".to_string()]
    );
}

#[test]
fn release_subscriptions_reports_failures_and_a_missing_host() {
    let mut adapter = KernelEventSubscriptionAdapter::new(Bus::default());
    let records = adapter.subscribe_declared("example", &vec![declared("a", "session.created")]).unwrap();
    let mut ledger = ExtensionSubscriptionLedger::new();
    ledger.record_many("example", &records).unwrap();

    let mut errors: Vec<CleanupError> = Vec::new();
    release_subscriptions::<KernelEventSubscriptionAdapter<Bus>>("example", &mut ledger, None, &mut errors, &mut HostCallLog::new());
    assert_eq!(
        errors.iter().map(|e| e.to_string()).collect::<Vec<_>>(),
        vec!["Event subscriptions exist but Extension event host is not available".to_string()]
    );
    assert!(ledger.contains_extension("example"));

    adapter.event_bus().refused_handles.borrow_mut().push("sub-1".to_string());
    let mut errors: Vec<CleanupError> = Vec::new();
    release_subscriptions("example", &mut ledger, Some(&mut adapter), &mut errors, &mut HostCallLog::new());
    assert_eq!(errors[0].to_string(), "Event subscription 'sub-1': busy");
    assert!(ledger.contains_extension("example"));
}

fn subscribe_through<P: EventSubscriptionPort>(port: &mut P) -> Result<SubscriptionId, String> {
    port.subscribe_extension("example", "session.created".to_string(), Some("global".to_string()))
}

#[test]
fn the_adapter_is_an_event_subscription_port() {
    let mut adapter = KernelEventSubscriptionAdapter::new(Bus::default());
    let id = subscribe_through(&mut adapter).unwrap();
    assert!(EventSubscriptionPort::unsubscribe_extension(&mut adapter, "example", &id).is_ok());
}

#[test]
fn a_refused_subscription_withdraws_last_first_and_keeps_refused_withdrawals() {
    let bus = Bus { refused_topics: vec!["late.topic".to_string()], ..Bus::default() };
    bus.refused_handles.borrow_mut().push("sub-1".to_string());
    let mut adapter = KernelEventSubscriptionAdapter::new(bus);
    let error = adapter
        .subscribe_declared(
            "example",
            &vec![declared("a", "session.created"), declared("b", "tools.*"), declared("c", "late.topic")],
        )
        .unwrap_err();
    assert_eq!(error, "Extension 'example' failed to subscribe to event topic 'late.topic': refused");
    assert_eq!(
        *adapter.event_bus().log.borrow(),
        vec![
            "subscribe session.created sub-1".to_string(),
            "subscribe tools.* sub-2".to_string(),
            "unsubscribe sub-2".to_string(),
            "unsubscribe sub-1".to_string(),
        ]
    );
    assert_eq!(
        adapter.unsubscribe_extension("example", &SubscriptionId::new("sub-2")).unwrap_err(),
        "Event subscription 'sub-2' is not owned by an Extension"
    );
    adapter.event_bus().refused_handles.borrow_mut().clear();
    assert!(adapter.unsubscribe_extension("example", &SubscriptionId::new("sub-1")).is_ok());
}

#[test]
fn unsubscribe_all_asks_once_per_owned_handle() {
    let mut adapter = KernelEventSubscriptionAdapter::new(Bus::default());
    adapter.subscribe_extension("example", "a".to_string(), None).unwrap();
    adapter.subscribe_extension("other", "b".to_string(), None).unwrap();
    adapter.subscribe_extension("example", "c".to_string(), None).unwrap();
    adapter.event_bus().log.borrow_mut().clear();
    assert!(adapter.unsubscribe_all("example").is_ok());
    let mut asked = adapter.event_bus().log.borrow().clone();
    asked.sort();
    assert_eq!(asked, vec!["unsubscribe sub-1".to_string(), "unsubscribe sub-3".to_string()]);
    adapter.event_bus().log.borrow_mut().clear();
    assert!(adapter.unsubscribe_all("example").is_ok());
    assert!(adapter.event_bus().log.borrow().is_empty());
    assert!(adapter.unsubscribe_extension("other", &SubscriptionId::new("sub-2")).is_ok());
}

use nlogger::bridge::{BootOutcome, Bridge, LogOutcome};
use nlogger::channel::{DispatchChannel, QueueEntry};
use nlogger::dispatcher::{DispatchAction, Dispatcher, DispatcherState, SendOutcome};
use nlogger::event::{AttrValue, LogEvent, RawAttribute, RawRecord, WireMessage};
use nlogger::level::{LogLevel, Severity};
use nlogger::registry::{Ack, DeliveryMode, RecipientId, Registry};

fn record(severity: Severity, message: &str) -> RawRecord {
    RawRecord {
        severity,
        message: message.to_string(),
        attributes: Vec::new(),
        file: None,
        line: None,
    }
}

fn started(mode: DeliveryMode) -> Bridge {
    let mut bridge = Bridge::new(mode, None);
    assert_eq!(bridge.bootstrap(), BootOutcome::Started);
    bridge
}

fn entry(message: &str, targets: &[u64]) -> QueueEntry {
    QueueEntry {
        event: LogEvent::extract(&record(Severity::Info, message)),
        targets: targets.iter().map(|h| RecipientId::new(*h)).collect(),
    }
}

/// Runs the dispatcher until nothing is pending; sends to a recipient in
/// `dead` fail. Returns what was sent, and the action that ended the run.
fn drain(bridge: &mut Bridge, dead: &[u64]) -> (Vec<(u64, WireMessage)>, DispatchAction) {
    let mut sent = Vec::new();
    loop {
        match bridge.poll() {
            DispatchAction::Send { target, message } => {
                let outcome = if dead.contains(&target.handle()) {
                    SendOutcome::Failed
                } else {
                    SendOutcome::Delivered
                };
                sent.push((target.handle(), message));
                bridge.report(outcome);
            }
            other => return (sent, other),
        }
    }
}

fn texts(sent: &[(u64, WireMessage)]) -> Vec<(u64, String)> {
    sent.iter().map(|(h, m)| (*h, m.message.clone())).collect()
}

#[test]
fn channel_is_first_in_first_out() {
    let mut channel = DispatchChannel::new(None);
    assert!(channel.is_empty());
    assert!(channel.enqueue(entry("a", &[1])));
    assert!(channel.enqueue(entry("b", &[1])));
    assert!(channel.enqueue(entry("c", &[1])));
    assert_eq!(channel.len(), 3);
    assert_eq!(channel.dequeue().unwrap().event.message(), "a");
    assert_eq!(channel.dequeue().unwrap().event.message(), "b");
    assert_eq!(channel.dequeue().unwrap().event.message(), "c");
    assert!(channel.dequeue().is_none());
}

#[test]
fn bounded_channel_drops_when_full() {
    let mut channel = DispatchChannel::new(Some(2));
    assert_eq!(channel.capacity(), Some(2));
    assert!(channel.enqueue(entry("a", &[1])));
    assert!(channel.has_room());
    assert!(channel.enqueue(entry("b", &[1])));
    assert!(!channel.has_room());
    assert!(!channel.enqueue(entry("c", &[1])));
    assert_eq!(channel.len(), 2);
    assert_eq!(channel.dequeue().unwrap().event.message(), "a");
    assert!(channel.enqueue(entry("d", &[1])));
    assert_eq!(channel.dequeue().unwrap().event.message(), "b");
    assert_eq!(channel.dequeue().unwrap().event.message(), "d");
}

#[test]
fn channel_with_no_room_at_all_drops_everything() {
    let mut channel = DispatchChannel::new(Some(0));
    assert!(!channel.enqueue(entry("a", &[1])));
    assert!(channel.is_empty());
}

#[test]
fn closed_channel_drops_and_keeps_what_is_queued() {
    let mut channel = DispatchChannel::new(None);
    assert!(channel.enqueue(entry("a", &[1])));
    assert!(!channel.is_closed());
    channel.close();
    assert!(channel.is_closed());
    assert!(!channel.enqueue(entry("b", &[1])));
    assert_eq!(channel.len(), 1);
    assert_eq!(channel.dequeue().unwrap().event.message(), "a");
}

#[test]
fn dispatcher_waits_on_an_empty_open_channel() {
    let mut dispatcher = Dispatcher::new();
    let mut channel = DispatchChannel::new(None);
    assert!(matches!(dispatcher.poll(&mut channel), DispatchAction::Wait));
    assert_eq!(dispatcher.state(), DispatcherState::Idle);
}

#[test]
fn dispatcher_halts_on_a_closed_and_drained_channel() {
    let mut dispatcher = Dispatcher::new();
    let mut registry = Registry::new(DeliveryMode::Broadcast);
    let mut channel = DispatchChannel::new(None);
    channel.enqueue(entry("last", &[1]));
    channel.close();
    match dispatcher.poll(&mut channel) {
        DispatchAction::Send { target, message } => {
            assert_eq!(target.handle(), 1);
            assert_eq!(message.message, "last");
        }
        _ => panic!("the queued entry is still due"),
    }
    dispatcher.report(SendOutcome::Delivered, &mut registry);
    assert!(matches!(dispatcher.poll(&mut channel), DispatchAction::Halt));
}

#[test]
fn dispatcher_repeats_the_send_until_it_is_reported() {
    let mut dispatcher = Dispatcher::new();
    let mut registry = Registry::new(DeliveryMode::Broadcast);
    let mut channel = DispatchChannel::new(None);
    channel.enqueue(entry("once", &[1, 2]));
    for _ in 0..3 {
        match dispatcher.poll(&mut channel) {
            DispatchAction::Send { target, .. } => assert_eq!(target.handle(), 1),
            _ => panic!("a send is due"),
        }
        assert_eq!(dispatcher.state(), DispatcherState::Delivering);
    }
    dispatcher.report(SendOutcome::Delivered, &mut registry);
    match dispatcher.poll(&mut channel) {
        DispatchAction::Send { target, .. } => assert_eq!(target.handle(), 2),
        _ => panic!("a send is due"),
    }
    dispatcher.report(SendOutcome::Delivered, &mut registry);
    assert_eq!(dispatcher.state(), DispatcherState::Idle);
    assert!(matches!(dispatcher.poll(&mut channel), DispatchAction::Wait));
}

#[test]
fn dispatcher_skips_entries_without_recipients() {
    let mut dispatcher = Dispatcher::new();
    let mut channel = DispatchChannel::new(None);
    channel.enqueue(entry("nobody", &[]));
    channel.enqueue(entry("nobody either", &[]));
    channel.enqueue(entry("somebody", &[4]));
    match dispatcher.poll(&mut channel) {
        DispatchAction::Send { target, message } => {
            assert_eq!(target.handle(), 4);
            assert_eq!(message.message, "somebody");
        }
        _ => panic!("a send is due"),
    }
    assert!(channel.is_empty());
}

#[test]
fn dispatcher_ignores_a_report_while_idle() {
    let mut dispatcher = Dispatcher::new();
    let mut registry = Registry::new(DeliveryMode::Broadcast);
    registry.register(RecipientId::new(1));
    dispatcher.report(SendOutcome::Failed, &mut registry);
    assert_eq!(registry.len(), 1);
    assert_eq!(dispatcher.state(), DispatcherState::Idle);
}

#[test]
fn dispatcher_prunes_the_recipient_of_a_failed_send() {
    let mut dispatcher = Dispatcher::new();
    let mut registry = Registry::new(DeliveryMode::Broadcast);
    registry.register(RecipientId::new(1));
    registry.register(RecipientId::new(2));
    let mut channel = DispatchChannel::new(None);
    channel.enqueue(entry("x", &[1, 2]));
    assert!(matches!(dispatcher.poll(&mut channel), DispatchAction::Send { .. }));
    dispatcher.report(SendOutcome::Failed, &mut registry);
    assert!(!registry.contains(RecipientId::new(1)));
    assert!(registry.contains(RecipientId::new(2)));
    assert!(matches!(dispatcher.poll(&mut channel), DispatchAction::Send { .. }));
    dispatcher.report(SendOutcome::Delivered, &mut registry);
    assert!(registry.contains(RecipientId::new(2)));
}

#[test]
fn new_bridge_is_not_enabled() {
    let bridge = Bridge::new(DeliveryMode::SingletonFirst, Some(8));
    assert!(!bridge.enabled());
    assert_eq!(bridge.mode(), DeliveryMode::SingletonFirst);
    assert_eq!(bridge.queued(), 0);
    assert!(!bridge.is_closed());
    assert_eq!(bridge.state(), DispatcherState::Idle);
}

#[test]
fn bootstrap_twice_starts_once() {
    let mut bridge = Bridge::new(DeliveryMode::Broadcast, None);
    assert_eq!(bridge.bootstrap(), BootOutcome::Started);
    assert!(bridge.enabled());
    bridge.register(RecipientId::new(1));
    assert_eq!(bridge.log(&record(Severity::Info, "kept"), None), LogOutcome::Enqueued);
    assert_eq!(bridge.bootstrap(), BootOutcome::AlreadyRunning);
    assert_eq!(bridge.bootstrap(), BootOutcome::AlreadyRunning);
    assert!(bridge.enabled());
    assert!(bridge.is_registered(RecipientId::new(1)));
    assert_eq!(bridge.queued(), 1);
}

#[test]
fn log_before_bootstrap_is_dropped() {
    let mut bridge = Bridge::new(DeliveryMode::Broadcast, None);
    assert_eq!(bridge.register(RecipientId::new(1)), Ack::Accepted);
    assert_eq!(bridge.log(&record(Severity::Info, "early"), None), LogOutcome::NotStarted);
    assert_eq!(bridge.queued(), 0);
}

#[test]
fn scenario_broadcast_hello() {
    let mut bridge = started(DeliveryMode::Broadcast);
    bridge.register(RecipientId::new(1));
    assert_eq!(bridge.log(&record(Severity::Info, "hello"), None), LogOutcome::Enqueued);
    let (sent, end) = drain(&mut bridge, &[]);
    assert!(matches!(end, DispatchAction::Wait));
    assert_eq!(sent.len(), 1);
    let (target, message) = &sent[0];
    assert_eq!(*target, 1);
    assert_eq!(message.minimal().0, "info");
    assert_eq!(message.minimal().1, "hello");
    assert_eq!(message.level, LogLevel::Info);
    assert_eq!(message.attributes.len(), 0);
    assert_eq!(message.file, "");
    assert_eq!(message.line, "");
}

#[test]
fn scenario_singleton_first_failover() {
    let mut bridge = started(DeliveryMode::SingletonFirst);
    bridge.register(RecipientId::new(1));
    bridge.register(RecipientId::new(2));
    assert_eq!(bridge.log(&record(Severity::Info, "x"), None), LogOutcome::Enqueued);
    let (sent, _) = drain(&mut bridge, &[]);
    assert_eq!(texts(&sent), vec![(1, "x".to_string())]);

    assert_eq!(bridge.log(&record(Severity::Info, "lost"), None), LogOutcome::Enqueued);
    let (sent, _) = drain(&mut bridge, &[1]);
    assert_eq!(texts(&sent), vec![(1, "lost".to_string())]);
    assert!(!bridge.is_registered(RecipientId::new(1)));
    assert!(bridge.is_registered(RecipientId::new(2)));

    assert_eq!(bridge.log(&record(Severity::Info, "y"), None), LogOutcome::Enqueued);
    let (sent, _) = drain(&mut bridge, &[1]);
    assert_eq!(texts(&sent), vec![(2, "y".to_string())]);
}

#[test]
fn scenario_nobody_listening() {
    let mut bridge = started(DeliveryMode::Broadcast);
    let raw = RawRecord {
        severity: Severity::Debug,
        message: "unheard".to_string(),
        attributes: vec![
            RawAttribute { key: "a".to_string(), value: AttrValue::Text("1".to_string()) },
            RawAttribute { key: "b".to_string(), value: AttrValue::Text("2".to_string()) },
        ],
        file: Some("f.src".to_string()),
        line: Some(10),
    };
    assert_eq!(bridge.log(&raw, None), LogOutcome::NoRecipient);
    assert_eq!(bridge.queued(), 0);
    let (sent, end) = drain(&mut bridge, &[]);
    assert!(sent.is_empty());
    assert!(matches!(end, DispatchAction::Wait));
}

#[test]
fn scenario_attributes_reach_the_recipient() {
    let mut bridge = started(DeliveryMode::Broadcast);
    bridge.register(RecipientId::new(1));
    let raw = RawRecord {
        severity: Severity::Debug,
        message: "Debug: m".to_string(),
        attributes: vec![
            RawAttribute { key: "a".to_string(), value: AttrValue::Signed(1) },
            RawAttribute { key: "b".to_string(), value: AttrValue::Signed(2) },
        ],
        file: Some("f.src".to_string()),
        line: Some(10),
    };
    assert_eq!(bridge.log(&raw, None), LogOutcome::Enqueued);
    let (sent, _) = drain(&mut bridge, &[]);
    assert_eq!(sent.len(), 1);
    let message = &sent[0].1;
    assert_eq!(message.level.tag(), "debug");
    assert_eq!(message.attributes.len(), 2);
    assert_eq!(message.attributes.get("a"), Some(&"1".to_string()));
    assert_eq!(message.attributes.get("b"), Some(&"2".to_string()));
    assert_eq!(message.file, "f.src");
    assert_eq!(message.line, "10");
}

#[test]
fn scenario_thousand_producers() {
    let mut bridge = started(DeliveryMode::Broadcast);
    bridge.register(RecipientId::new(1));
    for producer in 0..1000u64 {
        let raw = record(Severity::Info, &format!("event {}", producer));
        assert_eq!(bridge.log(&raw, None), LogOutcome::Enqueued);
    }
    assert_eq!(bridge.queued(), 1000);
    let (sent, end) = drain(&mut bridge, &[]);
    assert!(matches!(end, DispatchAction::Wait));
    assert_eq!(sent.len(), 1000);
    let mut seen = vec![0u32; 1000];
    for (target, message) in &sent {
        assert_eq!(*target, 1);
        let number: usize = message.message["event ".len()..].parse().unwrap();
        seen[number] += 1;
    }
    assert!(seen.iter().all(|count| *count == 1));
}

#[test]
fn events_are_attempted_in_the_order_logged() {
    let mut bridge = started(DeliveryMode::Broadcast);
    bridge.register(RecipientId::new(1));
    bridge.register(RecipientId::new(2));
    bridge.log(&record(Severity::Info, "A"), None);
    bridge.log(&record(Severity::Info, "B"), None);
    let (sent, _) = drain(&mut bridge, &[]);
    assert_eq!(
        texts(&sent),
        vec![
            (1, "A".to_string()),
            (2, "A".to_string()),
            (1, "B".to_string()),
            (2, "B".to_string()),
        ]
    );
}

#[test]
fn logging_while_delivering_goes_behind_what_is_pending() {
    let mut bridge = started(DeliveryMode::Broadcast);
    bridge.register(RecipientId::new(1));
    bridge.register(RecipientId::new(2));
    bridge.log(&record(Severity::Info, "A"), None);
    assert!(matches!(bridge.poll(), DispatchAction::Send { .. }));
    assert_eq!(bridge.state(), DispatcherState::Delivering);
    bridge.log(&record(Severity::Info, "B"), None);
    bridge.report(SendOutcome::Delivered);
    let (sent, _) = drain(&mut bridge, &[]);
    assert_eq!(
        texts(&sent),
        vec![(2, "A".to_string()), (1, "B".to_string()), (2, "B".to_string())]
    );
    assert_eq!(bridge.state(), DispatcherState::Idle);
}

#[test]
fn failed_delivery_does_not_stop_the_others() {
    let mut bridge = started(DeliveryMode::Broadcast);
    for handle in [1, 2, 3] {
        bridge.register(RecipientId::new(handle));
    }
    bridge.log(&record(Severity::Error, "first"), None);
    bridge.log(&record(Severity::Error, "second"), None);
    let (sent, end) = drain(&mut bridge, &[2]);
    assert!(matches!(end, DispatchAction::Wait));
    assert_eq!(
        texts(&sent),
        vec![
            (1, "first".to_string()),
            (2, "first".to_string()),
            (3, "first".to_string()),
            (1, "second".to_string()),
            (2, "second".to_string()),
            (3, "second".to_string()),
        ]
    );
    assert!(!bridge.is_registered(RecipientId::new(2)));
    bridge.log(&record(Severity::Error, "third"), None);
    let (sent, _) = drain(&mut bridge, &[2]);
    assert_eq!(texts(&sent), vec![(1, "third".to_string()), (3, "third".to_string())]);
}

#[test]
fn targets_are_resolved_when_the_event_is_logged() {
    let mut bridge = started(DeliveryMode::Broadcast);
    bridge.register(RecipientId::new(1));
    bridge.log(&record(Severity::Info, "early"), None);
    bridge.register(RecipientId::new(2));
    bridge.log(&record(Severity::Info, "late"), None);
    let (sent, _) = drain(&mut bridge, &[]);
    assert_eq!(
        texts(&sent),
        vec![(1, "early".to_string()), (1, "late".to_string()), (2, "late".to_string())]
    );
}

#[test]
fn dead_recipient_recovers_by_registering_again() {
    let mut bridge = started(DeliveryMode::Broadcast);
    bridge.register(RecipientId::new(1));
    bridge.log(&record(Severity::Info, "one"), None);
    drain(&mut bridge, &[1]);
    assert_eq!(bridge.log(&record(Severity::Info, "two"), None), LogOutcome::NoRecipient);
    bridge.register(RecipientId::new(1));
    assert_eq!(bridge.log(&record(Severity::Info, "three"), None), LogOutcome::Enqueued);
    let (sent, _) = drain(&mut bridge, &[]);
    assert_eq!(texts(&sent), vec![(1, "three".to_string())]);
}

#[test]
fn context_addressed_log_goes_to_the_named_recipient() {
    let mut bridge = started(DeliveryMode::ContextAddressed);
    bridge.register(RecipientId::new(1));
    assert!(bridge.resolve().is_empty());
    assert_eq!(bridge.log(&record(Severity::Info, "nobody"), None), LogOutcome::NoRecipient);
    assert_eq!(
        bridge.log(&record(Severity::Info, "direct"), Some(RecipientId::new(7))),
        LogOutcome::Enqueued
    );
    let (sent, _) = drain(&mut bridge, &[]);
    assert_eq!(texts(&sent), vec![(7, "direct".to_string())]);
}

#[test]
fn context_is_ignored_where_the_registry_resolves() {
    let mut bridge = started(DeliveryMode::Broadcast);
    bridge.register(RecipientId::new(1));
    assert_eq!(bridge.targets(Some(RecipientId::new(7))), vec![RecipientId::new(1)]);
    bridge.log(&record(Severity::Info, "m"), Some(RecipientId::new(7)));
    let (sent, _) = drain(&mut bridge, &[]);
    assert_eq!(texts(&sent), vec![(1, "m".to_string())]);
}

#[test]
fn full_channel_drops_the_record() {
    let mut bridge = Bridge::new(DeliveryMode::Broadcast, Some(1));
    bridge.bootstrap();
    bridge.register(RecipientId::new(1));
    assert_eq!(bridge.log(&record(Severity::Info, "kept"), None), LogOutcome::Enqueued);
    assert_eq!(bridge.log(&record(Severity::Info, "dropped"), None), LogOutcome::ChannelRefused);
    let (sent, _) = drain(&mut bridge, &[]);
    assert_eq!(texts(&sent), vec![(1, "kept".to_string())]);
}

#[test]
fn closed_bridge_drains_and_halts() {
    let mut bridge = started(DeliveryMode::Broadcast);
    bridge.register(RecipientId::new(1));
    bridge.log(&record(Severity::Info, "before"), None);
    bridge.close();
    assert!(bridge.is_closed());
    assert_eq!(bridge.log(&record(Severity::Info, "after"), None), LogOutcome::ChannelRefused);
    let (sent, end) = drain(&mut bridge, &[]);
    assert_eq!(texts(&sent), vec![(1, "before".to_string())]);
    assert!(matches!(end, DispatchAction::Halt));
}

#[test]
fn flush_changes_nothing() {
    let mut bridge = started(DeliveryMode::Broadcast);
    bridge.register(RecipientId::new(1));
    bridge.log(&record(Severity::Info, "queued"), None);
    bridge.flush();
    assert_eq!(bridge.queued(), 1);
    assert_eq!(bridge.state(), DispatcherState::Idle);
}

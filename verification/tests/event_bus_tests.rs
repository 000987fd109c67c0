use openconstruct::event_bus::{EventBus, EventHandler, HandlerFn};
use std::any::Any;
use std::sync::atomic::{AtomicUsize, Ordering};
use std::sync::{Arc, Mutex};

struct Counter(Arc<AtomicUsize>);

impl EventHandler<dyn Any> for Counter {
    fn handle(&mut self, _event: &dyn Any) {
        self.0.fetch_add(1, Ordering::SeqCst);
    }
}

struct Noop;

impl EventHandler<dyn Any> for Noop {
    fn handle(&mut self, _event: &dyn Any) {}
}

struct Recorder {
    tag: u32,
    log: Arc<Mutex<Vec<(u32, u32)>>>,
}

impl EventHandler<u32> for Recorder {
    fn handle(&mut self, event: &u32) {
        self.log.lock().unwrap().push((self.tag, *event));
    }
}

#[test]
fn eventbus_subscribe_and_publish() {
    let counter = Arc::new(AtomicUsize::new(0));
    let counter_clone = counter.clone();
    let mut bus: EventBus<dyn Any> = EventBus::new();
    bus.subscribe("ping", Box::new(Counter(counter_clone)));
    bus.publish("ping", &42u32);
    bus.publish("ping", &"hello");
    assert_eq!(counter.load(Ordering::SeqCst), 2);
}

#[test]
fn eventbus_unsubscribe() {
    let mut bus: EventBus<dyn Any> = EventBus::new();
    bus.subscribe("e", Box::new(Noop));
    bus.unsubscribe("e");
    assert_eq!(bus.handler_count("e"), 0);
}

#[test]
fn eventbus_handler_count() {
    let mut bus: EventBus<dyn Any> = EventBus::new();
    assert_eq!(bus.handler_count("x"), 0);
    bus.subscribe("x", Box::new(Noop));
    assert_eq!(bus.handler_count("x"), 1);
    bus.subscribe("x", Box::new(Noop));
    assert_eq!(bus.handler_count("x"), 2);
}

#[test]
fn eventbus_publish_no_handlers() {
    let mut bus: EventBus<dyn Any> = EventBus::new();
    bus.publish("nothing", &()); // should not panic
}

#[test]
fn eventbus_event_type_count() {
    let mut bus: EventBus<dyn Any> = EventBus::new();
    assert_eq!(bus.event_type_count(), 0);
    bus.subscribe("a", Box::new(Noop));
    bus.subscribe("b", Box::new(Noop));
    assert_eq!(bus.event_type_count(), 2);
}

#[test]
fn eventbus_default() {
    let bus: EventBus<dyn Any> = EventBus::default();
    assert_eq!(bus.event_type_count(), 0);
}

#[test]
fn eventbus_publish_in_subscription_order_only_to_its_type() {
    let log = Arc::new(Mutex::new(Vec::new()));
    let mut bus: EventBus<u32> = EventBus::new();
    bus.subscribe("t", Box::new(Recorder { tag: 1, log: log.clone() }));
    bus.subscribe("other", Box::new(Recorder { tag: 9, log: log.clone() }));
    bus.subscribe("t", Box::new(Recorder { tag: 2, log: log.clone() }));
    bus.publish("t", &5);
    assert_eq!(*log.lock().unwrap(), vec![(1, 5), (2, 5)]);
    assert_eq!(bus.handler_count("t"), 2);
    assert_eq!(bus.handler_count("other"), 1);
    assert_eq!(bus.event_type_count(), 2);
}

#[test]
fn eventbus_unsubscribe_keeps_other_types() {
    let mut bus: EventBus<dyn Any> = EventBus::new();
    bus.subscribe("a", Box::new(Noop));
    bus.subscribe("b", Box::new(Noop));
    let boxed: HandlerFn<dyn Any> = Box::new(Noop);
    bus.subscribe("b", boxed);
    bus.unsubscribe("a");
    bus.unsubscribe("missing");
    assert_eq!(bus.handler_count("a"), 0);
    assert_eq!(bus.handler_count("b"), 2);
    assert_eq!(bus.event_type_count(), 1);
}

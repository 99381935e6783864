use event_bus::{Event, EventBus, EventMetadata};
use std::sync::{OnceLock, RwLock};

struct Counter {
    i: i32,
    seen: Vec<&'static str>,
}

impl Counter {
    fn starting_at(i: i32) -> Counter {
        Counter { i, seen: Vec::new() }
    }
}

type CounterHandler = fn(&mut Counter);

static COUNTER_HANDLERS: OnceLock<RwLock<EventMetadata<Counter, CounterHandler>>> = OnceLock::new();

fn counter_handlers() -> &'static RwLock<EventMetadata<Counter, CounterHandler>> {
    COUNTER_HANDLERS.get_or_init(|| RwLock::new(EventMetadata::new()))
}

impl Event for Counter {
    type Handler = CounterHandler;

    fn event_metadata<F, R>(event: &mut Self, f: F) -> R
    where
        F: FnOnce(&EventMetadata<Self, Self::Handler>, &mut Self) -> R,
    {
        f(&*counter_handlers().read().unwrap(), event)
    }

    fn mut_metadata<F, R>(f: F) -> R
    where
        F: FnOnce(&mut EventMetadata<Self, Self::Handler>) -> R,
    {
        f(&mut *counter_handlers().write().unwrap())
    }

    fn cancellable() -> bool {
        false
    }

    fn cancelled(&self) -> bool {
        false
    }

    fn cancel(&mut self, _: bool) {
        panic!("a counter cannot be cancelled")
    }
}

struct Message {
    text: String,
    cancelled: bool,
}

impl Message {
    fn empty() -> Message {
        Message { text: String::new(), cancelled: false }
    }
}

type MessageHandler = fn(&mut Message);

static MESSAGE_HANDLERS: OnceLock<RwLock<EventMetadata<Message, MessageHandler>>> = OnceLock::new();

fn message_handlers() -> &'static RwLock<EventMetadata<Message, MessageHandler>> {
    MESSAGE_HANDLERS.get_or_init(|| RwLock::new(EventMetadata::new()))
}

impl Event for Message {
    type Handler = MessageHandler;

    fn event_metadata<F, R>(event: &mut Self, f: F) -> R
    where
        F: FnOnce(&EventMetadata<Self, Self::Handler>, &mut Self) -> R,
    {
        f(&*message_handlers().read().unwrap(), event)
    }

    fn mut_metadata<F, R>(f: F) -> R
    where
        F: FnOnce(&mut EventMetadata<Self, Self::Handler>) -> R,
    {
        f(&mut *message_handlers().write().unwrap())
    }

    fn cancellable() -> bool {
        true
    }

    fn cancelled(&self) -> bool {
        self.cancelled
    }

    fn cancel(&mut self, flag: bool) {
        self.cancelled = flag;
    }
}

fn h1(e: &mut Counter) {
    e.seen.push("h1");
    e.i += 1;
}

fn h2(e: &mut Counter) {
    e.seen.push("h2");
    e.i *= 10;
}

fn h3(e: &mut Counter) {
    e.seen.push("h3");
    e.i -= 7;
}

fn write_a(m: &mut Message) {
    m.text.push('a');
}

fn write_b(m: &mut Message) {
    m.text.push('b');
}

fn write_c(m: &mut Message) {
    m.text.push('c');
}

fn stop(m: &mut Message) {
    m.text.push('!');
    m.cancel(true);
}

fn resume(m: &mut Message) {
    m.text.push('+');
    m.cancel(false);
}

#[test]
fn two_handlers_fire_in_priority_order_then_one_is_removed() {
    let bus = EventBus::new();
    let first = bus.register::<Counter>(h1, 0);
    let _second = bus.register::<Counter>(h2, 1);

    let mut event = Counter::starting_at(3);
    assert!(!bus.post(&mut event));
    assert_eq!(event.seen, vec!["h1", "h2"]);
    assert_eq!(event.i, 40);

    bus.unregister(first);
    let mut event = Counter::starting_at(3);
    assert!(!bus.post(&mut event));
    assert_eq!(event.seen, vec!["h2"]);
    assert_eq!(event.i, 30);
}

#[test]
fn register_post_register_post_unregister_post() {
    let bus = EventBus::new();
    let id = bus.register::<Counter>(h1, 0);
    let mut event = Counter::starting_at(3);
    assert!(!bus.post(&mut event));
    assert_eq!(event.i, 4);
    assert_eq!(event.seen, vec!["h1"]);

    let _ = bus.register::<Counter>(h3, 1);
    assert!(!bus.post(&mut event));
    assert_eq!(event.i, -2);
    assert_eq!(event.seen, vec!["h1", "h1", "h3"]);

    bus.unregister(id);
    assert!(!bus.post(&mut event));
    assert_eq!(event.i, -9);
    assert_eq!(event.seen, vec!["h1", "h1", "h3", "h3"]);
}

#[test]
fn lower_priority_runs_first_whatever_the_registration_order() {
    let bus = EventBus::new();
    let _ = bus.register::<Counter>(h2, 5);
    let _ = bus.register::<Counter>(h3, -5);
    let _ = bus.register::<Counter>(h1, 0);

    let mut event = Counter::starting_at(3);
    assert!(!bus.post(&mut event));
    assert_eq!(event.seen, vec!["h3", "h1", "h2"]);
    assert_eq!(event.i, ((3 - 7) + 1) * 10);
}

#[test]
fn equal_priorities_run_in_registration_order() {
    let bus = EventBus::new();
    let _ = bus.register::<Counter>(h2, 1);
    let _ = bus.register::<Counter>(h1, 1);
    let _ = bus.register::<Counter>(h3, 1);
    let _ = bus.register::<Counter>(h1, 0);
    let _ = bus.register::<Counter>(h2, 0);

    let mut event = Counter::starting_at(0);
    assert!(!bus.post(&mut event));
    assert_eq!(event.seen, vec!["h1", "h2", "h2", "h1", "h3"]);
}

#[test]
fn extreme_priorities_are_ordered() {
    let bus = EventBus::new();
    let _ = bus.register::<Counter>(h1, i32::MAX);
    let _ = bus.register::<Counter>(h2, i32::MIN);
    let _ = bus.register::<Counter>(h3, -1);

    let mut event = Counter::starting_at(2);
    assert!(!bus.post(&mut event));
    assert_eq!(event.seen, vec!["h2", "h3", "h1"]);
    assert_eq!(event.i, 2 * 10 - 7 + 1);
}

#[test]
fn the_same_function_registered_twice_runs_twice() {
    let bus = EventBus::new();
    let a = bus.register::<Counter>(h1, 0);
    let b = bus.register::<Counter>(h1, 0);
    assert!(a != b);

    let mut event = Counter::starting_at(0);
    assert!(!bus.post(&mut event));
    assert_eq!(event.i, 2);

    bus.unregister(a);
    let mut event = Counter::starting_at(0);
    assert!(!bus.post(&mut event));
    assert_eq!(event.i, 1);

    bus.unregister(b);
    let mut event = Counter::starting_at(0);
    assert!(!bus.post(&mut event));
    assert_eq!(event.i, 0);
}

#[test]
fn a_handler_on_one_bus_does_not_fire_on_another() {
    let a = EventBus::new();
    let b = EventBus::new();
    assert!(a != b);
    let _ = a.register::<Counter>(h1, 0);

    let mut event = Counter::starting_at(3);
    assert!(!b.post(&mut event));
    assert_eq!(event.i, 3);
    assert!(event.seen.is_empty());

    let _ = b.register::<Counter>(h2, 0);
    let mut event = Counter::starting_at(3);
    assert!(!a.post(&mut event));
    assert_eq!(event.seen, vec!["h1"]);
    let mut event = Counter::starting_at(3);
    assert!(!b.post(&mut event));
    assert_eq!(event.seen, vec!["h2"]);
}

#[test]
fn a_handler_for_one_type_does_not_fire_for_another() {
    let bus = EventBus::new();
    let _ = bus.register::<Counter>(h1, 0);
    let mut message = Message::empty();
    assert!(!bus.post(&mut message));
    assert_eq!(message.text, "");

    let _ = bus.register::<Message>(write_a, 0);
    let mut event = Counter::starting_at(0);
    assert!(!bus.post(&mut event));
    assert_eq!(event.seen, vec!["h1"]);
    assert!(!bus.post(&mut message));
    assert_eq!(message.text, "a");
}

#[test]
fn unregistering_through_the_wrong_bus_removes_nothing() {
    let a = EventBus::new();
    let b = EventBus::new();
    let on_a = a.register::<Counter>(h1, 0);
    let _ = b.register::<Counter>(h2, 0);

    b.unregister(on_a);

    let mut event = Counter::starting_at(1);
    assert!(!a.post(&mut event));
    assert_eq!(event.seen, vec!["h1"]);
    let mut event = Counter::starting_at(1);
    assert!(!b.post(&mut event));
    assert_eq!(event.seen, vec!["h2"]);
}

#[test]
fn unregistering_one_handler_keeps_the_others_in_order() {
    let bus = EventBus::new();
    let _ = bus.register::<Counter>(h1, 0);
    let middle = bus.register::<Counter>(h2, 1);
    let _ = bus.register::<Counter>(h3, 2);
    let _ = bus.register::<Counter>(h1, 3);

    bus.unregister(middle);

    let mut event = Counter::starting_at(0);
    assert!(!bus.post(&mut event));
    assert_eq!(event.seen, vec!["h1", "h3", "h1"]);
}

#[test]
fn posting_without_handlers_changes_nothing() {
    let bus = EventBus::new();
    let mut event = Counter::starting_at(3);
    assert!(!bus.post(&mut event));
    assert_eq!(event.i, 3);
    assert!(event.seen.is_empty());
}

#[test]
fn a_bus_whose_last_handler_left_behaves_like_a_new_one() {
    let bus = EventBus::new();
    let only = bus.register::<Counter>(h1, 0);
    bus.unregister(only);

    let mut event = Counter::starting_at(3);
    assert!(!bus.post(&mut event));
    assert_eq!(event.i, 3);
    assert!(event.seen.is_empty());

    let _ = bus.register::<Counter>(h2, 0);
    let mut event = Counter::starting_at(3);
    assert!(!bus.post(&mut event));
    assert_eq!(event.seen, vec!["h2"]);
}

#[test]
fn cancelling_stops_the_dispatch() {
    let bus = EventBus::new();
    let _ = bus.register::<Message>(write_a, 0);
    let _ = bus.register::<Message>(stop, 1);
    let _ = bus.register::<Message>(write_b, 2);
    let _ = bus.register::<Message>(write_c, 3);

    let mut message = Message::empty();
    assert!(bus.post(&mut message));
    assert_eq!(message.text, "a!");
    assert!(message.cancelled);
}

#[test]
fn a_cancelling_handler_of_equal_priority_stops_those_registered_later() {
    let bus = EventBus::new();
    let _ = bus.register::<Message>(write_a, 0);
    let _ = bus.register::<Message>(stop, 0);
    let _ = bus.register::<Message>(write_b, 0);

    let mut message = Message::empty();
    assert!(bus.post(&mut message));
    assert_eq!(message.text, "a!");
}

#[test]
fn the_last_handler_cancelling_is_reported() {
    let bus = EventBus::new();
    let _ = bus.register::<Message>(write_a, 0);
    let _ = bus.register::<Message>(stop, 1);

    let mut message = Message::empty();
    assert!(bus.post(&mut message));
    assert_eq!(message.text, "a!");
}

#[test]
fn without_a_cancelling_handler_all_run_and_nothing_is_reported() {
    let bus = EventBus::new();
    let _ = bus.register::<Message>(write_c, 2);
    let _ = bus.register::<Message>(write_a, 0);
    let _ = bus.register::<Message>(write_b, 1);

    let mut message = Message::empty();
    assert!(!bus.post(&mut message));
    assert_eq!(message.text, "abc");
    assert!(!message.cancelled);
}

#[test]
fn an_event_posted_as_cancelled_stops_behind_the_first_handler() {
    let bus = EventBus::new();
    let _ = bus.register::<Message>(write_a, 0);
    let _ = bus.register::<Message>(write_b, 1);

    let mut message = Message { text: String::new(), cancelled: true };
    assert!(bus.post(&mut message));
    assert_eq!(message.text, "a");
}

#[test]
fn an_event_posted_as_cancelled_without_handlers_is_not_reported() {
    let bus = EventBus::new();
    let mut message = Message { text: String::new(), cancelled: true };
    assert!(!bus.post(&mut message));
    assert_eq!(message.text, "");
    assert!(message.cancelled);
}

#[test]
fn a_handler_that_clears_the_mark_lets_the_dispatch_go_on() {
    let bus = EventBus::new();
    let _ = bus.register::<Message>(resume, 0);
    let _ = bus.register::<Message>(write_b, 1);

    let mut message = Message { text: String::new(), cancelled: true };
    assert!(!bus.post(&mut message));
    assert_eq!(message.text, "+b");
    assert!(!message.cancelled);
}

#[test]
fn a_cancelled_event_can_be_posted_again_after_unregistering_the_canceller() {
    let bus = EventBus::new();
    let _ = bus.register::<Message>(write_a, 0);
    let canceller = bus.register::<Message>(stop, 1);
    let _ = bus.register::<Message>(write_b, 2);

    let mut message = Message::empty();
    assert!(bus.post(&mut message));
    assert_eq!(message.text, "a!");

    bus.unregister(canceller);
    let mut message = Message::empty();
    assert!(!bus.post(&mut message));
    assert_eq!(message.text, "ab");
}

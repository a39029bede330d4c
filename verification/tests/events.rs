use std::cell::RefCell;
use std::rc::Rc;
use uns_editor::editor_core::events::{EditorEvent, EventBus, FnSubscriber, KeyInfo};

#[test]
fn dispatch_calls_every_subscriber_in_order() {
    let log: Rc<RefCell<Vec<&'static str>>> = Rc::new(RefCell::new(Vec::new()));
    let mut bus = EventBus::new();

    let log_a = log.clone();
    bus.subscribe(Box::new(FnSubscriber::new(move |_: &EditorEvent| log_a.borrow_mut().push("a"))));
    let log_b = log.clone();
    bus.subscribe(Box::new(FnSubscriber::new(move |_: &EditorEvent| log_b.borrow_mut().push("b"))));

    assert_eq!(bus.len(), 2);
    bus.dispatch(&EditorEvent::TextChanged);
    bus.dispatch(&EditorEvent::CursorMoved);

    assert_eq!(*log.borrow(), vec!["a", "b", "a", "b"]);
}

#[test]
fn empty_bus_dispatch_is_noop() {
    let mut bus = EventBus::new();
    bus.dispatch(&EditorEvent::TextChanged);
    assert_eq!(bus.len(), 0);
}

#[test]
fn ctrl_or_meta_counts_either_modifier() {
    let mut info = KeyInfo::default();
    assert!(!info.ctrl_or_meta());
    info.meta = true;
    assert!(info.ctrl_or_meta());
    info.meta = false;
    info.ctrl = true;
    assert!(info.ctrl_or_meta());
}

//! Notifications of what happened in the editor.
//!
//! Listeners register on an [`EventBus`] and are told about each event
//! in the order they registered. Events own their data, so a listener
//! never borrows editor state; and since delivery holds the bus
//! exclusively, a listener cannot register others while it is being
//! notified.

use vstd::prelude::*;

verus! {

/// A key press as plain values: the key's name and the modifiers held.
#[derive(Clone, Debug, Default)]
pub struct KeyInfo {
    /// The key's name as the browser reports it (`"a"`, `"Enter"`, ...).
    pub key: String,
    /// Control held.
    pub ctrl: bool,
    /// Shift held.
    pub shift: bool,
    /// Alt (Option) held.
    pub alt: bool,
    /// Meta (Cmd, Windows key) held.
    pub meta: bool,
}

impl KeyInfo {
    /// Whether a shortcut modifier is down: Control, or Meta, which
    /// stands in for it on macOS.
    pub fn ctrl_or_meta(&self) -> (r: bool)
        ensures
            r == (self.ctrl || self.meta),
    {
        self.ctrl || self.meta
    }
}

/// Something listeners may care about. Listeners skip the kinds they
/// have no use for; more kinds may be added.
#[derive(Clone, Debug)]
pub enum EditorEvent {
    /// Text was typed, deleted, pasted or otherwise edited.
    TextChanged,
    /// Only the cursor moved.
    CursorMoved,
    /// The selection was changed or dropped.
    SelectionChanged,
    /// The settings were replaced or put back to their defaults.
    SettingsChanged,
    /// A key went down; sent before the editor acts on it.
    KeyPressed(KeyInfo),
    /// A document was opened, pasted in, or the start-up text was shown.
    DocumentLoaded { name: Option<String> },
    /// A document was saved or exported.
    DocumentSaved { name: Option<String> },
    /// The text switched between vertical columns and horizontal lines.
    OrientationToggled,
}

/// A listener on the bus.
pub trait EventSubscriber {
    /// The events this listener has been handed so far, oldest first.
    spec fn received(&self) -> Seq<EditorEvent>;

    /// Called once per delivered event; the listener has then been
    /// handed that event too.
    fn on_event(&mut self, event: &EditorEvent)
        ensures
            final(self).received() == old(self).received().push(*event),
    ;
}

/// A listener made from a closure, which is called with every event.
pub struct FnSubscriber<F: FnMut(&EditorEvent)> {
    /// The closure to call.
    pub f: F,
    /// The events handed to the closure so far.
    received: Ghost<Seq<EditorEvent>>,
}

impl<F: FnMut(&EditorEvent)> FnSubscriber<F> {
    /// The closure this listener calls.
    pub closed spec fn closure(&self) -> F {
        self.f
    }

    /// A listener that calls `f` with every event; it has been handed
    /// nothing yet.
    pub fn new(f: F) -> (s: Self)
        ensures
            s.closure() == f,
            s.received() == Seq::<EditorEvent>::empty(),
    {
        FnSubscriber { f, received: Ghost(Seq::empty()) }
    }
}

impl<F: FnMut(&EditorEvent)> EventSubscriber for FnSubscriber<F> {
    closed spec fn received(&self) -> Seq<EditorEvent> {
        self.received@
    }

    /// Hands the event to the closure: the closure, as it was, is called
    /// on `event`, so whatever its own contract promises for an event it
    /// accepts holds.
    fn on_event(&mut self, event: &EditorEvent)
        ensures
            call_requires(old(self).closure(), (event,)) ==> call_ensures(old(self).closure(), (event,), ()),
    {
        call_subscriber_fn(&mut self.f, event);
        self.received = Ghost(self.received@.push(*event));
    }
}

/// Calls the closure `f` on `event` (`FnMut::call_mut`). Claimed: the
/// call is made with `event`, so where the closure's precondition held of
/// `event`, its postcondition holds of the call. What the closure does to
/// its own captured state is not stated.
#[verifier::external_body]
fn call_subscriber_fn<F: FnMut(&EditorEvent)>(f: &mut F, event: &EditorEvent)
    ensures
        call_requires(*old(f), (event,)) ==> call_ensures(*old(f), (event,), ()),
{
    f(event)
}

/// Pushing onto a sequence makes it one longer.
proof fn lemma_push_len<A>(s: Seq<A>, a: A)
    ensures
        s.push(a).len() == s.len() + 1,
{
}

/// Fan-out event bus: every registered subscriber receives every
/// dispatched event, in registration order.
pub struct EventBus {
    subscribers: Vec<Box<dyn EventSubscriber>>,
}

impl EventBus {
    /// The registered subscribers, in registration order.
    pub closed spec fn subscribers(&self) -> Seq<Box<dyn EventSubscriber>> {
        self.subscribers@
    }

    pub fn new() -> (bus: Self)
        ensures
            bus.subscribers() == Seq::<Box<dyn EventSubscriber>>::empty(),
    {
        EventBus { subscribers: Vec::new() }
    }

    /// Register a subscriber after all earlier ones.
    pub fn subscribe(&mut self, sub: Box<dyn EventSubscriber>)
        ensures
            final(self).subscribers() == old(self).subscribers().push(sub),
            final(self).subscribers().len() == old(self).subscribers().len() + 1,
    {
        let ghost before = self.subscribers@;
        let ghost added = sub;
        self.subscribers.push(sub);
        proof {
            lemma_push_len(before, added);
        }
    }

    /// Deliver `event` to each listener, earliest registered first, once
    /// each: every listener has then received it. The listeners stay as
    /// many as they were, in their places.
    pub fn dispatch(&mut self, event: &EditorEvent)
        ensures
            final(self).subscribers().len() == old(self).subscribers().len(),
            forall|k: int|
                0 <= k < old(self).subscribers().len() ==> (#[trigger] final(self).subscribers()[k]).received()
                    == old(self).subscribers()[k].received().push(*event),
    {
        let mut i: usize = 0;
        while i < self.subscribers.len()
            invariant
                self.subscribers@.len() == old(self).subscribers@.len(),
                i <= self.subscribers@.len(),
                forall|k: int|
                    0 <= k < i ==> (#[trigger] self.subscribers@[k]).received()
                        == old(self).subscribers@[k].received().push(*event),
                forall|k: int|
                    i <= k < self.subscribers@.len() ==> #[trigger] self.subscribers@[k]
                        == old(self).subscribers@[k],
            decreases self.subscribers@.len() - i,
        {
            self.subscribers[i].on_event(event);
            i += 1;
        }
    }

    /// Number of currently registered subscribers.
    pub fn len(&self) -> (n: usize)
        ensures
            n == self.subscribers().len(),
    {
        self.subscribers.len()
    }
}

impl Default for EventBus {
    fn default() -> (bus: Self)
        ensures
            bus.subscribers() == Seq::<Box<dyn EventSubscriber>>::empty(),
    {
        Self::new()
    }
}

} // verus!

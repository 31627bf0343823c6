//! Dispatch of events to the handlers registered for their kind.
use vstd::prelude::*;

verus! {

/// An event; every event type has a kind, which handlers register for.
pub trait Event {
    const KIND: u64;
}

/// Something that reacts to events, possibly answering with follow-up events.
pub trait EventHandler {
    fn handle_event<E: Event>(&mut self, event: &E) -> Vec<E>;
}

/// A registered handler, owned by the manager.
pub struct HandlerWrapper<H> {
    pub handler: H,
}

impl<H: EventHandler> EventHandler for HandlerWrapper<H> {
    fn handle_event<E: Event>(&mut self, event: &E) -> Vec<E> {
        self.handler.handle_event(event)
    }
}

/// Every handler whose kind is not `kind` is the same in both lists.
pub open spec fn only_kind_changed<H>(
    before: Seq<(u64, HandlerWrapper<H>)>,
    after: Seq<(u64, HandlerWrapper<H>)>,
    kind: u64,
) -> bool {
    forall|i: int|
        0 <= i < before.len() && before[i].0 != kind ==> #[trigger] after[i] == before[i]
}

/// The registered handlers, each with the kind of event it handles, in the
/// order they were registered.
pub struct EventManager<H> {
    pub handlers: Vec<(u64, HandlerWrapper<H>)>,
}

impl<H: EventHandler> EventManager<H> {
    /// A manager with no handlers.
    pub fn new() -> (r: EventManager<H>)
        ensures
            r.handlers@.len() == 0,
    {
        EventManager { handlers: Vec::new() }
    }

    /// Registers `handler` for events of type `E`, after those already there.
    pub fn register_handler<E: Event>(&mut self, handler: H)
        ensures
            final(self).handlers@ == old(self).handlers@.push((E::KIND, HandlerWrapper { handler })),
    {
        let kind = E::KIND;
        self.handlers.push((kind, HandlerWrapper { handler }));
    }

    /// Hands `event` to every handler registered for its kind, in registration
    /// order; the follow-up events they answer with are dropped. Handlers of
    /// other kinds are left as they were, and no registration changes.
    pub fn process_event<E: Event>(&mut self, event: &E)
        ensures
            final(self).handlers@.len() == old(self).handlers@.len(),
            forall|i: int|
                0 <= i < old(self).handlers@.len() ==> (#[trigger] final(self).handlers@[i]).0 == old(
                    self,
                ).handlers@[i].0,
            only_kind_changed(old(self).handlers@, final(self).handlers@, E::KIND),
    {
        let kind = E::KIND;
        let ghost start = self.handlers@;
        let mut i: usize = 0;
        while i < self.handlers.len()
            invariant
                i <= self.handlers@.len(),
                self.handlers@.len() == start.len(),
                forall|j: int| 0 <= j < start.len() ==> (#[trigger] self.handlers@[j]).0 == start[j].0,
                forall|j: int|
                    0 <= j < start.len() && (j >= i || start[j].0 != kind) ==> #[trigger] self.handlers@[j]
                        == start[j],
            decreases start.len() - i,
        {
            if self.handlers[i].0 == kind {
                let _answers = self.handlers[i].1.handle_event(event);
            }
            i = i + 1;
        }
        assert(only_kind_changed(start, self.handlers@, kind));
    }
}

} // verus!

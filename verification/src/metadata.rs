//! Per-event-type storage: for each bus, its ordered list of handlers.

use crate::bus::EventBus;
use crate::event::{halts, invoked, is_run, Event};
use crate::handler::{
    accepts_any, callable, discard, dispatch, inserted, insertion_index, lemma_inserted_sorted,
    lemma_without_keeps, sorted, without, EventHandler,
};
use crate::id::{fresh_id, is_version4, EventHandlerId};
use std::collections::HashMap;
use vstd::prelude::*;

verus! {

broadcast use vstd::std_specs::hash::group_hash_axioms;

/// The handler list of `bus` in `lists`: empty where the bus has none.
pub open spec fn handlers_of<T, H>(lists: Map<u128, Seq<EventHandler<T, H>>>, bus: u128) -> Seq<
    EventHandler<T, H>,
> {
    if lists.contains_key(bus) {
        lists[bus]
    } else {
        Seq::empty()
    }
}

/// `lists` after `entry` has been registered on `bus`.
pub open spec fn registered<T, H>(
    lists: Map<u128, Seq<EventHandler<T, H>>>,
    bus: u128,
    entry: EventHandler<T, H>,
) -> Map<u128, Seq<EventHandler<T, H>>> {
    lists.insert(bus, inserted(handlers_of(lists, bus), entry))
}

/// `lists` after `token` has been unregistered on `bus`: the bus loses the
/// entries that the token names, and its list is dropped once it is empty.
pub open spec fn unregistered<T, H>(
    lists: Map<u128, Seq<EventHandler<T, H>>>,
    bus: u128,
    token: u128,
) -> Map<u128, Seq<EventHandler<T, H>>> {
    let rest = without(handlers_of(lists, bus), token);
    if rest.len() == 0 {
        lists.remove(bus)
    } else {
        lists.insert(bus, rest)
    }
}

/// What the storage maintains: no bus has an empty list, every list is
/// ordered by priority, and every handler may be called on every event.
pub open spec fn well_formed<T, H: Fn(&mut T)>(lists: Map<u128, Seq<EventHandler<T, H>>>) -> bool {
    forall|bus: u128| #[trigger]
        lists.contains_key(bus) ==> lists[bus].len() > 0 && sorted(lists[bus]) && callable(
            lists[bus],
        )
}

/// The handlers registered for events of type `T`, by bus.
pub struct EventMetadata<T, H> {
    handlers: HashMap<u128, Vec<EventHandler<T, H>>>,
}

impl<T, H> View for EventMetadata<T, H> {
    type V = Map<u128, Seq<EventHandler<T, H>>>;

    closed spec fn view(&self) -> Map<u128, Seq<EventHandler<T, H>>> {
        self.handlers@.map_values(|list: Vec<EventHandler<T, H>>| list@)
    }
}

impl<T, H: Fn(&mut T)> EventMetadata<T, H> {
    /// Whether the storage is in a state that its operations maintain.
    pub open spec fn wf(&self) -> bool {
        well_formed::<T, H>(self@)
    }

    /// Storage without any handler.
    pub fn new() -> (metadata: EventMetadata<T, H>)
        ensures
            metadata@ == Map::<u128, Seq<EventHandler<T, H>>>::empty(),
            metadata.wf(),
    {
        let metadata = EventMetadata { handlers: HashMap::new() };
        assert(metadata@ =~= Map::<u128, Seq<EventHandler<T, H>>>::empty());
        metadata
    }

    /// Whether no bus has a handler.
    pub fn is_empty(&self) -> (empty: bool)
        ensures
            empty == (self@ == Map::<u128, Seq<EventHandler<T, H>>>::empty()),
    {
        let empty = self.handlers.is_empty();
        proof {
            if empty {
                assert(self@ =~= Map::<u128, Seq<EventHandler<T, H>>>::empty());
            } else {
                let key = choose|key: u128| self.handlers@.contains_key(key);
                assert(self@.contains_key(key));
            }
        }
        empty
    }

    /// The number of handlers registered on `bus`.
    pub fn handler_count(&self, bus: &EventBus) -> (count: usize)
        ensures
            count == handlers_of(self@, bus@).len(),
    {
        let key = bus.id();
        match self.handlers.get(&key) {
            Some(list) => list.len(),
            None => 0,
        }
    }

    /// Registers `f` on `bus` with the given priority, behind the handlers of
    /// that bus whose priority is not higher, and returns the token that
    /// removes it.
    pub fn put(&mut self, bus: &EventBus, f: H, priority: i32) -> (id: EventHandlerId<T>)
        requires
            old(self).wf(),
            accepts_any::<T, H>(f),
        ensures
            final(self).wf(),
            is_version4(id@),
            final(self)@ == registered(old(self)@, bus@, (EventHandler { priority, f, id })),
    {
        let key = bus.id();
        let ghost earlier = handlers_of(self@, bus@);
        let list = self.handlers.entry(key).or_insert(Vec::new());
        assert(list@ == earlier);
        let pos = insertion_index(list, priority);
        let value = fresh_id();
        list.insert(pos, EventHandler { priority, f, id: EventHandlerId::from_raw(value) });
        let id = EventHandlerId::from_raw(value);
        proof {
            let entry = EventHandler { priority, f, id };
            let later = inserted(earlier, entry);
            lemma_inserted_sorted(earlier, entry);
            assert(self@ =~= registered(old(self)@, bus@, entry));
            assert forall|i: int| 0 <= i < later.len() implies accepts_any::<T, H>(
                #[trigger] later[i].f,
            ) by {
                if i < pos {
                    assert(later[i] == earlier[i]);
                } else if i > pos {
                    assert(later[i] == earlier[i - 1]);
                }
            }
        }
        id
    }

    /// Unregisters on `bus` the handler that `id` names, and forgets the bus
    /// once it has no handler left. Where `id` names no handler of `bus`,
    /// nothing changes.
    pub fn remove(&mut self, bus: &EventBus, id: EventHandlerId<T>)
        requires
            old(self).wf(),
        ensures
            final(self).wf(),
            final(self)@ == unregistered(old(self)@, bus@, id@),
    {
        let key = bus.id();
        match self.handlers.remove(&key) {
            Some(list) => {
                proof {
                    lemma_without_keeps(list@, id@);
                }
                let kept = discard(list, &id);
                if !kept.is_empty() {
                    self.handlers.insert(key, kept);
                }
            },
            None => {},
        }
        assert(self@ =~= unregistered(old(self)@, bus@, id@));
    }
}

impl<T: Event, H: Fn(&mut T)> EventMetadata<T, H> {
    /// Invokes the handlers of `bus` on `event` in their order, until one
    /// leaves the event cancelled or all have run. Returns whether the event
    /// was cancelled.
    ///
    /// The `trace` of the contract holds the event as it was before the first
    /// handler and after each handler that ran.
    pub fn post(&self, bus: &EventBus, event: &mut T) -> (cancelled: bool)
        requires
            self.wf(),
        ensures
            cancelled ==> halts(*final(event)),
            handlers_of(self@, bus@).len() == 0 ==> !cancelled && *final(event) == *old(event),
            exists|trace: Seq<T>|
                {
                    &&& #[trigger] is_run(
                        handlers_of(self@, bus@).len(),
                        trace,
                        *old(event),
                        *final(event),
                        cancelled,
                    )
                    &&& forall|j: int| #[trigger]
                        invoked(trace, j) ==> exists|step: &mut T|
                            *step == trace[j] && *final(step) == trace[j + 1]
                                && #[trigger] handlers_of(self@, bus@)[j].f.ensures((step,), ())
                },
    {
        let key = bus.id();
        match self.handlers.get(&key) {
            Some(list) => {
                assert(list@ == handlers_of(self@, bus@));
                dispatch(list, event)
            },
            None => {
                assert(handlers_of(self@, bus@).len() == 0);
                assert(is_run(0, seq![*event], *old(event), *event, false));
                false
            },
        }
    }
}

} // verus!

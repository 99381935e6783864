//! Buses: the namespaces through which handlers are registered and events
//! posted.

use crate::event::{halts, invoked, is_run, Event};
use crate::handler::{accepts_any, EventHandler};
use crate::id::{fresh_id, is_version4, EventHandlerId};
use crate::metadata::{handlers_of, registered, unregistered, EventMetadata};
use vstd::prelude::*;

verus! {

/// A dispatch channel. A bus is nothing but its identity: handlers
/// registered on one bus are not seen by a post through another.
#[derive(PartialEq, Eq, Hash)]
pub struct EventBus {
    id: u128,
}

impl View for EventBus {
    type V = u128;

    closed spec fn view(&self) -> u128 {
        self.id
    }
}

impl EventBus {
    /// A bus with a freshly drawn identity.
    pub fn new() -> (bus: EventBus)
        ensures
            is_version4(bus@),
    {
        EventBus { id: fresh_id() }
    }

    /// The identity of this bus.
    pub fn id(&self) -> (id: u128)
        ensures
            id == self@,
    {
        self.id
    }

    /// Registers `f` on this bus for events of type `T`, behind the handlers
    /// whose priority is not higher, and returns the token that removes it.
    ///
    /// The storage is reached through `T::mut_metadata`; the contract states
    /// the change as [`EventMetadata::put`] makes it, on whatever storage the
    /// accessor handed out.
    pub fn register<T: Event>(&self, f: T::Handler, priority: i32) -> (id: EventHandlerId<T>)
        requires
            accepts_any::<T, T::Handler>(f),
        ensures
            is_version4(id@),
            exists|metadata: &mut EventMetadata<T, T::Handler>|
                metadata.wf() && final(metadata).wf() && final(metadata)@ == #[trigger] registered(
                    metadata@,
                    self@,
                    (EventHandler { priority, f, id }),
                ),
    {
        let put = |metadata: &mut EventMetadata<T, T::Handler>| -> (id: EventHandlerId<T>)
            requires
                old(metadata).wf(),
            ensures
                final(metadata).wf(),
                is_version4(id@),
                final(metadata)@ == registered(
                    old(metadata)@,
                    self@,
                    (EventHandler { priority, f, id }),
                ),
            {
                metadata.put(self, f, priority)
            };
        T::mut_metadata(put)
    }

    /// Unregisters on this bus the handler that `id` names. Where `id` names
    /// no handler of this bus, nothing changes.
    ///
    /// The storage is reached through `T::mut_metadata`; the contract states
    /// the change as [`EventMetadata::remove`] makes it, on whatever storage
    /// the accessor handed out.
    pub fn unregister<T: Event>(&self, id: EventHandlerId<T>)
        ensures
            exists|metadata: &mut EventMetadata<T, T::Handler>|
                metadata.wf() && final(metadata).wf() && final(metadata)@
                    == #[trigger] unregistered(metadata@, self@, id@),
    {
        let ghost token = id@;
        let remove = |metadata: &mut EventMetadata<T, T::Handler>|
            requires
                old(metadata).wf(),
            ensures
                final(metadata).wf(),
                final(metadata)@ == unregistered(old(metadata)@, self@, token),
            {
                metadata.remove(self, id)
            };
        T::mut_metadata(remove)
    }

    /// Posts `event` through this bus: the handlers registered on it for
    /// `T` run in their order until one leaves the event cancelled or all
    /// have run. Returns whether the event was cancelled.
    ///
    /// The storage is reached through `T::event_metadata`; the contract
    /// states the dispatch as [`EventMetadata::post`] makes it, over whatever
    /// storage the accessor handed out.
    pub fn post<T: Event>(&self, event: &mut T) -> (cancelled: bool)
        ensures
            cancelled ==> halts(*final(event)),
            exists|metadata: EventMetadata<T, T::Handler>, trace: Seq<T>|
                {
                    &&& metadata.wf()
                    &&& #[trigger] is_run(
                        handlers_of(metadata@, self@).len(),
                        trace,
                        *old(event),
                        *final(event),
                        cancelled,
                    )
                    &&& forall|j: int| #[trigger]
                        invoked(trace, j) ==> exists|step: &mut T|
                            *step == trace[j] && *final(step) == trace[j + 1]
                                && #[trigger] handlers_of(metadata@, self@)[j].f.ensures(
                                (step,),
                                (),
                            )
                },
    {
        let post = |metadata: &EventMetadata<T, T::Handler>, e: &mut T| -> (cancelled: bool)
            requires
                metadata.wf(),
            ensures
                exists|trace: Seq<T>|
                    {
                        &&& #[trigger] is_run(
                            handlers_of(metadata@, self@).len(),
                            trace,
                            *old(e),
                            *final(e),
                            cancelled,
                        )
                        &&& forall|j: int| #[trigger]
                            invoked(trace, j) ==> exists|step: &mut T|
                                *step == trace[j] && *final(step) == trace[j + 1]
                                    && #[trigger] handlers_of(metadata@, self@)[j].f.ensures(
                                    (step,),
                                    (),
                                )
                    },
            {
                metadata.post(self, e)
            };
        T::event_metadata(event, post)
    }
}

} // verus!

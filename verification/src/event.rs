//! What an event type supplies: access to the storage of its handlers, and
//! its cancellation state.

use crate::metadata::EventMetadata;
use vstd::prelude::*;

verus! {

/// The cancellation state of an event type that does not state it: some flag
/// and some mark, of which nothing is known.
#[verifier::reject_recursive_types(T)]
pub struct Unstated<T> {
    pub cancellable: bool,
    pub cancelled: spec_fn(T) -> bool,
}

/// The capabilities of a type whose values can be posted.
///
/// An implementation owns one [`EventMetadata`] for the type, created empty
/// with [`EventMetadata::new`] and changed only inside `mut_metadata`, and
/// serialises access to it: a call of `mut_metadata` excludes every other
/// access, calls of `event_metadata` may overlap each other. The contracts
/// of the two accessors are what the bus relies on and are not checked
/// against an implementation's storage.
pub trait Event: Sized {
    /// The callables that can be registered for this event type.
    type Handler: Fn(&mut Self);

    /// Whether events of this type can be cancelled at all: what
    /// `cancellable` returns. A type that does not state the flag leaves it
    /// open.
    open spec fn supports_cancellation() -> bool {
        arbitrary::<Unstated<Self>>().cancellable
    }

    /// Whether this event is marked as cancelled: what `cancelled` returns.
    /// A type that does not state the mark leaves it open.
    open spec fn is_cancelled(&self) -> bool {
        (arbitrary::<Unstated<Self>>().cancelled)(*self)
    }

    /// Calls `f` once, with shared access to the handlers stored for this
    /// event type and with `event`, and returns what `f` returned.
    fn event_metadata<F, R>(event: &mut Self, f: F) -> (result: R) where
        F: FnOnce(&EventMetadata<Self, Self::Handler>, &mut Self) -> R,

        requires
            forall|metadata: &EventMetadata<Self, Self::Handler>, e: &mut Self|
                metadata.wf() && *e == *old(event) ==> #[trigger] f.requires((metadata, e)),
        ensures
            exists|metadata: &EventMetadata<Self, Self::Handler>, e: &mut Self|
                metadata.wf() && *e == *old(event) && *final(e) == *final(event)
                    && #[trigger] f.ensures((metadata, e), result),
    ;

    /// Calls `f` once, with exclusive access to the handlers stored for this
    /// event type, and returns what `f` returned.
    fn mut_metadata<F, R>(f: F) -> (result: R) where
        F: FnOnce(&mut EventMetadata<Self, Self::Handler>) -> R,

        requires
            forall|metadata: &mut EventMetadata<Self, Self::Handler>|
                metadata.wf() ==> #[trigger] f.requires((metadata,)),
            forall|metadata: &mut EventMetadata<Self, Self::Handler>, result: R|
                metadata.wf() && #[trigger] f.ensures((metadata,), result)
                    ==> final(metadata).wf(),
        ensures
            exists|metadata: &mut EventMetadata<Self, Self::Handler>|
                metadata.wf() && #[trigger] f.ensures((metadata,), result),
    ;

    /// Whether events of this type can be cancelled.
    fn cancellable() -> (flag: bool)
        ensures
            flag == Self::supports_cancellation(),
    ;

    /// Whether this event has been cancelled.
    fn cancelled(&self) -> (flag: bool)
        ensures
            flag == self.is_cancelled(),
    ;

    /// Sets or clears the cancelled mark. Only events of a cancellable type
    /// can be marked.
    fn cancel(&mut self, flag: bool)
        requires
            Self::supports_cancellation(),
        ensures
            final(self).is_cancelled() == flag,
    ;
}

/// Whether dispatch ends once a handler has left the event as `event`.
pub open spec fn halts<T: Event>(event: T) -> bool {
    T::supports_cancellation() && event.is_cancelled()
}

/// Whether `trace` records one dispatch over a list of `handlers` handlers
/// that took the event from `before` to `after` and reported `cancelled`.
///
/// `trace[0]` is the event before the first handler, `trace[j + 1]` the event
/// as handler `j` left it. Handlers run in list order from the first; the
/// dispatch ends behind the first handler that leaves the event cancelled,
/// and otherwise behind the last handler.
pub open spec fn is_run<T: Event>(
    handlers: nat,
    trace: Seq<T>,
    before: T,
    after: T,
    cancelled: bool,
) -> bool {
    &&& 1 <= trace.len() <= handlers + 1
    &&& trace.first() == before
    &&& trace.last() == after
    &&& forall|j: int| 0 < j < trace.len() - 1 ==> !halts(#[trigger] trace[j])
    &&& cancelled == (trace.len() > 1 && halts(after))
    &&& !cancelled ==> trace.len() == handlers + 1
}

/// Whether handler `j` of the list ran in the dispatch that `trace` records.
pub open spec fn invoked<T>(trace: Seq<T>, j: int) -> bool {
    0 <= j < trace.len() - 1
}

} // verus!

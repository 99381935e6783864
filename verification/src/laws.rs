//! What holds of the bus as a whole, proved from the models that the
//! contracts of its operations are stated over.

use crate::event::{halts, is_run, Event};
use crate::handler::{
    inserted, insertion_point, lemma_inserted_sorted, lemma_insertion_point_bounds, not_named,
    sorted, without, EventHandler,
};
use crate::metadata::{handlers_of, registered, unregistered, well_formed};
use vstd::prelude::*;

verus! {

/// The entries whose priority is `priority`.
pub open spec fn of_priority<T, H>(priority: i32) -> spec_fn(EventHandler<T, H>) -> bool {
    |e: EventHandler<T, H>| e.priority == priority
}

/// The handler list of a bus on which `entries` were registered one after
/// the other, starting without handlers.
pub open spec fn registered_in_turn<T, H>(entries: Seq<EventHandler<T, H>>) -> Seq<
    EventHandler<T, H>,
>
    decreases entries.len(),
{
    if entries.len() == 0 {
        Seq::empty()
    } else {
        inserted(registered_in_turn(entries.drop_last()), entries.last())
    }
}

/// Filtering a list with an entry inserted at `k` filters the part before
/// `k`, the entry, and the part from `k` on.
proof fn lemma_filter_insert<A>(list: Seq<A>, k: int, entry: A, pred: spec_fn(A) -> bool)
    requires
        0 <= k <= list.len(),
    ensures
        list.filter(pred) == list.take(k).filter(pred) + list.skip(k).filter(pred),
        list.insert(k, entry).filter(pred) == if pred(entry) {
            list.take(k).filter(pred).push(entry) + list.skip(k).filter(pred)
        } else {
            list.take(k).filter(pred) + list.skip(k).filter(pred)
        },
{
    let front = list.take(k);
    let back = list.skip(k);
    assert(list == front + back);
    assert(list.insert(k, entry) == front.push(entry) + back);
    Seq::filter_distributes_over_add(front, back, pred);
    Seq::filter_distributes_over_add(front.push(entry), back, pred);
    front.lemma_filter_push(entry, pred);
}

/// Removing the entries of a token that names no entry changes nothing.
proof fn lemma_without_unnamed<T, H>(list: Seq<EventHandler<T, H>>, token: u128)
    requires
        forall|i: int| 0 <= i < list.len() ==> (#[trigger] list[i]).id@ != token,
    ensures
        without(list, token) == list,
    decreases list.len(),
{
    reveal(Seq::filter);
    if list.len() > 0 {
        let front = list.drop_last();
        lemma_without_unnamed(front, token);
        assert(list[list.len() - 1].id@ != token);
        assert(front.push(list.last()) == list);
    }
}

/// Removing the entries of a token leaves no entry that the token names.
proof fn lemma_without_names_none<T, H>(list: Seq<EventHandler<T, H>>, token: u128)
    ensures
        forall|i: int|
            0 <= i < without(list, token).len() ==> (#[trigger] without(list, token)[i]).id@
                != token,
{
    let rest = without(list, token);
    assert forall|i: int| 0 <= i < rest.len() implies (#[trigger] rest[i]).id@ != token by {
        list.lemma_filter_pred(not_named(token), i);
    }
}

/// Registration order: a new handler goes behind every handler of the bus
/// whose priority is not higher and before every handler whose priority is
/// higher; the handlers already there keep their order, and the list stays
/// ordered by priority.
pub proof fn law_registration_keeps_order<T, H>(
    list: Seq<EventHandler<T, H>>,
    entry: EventHandler<T, H>,
)
    requires
        sorted(list),
    ensures
        sorted(inserted(list, entry)),
        inserted(list, entry).len() == list.len() + 1,
        0 <= insertion_point(list, entry.priority) <= list.len(),
        inserted(list, entry)[insertion_point(list, entry.priority)] == entry,
        forall|i: int|
            0 <= i < insertion_point(list, entry.priority) ==> (#[trigger] inserted(list, entry)[i])
                == list[i] && list[i].priority <= entry.priority,
        forall|i: int|
            insertion_point(list, entry.priority) < i <= list.len() ==> (#[trigger] inserted(
                list,
                entry,
            )[i]) == list[i - 1] && list[i - 1].priority > entry.priority,
{
    lemma_insertion_point_bounds(list, entry.priority);
    lemma_inserted_sorted(list, entry);
}

/// Dispatch order: after any number of registrations on one bus the list is
/// ordered by priority, and the handlers of any one priority stand in it in
/// the order in which they were registered.
pub proof fn law_equal_priorities_in_registration_order<T, H>(
    entries: Seq<EventHandler<T, H>>,
    priority: i32,
)
    ensures
        sorted(registered_in_turn(entries)),
        registered_in_turn(entries).len() == entries.len(),
        registered_in_turn(entries).filter(of_priority(priority)) == entries.filter(
            of_priority(priority),
        ),
    decreases entries.len(),
{
    reveal(Seq::filter);
    if entries.len() > 0 {
        let earlier = entries.drop_last();
        let entry = entries.last();
        let list = registered_in_turn(earlier);
        law_equal_priorities_in_registration_order(earlier, priority);
        law_registration_keeps_order(list, entry);
        lemma_insertion_point_bounds(list, entry.priority);
        let k = insertion_point(list, entry.priority);
        let class = of_priority::<T, H>(priority);
        lemma_filter_insert(list, k, entry, class);
        if entry.priority == priority {
            let back = list.skip(k);
            assert(back.all(|e: EventHandler<T, H>| !class(e))) by {
                assert forall|i: int| 0 <= i < back.len() implies !class(#[trigger] back[i]) by {
                    assert(back[i] == list[k + i]);
                    assert(list[k + i].priority > entry.priority);
                }
            }
            back.lemma_all_neg_filter_empty(class);
            assert(list.take(k).filter(class) + back.filter(class) == list.take(k).filter(class));
            assert(list.take(k).filter(class).push(entry) + back.filter(class) == list.take(
                k,
            ).filter(class).push(entry));
        }
    }
}

/// Namespace isolation: registering or unregistering on one bus leaves the
/// handler list of every other bus as it was, so a post through another bus
/// runs none of the handlers registered here.
pub proof fn law_buses_are_isolated<T, H>(
    lists: Map<u128, Seq<EventHandler<T, H>>>,
    bus: u128,
    other: u128,
    entry: EventHandler<T, H>,
    token: u128,
)
    requires
        bus != other,
    ensures
        handlers_of(registered(lists, bus, entry), other) == handlers_of(lists, other),
        handlers_of(unregistered(lists, bus, token), other) == handlers_of(lists, other),
{
}

/// Unregistering removes the named handler and no other: what is left on the
/// bus are the handlers that the token does not name, in their order, and
/// none of them is named by the token.
pub proof fn law_unregister_removes_named_only<T, H>(
    lists: Map<u128, Seq<EventHandler<T, H>>>,
    bus: u128,
    token: u128,
)
    ensures
        handlers_of(unregistered(lists, bus, token), bus) == without(
            handlers_of(lists, bus),
            token,
        ),
        forall|i: int|
            0 <= i < handlers_of(unregistered(lists, bus, token), bus).len() ==> (
            #[trigger] handlers_of(unregistered(lists, bus, token), bus)[i]).id@ != token,
{
    lemma_without_names_none(handlers_of(lists, bus), token);
}

/// A token that names no handler of the bus (one already consumed, or one
/// issued on another bus) unregisters nothing.
pub proof fn law_unknown_token_changes_nothing<T, H: Fn(&mut T)>(
    lists: Map<u128, Seq<EventHandler<T, H>>>,
    bus: u128,
    token: u128,
)
    requires
        well_formed(lists),
        forall|i: int|
            0 <= i < handlers_of(lists, bus).len() ==> (#[trigger] handlers_of(lists, bus)[i]).id@
                != token,
    ensures
        unregistered(lists, bus, token) == lists,
{
    let list = handlers_of(lists, bus);
    lemma_without_unnamed(list, token);
    if lists.contains_key(bus) {
        assert(list.len() > 0);
        assert(lists.insert(bus, list) =~= lists);
    } else {
        assert(lists.remove(bus) =~= lists);
    }
}

/// At-most-once removal: unregistering a second time with the same token
/// changes nothing.
pub proof fn law_second_unregister_changes_nothing<T, H>(
    lists: Map<u128, Seq<EventHandler<T, H>>>,
    bus: u128,
    token: u128,
)
    ensures
        unregistered(unregistered(lists, bus, token), bus, token) == unregistered(
            lists,
            bus,
            token,
        ),
{
    let once = unregistered(lists, bus, token);
    let rest = handlers_of(once, bus);
    lemma_without_names_none(handlers_of(lists, bus), token);
    assert(rest == without(handlers_of(lists, bus), token));
    lemma_without_unnamed(rest, token);
    if rest.len() == 0 {
        assert(once.remove(bus) =~= once);
    } else {
        assert(once.insert(bus, rest) =~= once);
    }
}

/// Cancellation short-circuit: once a handler has left the event cancelled,
/// no further handler runs and the dispatch reports the cancellation; a
/// dispatch that reports none has run every handler.
pub proof fn law_cancellation_ends_dispatch<T: Event>(
    handlers: nat,
    trace: Seq<T>,
    before: T,
    after: T,
    cancelled: bool,
)
    requires
        is_run(handlers, trace, before, after, cancelled),
    ensures
        forall|j: int|
            0 < j < trace.len() && halts(#[trigger] trace[j]) ==> j == trace.len() - 1 && cancelled,
        cancelled ==> halts(after),
        !cancelled ==> trace.len() == handlers + 1,
        !T::supports_cancellation() ==> !cancelled,
{
}

/// A dispatch over no handlers leaves the event as it was and reports no
/// cancellation.
pub proof fn law_no_handlers_no_effect<T: Event>(
    trace: Seq<T>,
    before: T,
    after: T,
    cancelled: bool,
)
    requires
        is_run(0, trace, before, after, cancelled),
    ensures
        after == before,
        !cancelled,
{
}

/// Empty-bus cleanup: once the last handler of a bus is unregistered, the
/// storage holds no list for the bus, as if it never had handlers.
pub proof fn law_last_unregister_forgets_bus<T, H>(
    lists: Map<u128, Seq<EventHandler<T, H>>>,
    bus: u128,
    token: u128,
)
    requires
        forall|i: int|
            0 <= i < handlers_of(lists, bus).len() ==> (#[trigger] handlers_of(lists, bus)[i]).id@
                == token,
    ensures
        !unregistered(lists, bus, token).contains_key(bus),
        handlers_of(unregistered(lists, bus, token), bus) == Seq::<EventHandler<T, H>>::empty(),
        unregistered(lists, bus, token) == lists.remove(bus),
{
    let list = handlers_of(lists, bus);
    let named = not_named::<T, H>(token);
    assert(list.all(|e: EventHandler<T, H>| !named(e)));
    list.lemma_all_neg_filter_empty(named);
}

/// Registering a handler and unregistering it again restores the storage,
/// provided that its token names no handler that the bus already had.
pub proof fn law_unregister_undoes_register<T, H: Fn(&mut T)>(
    lists: Map<u128, Seq<EventHandler<T, H>>>,
    bus: u128,
    entry: EventHandler<T, H>,
)
    requires
        well_formed(lists),
        forall|i: int|
            0 <= i < handlers_of(lists, bus).len() ==> (#[trigger] handlers_of(lists, bus)[i]).id@
                != entry.id@,
    ensures
        unregistered(registered(lists, bus, entry), bus, entry.id@) == lists,
{
    let list = handlers_of(lists, bus);
    let k = insertion_point(list, entry.priority);
    let named = not_named::<T, H>(entry.id@);
    list.lemma_filter_len(crate::handler::not_above(entry.priority));
    lemma_filter_insert(list, k, entry, named);
    lemma_without_unnamed(list, entry.id@);
    assert(without(inserted(list, entry), entry.id@) == list);
    let added = registered(lists, bus, entry);
    assert(handlers_of(added, bus) == inserted(list, entry));
    if lists.contains_key(bus) {
        assert(list.len() > 0);
        assert(added.insert(bus, list) =~= lists);
    } else {
        assert(added.remove(bus) =~= lists);
    }
}

} // verus!

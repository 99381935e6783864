//! One bus's handler list: entries ordered by priority, stable among equals.

use crate::event::{halts, invoked, is_run, Event};
use crate::id::EventHandlerId;
use vstd::prelude::*;

verus! {

/// A registered handler: its priority, the callable, and the token that
/// removes it.
pub struct EventHandler<T, H> {
    pub priority: i32,
    pub f: H,
    pub id: EventHandlerId<T>,
}

/// Whether `f` may be called on every event, whatever state earlier handlers
/// left it in.
pub open spec fn accepts_any<T, H: Fn(&mut T)>(f: H) -> bool {
    forall|event: &mut T| #[trigger] f.requires((event,))
}

/// Priorities never decrease along `list`.
pub open spec fn sorted<T, H>(list: Seq<EventHandler<T, H>>) -> bool {
    forall|i: int, j: int| 0 <= i <= j < list.len() ==> list[i].priority <= list[j].priority
}

/// Every handler of `list` may be called on every event.
pub open spec fn callable<T, H: Fn(&mut T)>(list: Seq<EventHandler<T, H>>) -> bool {
    forall|i: int| 0 <= i < list.len() ==> accepts_any::<T, H>(#[trigger] list[i].f)
}

/// The entries whose priority is not higher than `priority`.
pub open spec fn not_above<T, H>(priority: i32) -> spec_fn(EventHandler<T, H>) -> bool {
    |e: EventHandler<T, H>| e.priority <= priority
}

/// The entries that `token` does not name.
pub open spec fn not_named<T, H>(token: u128) -> spec_fn(EventHandler<T, H>) -> bool {
    |e: EventHandler<T, H>| e.id@ != token
}

/// Where a new entry of the given priority goes: behind every entry whose
/// priority is not higher.
pub open spec fn insertion_point<T, H>(list: Seq<EventHandler<T, H>>, priority: i32) -> int {
    list.filter(not_above(priority)).len() as int
}

/// `list` with `entry` added at its insertion point.
pub open spec fn inserted<T, H>(list: Seq<EventHandler<T, H>>, entry: EventHandler<T, H>) -> Seq<
    EventHandler<T, H>,
> {
    list.insert(insertion_point(list, entry.priority), entry)
}

/// `list` without the entries that `token` removes, the others in their order.
pub open spec fn without<T, H>(list: Seq<EventHandler<T, H>>, token: u128) -> Seq<
    EventHandler<T, H>,
> {
    list.filter(not_named(token))
}

/// In a sorted list, the index that splits the priorities at `priority` is the
/// insertion point.
pub proof fn lemma_insertion_point_splits<T, H>(
    list: Seq<EventHandler<T, H>>,
    priority: i32,
    k: int,
)
    requires
        0 <= k <= list.len(),
        forall|i: int| 0 <= i < k ==> (#[trigger] list[i]).priority <= priority,
        forall|i: int| k <= i < list.len() ==> (#[trigger] list[i]).priority > priority,
    ensures
        insertion_point(list, priority) == k,
    decreases list.len(),
{
    reveal(Seq::filter);
    if list.len() > 0 {
        let front = list.drop_last();
        if k == list.len() {
            lemma_insertion_point_splits(front, priority, k - 1);
        } else {
            lemma_insertion_point_splits(front, priority, k);
        }
    }
}

/// The insertion point of a sorted list splits it: no entry before it has a
/// higher priority, every entry from it on has.
pub proof fn lemma_insertion_point_bounds<T, H>(list: Seq<EventHandler<T, H>>, priority: i32)
    requires
        sorted(list),
    ensures
        0 <= insertion_point(list, priority) <= list.len(),
        forall|i: int|
            0 <= i < insertion_point(list, priority) ==> (#[trigger] list[i]).priority <= priority,
        forall|i: int|
            insertion_point(list, priority) <= i < list.len() ==> (#[trigger] list[i]).priority
                > priority,
    decreases list.len(),
{
    reveal(Seq::filter);
    if list.len() > 0 {
        let front = list.drop_last();
        let last = list.len() - 1;
        assert(sorted(front)) by {
            assert forall|i: int, j: int| 0 <= i <= j < front.len() implies front[i].priority
                <= front[j].priority by {
                assert(list[i].priority <= list[j].priority);
            }
        }
        lemma_insertion_point_bounds(front, priority);
        let k = insertion_point(front, priority);
        if list[last].priority <= priority {
            if k < front.len() {
                assert(front[k].priority > priority);
                assert(list[k].priority <= list[last].priority);
            }
            assert forall|i: int| 0 <= i < k + 1 implies (#[trigger] list[i]).priority
                <= priority by {
                assert(list[i].priority <= list[last].priority);
            }
        } else {
            assert forall|i: int| 0 <= i < k implies (#[trigger] list[i]).priority
                <= priority by {
                assert(list[i] == front[i]);
            }
            assert forall|i: int| k <= i < list.len() implies (#[trigger] list[i]).priority
                > priority by {
                if i < last {
                    assert(list[i] == front[i]);
                }
            }
        }
    }
}

/// Adding an entry at its insertion point keeps a sorted list sorted.
pub proof fn lemma_inserted_sorted<T, H>(list: Seq<EventHandler<T, H>>, entry: EventHandler<T, H>)
    requires
        sorted(list),
    ensures
        sorted(inserted(list, entry)),
{
    lemma_insertion_point_bounds(list, entry.priority);
    let k = insertion_point(list, entry.priority);
    let longer = inserted(list, entry);
    assert forall|i: int, j: int| 0 <= i <= j < longer.len() implies longer[i].priority
        <= longer[j].priority by {
        if i < k {
            assert(longer[i] == list[i]);
        } else if i > k {
            assert(longer[i] == list[i - 1]);
        }
        if j < k {
            assert(longer[j] == list[j]);
        } else if j > k {
            assert(longer[j] == list[j - 1]);
        }
    }
}

/// Removing the entries of a token keeps a list sorted and its handlers
/// callable.
pub proof fn lemma_without_keeps<T, H: Fn(&mut T)>(list: Seq<EventHandler<T, H>>, token: u128)
    ensures
        sorted(list) ==> sorted(without(list, token)),
        callable(list) ==> callable(without(list, token)),
    decreases list.len(),
{
    reveal(Seq::filter);
    if list.len() > 0 {
        let front = list.drop_last();
        let last = list.last();
        let kept = without(front, token);
        lemma_without_keeps(front, token);
        if sorted(list) {
            assert(sorted(front)) by {
                assert forall|i: int, j: int| 0 <= i <= j < front.len() implies front[i].priority
                    <= front[j].priority by {
                    assert(list[i].priority <= list[j].priority);
                }
            }
            assert forall|i: int| 0 <= i < kept.len() implies (#[trigger] kept[i]).priority
                <= last.priority by {
                assert(kept.contains(kept[i]));
                front.lemma_filter_contains_rev(not_named(token), kept[i]);
                let at = choose|at: int| 0 <= at < front.len() && front[at] == kept[i];
                assert(list[at].priority <= list[list.len() - 1].priority);
            }
        }
        if callable(list) {
            assert(callable(front)) by {
                assert forall|i: int| 0 <= i < front.len() implies accepts_any::<T, H>(
                    #[trigger] front[i].f,
                ) by {
                    assert(front[i] == list[i]);
                }
            }
            assert(accepts_any::<T, H>(list[list.len() - 1].f));
        }
    }
}

/// The position at which an entry of the given priority is inserted, found by
/// bisection.
pub(crate) fn insertion_index<T, H>(list: &Vec<EventHandler<T, H>>, priority: i32) -> (pos: usize)
    requires
        sorted(list@),
    ensures
        pos == insertion_point(list@, priority),
{
    let mut lo: usize = 0;
    let mut hi: usize = list.len();
    while lo < hi
        invariant
            lo <= hi <= list.len(),
            sorted(list@),
            forall|i: int| 0 <= i < lo ==> (#[trigger] list@[i]).priority <= priority,
            forall|i: int| hi <= i < list.len() ==> (#[trigger] list@[i]).priority > priority,
        decreases hi - lo,
    {
        let mid: usize = lo + (hi - lo) / 2;
        if list[mid].priority <= priority {
            assert forall|i: int| 0 <= i < mid + 1 implies (#[trigger] list@[i]).priority
                <= priority by {
                assert(list@[i].priority <= list@[mid as int].priority);
            }
            lo = mid + 1;
        } else {
            assert forall|i: int| mid <= i < list.len() implies (#[trigger] list@[i]).priority
                > priority by {
                assert(list@[mid as int].priority <= list@[i].priority);
            }
            hi = mid;
        }
    }
    proof {
        lemma_insertion_point_splits(list@, priority, lo as int);
    }
    lo
}

/// Removes from `list` every entry that `id` names and keeps the others in
/// their order.
pub(crate) fn discard<T, H>(list: Vec<EventHandler<T, H>>, id: &EventHandlerId<T>) -> (kept: Vec<
    EventHandler<T, H>,
>)
    ensures
        kept@ == without(list@, id@),
{
    let ghost all = list@;
    let mut kept: Vec<EventHandler<T, H>> = Vec::new();
    proof {
        reveal(Seq::filter);
    }
    for entry in it: list
        invariant
            it.seq() == all,
            kept@ == without(all.take(it.index() as int), id@),
    {
        proof {
            let done = all.take(it.index() as int);
            assert(all.take(it.index() + 1) == done.push(entry));
            done.lemma_filter_push(entry, not_named(id@));
        }
        if entry.id != *id {
            kept.push(entry);
        }
    }
    proof {
        assert(all.take(all.len() as int) == all);
    }
    kept
}

/// Invokes the handlers of `list` in order on `event`, until one leaves the
/// event cancelled or the list ends. Returns whether the event was cancelled.
pub(crate) fn dispatch<T: Event, H: Fn(&mut T)>(
    list: &Vec<EventHandler<T, H>>,
    event: &mut T,
) -> (cancelled: bool)
    requires
        callable(list@),
    ensures
        exists|trace: Seq<T>|
            {
                &&& #[trigger] is_run(list@.len(), trace, *old(event), *final(event), cancelled)
                &&& forall|j: int| #[trigger]
                    invoked(trace, j) ==> exists|step: &mut T|
                        *step == trace[j] && *final(step) == trace[j + 1]
                            && #[trigger] list@[j].f.ensures((step,), ())
            },
{
    let ghost mut trace: Seq<T> = seq![*event];
    let mut i: usize = 0;
    while i < list.len()
        invariant
            i <= list.len(),
            callable(list@),
            trace.len() == i + 1,
            trace[0] == *old(event),
            trace.last() == *event,
            forall|j: int| 0 < j < trace.len() ==> !halts(#[trigger] trace[j]),
            forall|j: int| #[trigger]
                invoked(trace, j) ==> exists|step: &mut T|
                    *step == trace[j] && *final(step) == trace[j + 1]
                        && #[trigger] list@[j].f.ensures((step,), ()),
        decreases list.len() - i,
    {
        let ghost before = *event;
        let ghost earlier = trace;
        let entry = &list[i];
        assert(accepts_any::<T, H>(list@[i as int].f));
        (entry.f)(event);
        proof {
            assert(exists|step: &mut T|
                *step == before && *final(step) == *event && #[trigger] entry.f.ensures(
                    (step,),
                    (),
                ));
            trace = trace.push(*event);
            assert forall|j: int| #[trigger] invoked(trace, j) implies exists|step: &mut T|
                *step == trace[j] && *final(step) == trace[j + 1]
                    && #[trigger] list@[j].f.ensures((step,), ()) by {
                if j < i {
                    assert(invoked(earlier, j));
                    assert(trace[j] == earlier[j]);
                    assert(trace[j + 1] == earlier[j + 1]);
                }
            }
        }
        if T::cancellable() && event.cancelled() {
            assert(is_run(list@.len(), trace, *old(event), *event, true));
            return true;
        }
        i = i + 1;
    }
    assert(is_run(list@.len(), trace, *old(event), *event, false));
    false
}

} // verus!

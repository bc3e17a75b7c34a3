//! What holds of a slot whatever the threads that use it do.
use vstd::prelude::*;

use crate::sticky::StickyView;

verus! {

/// One indivisible step of some thread.
pub ghost enum SlotEvent<T> {
    Enter,
    Look,
    Install { value: T },
    Depart { seen: bool },
    MarkCleared,
    BeginCollection,
    ClearBackend,
    EndCollection,
}

impl<T> StickyView<T> {
    /// The step can be taken now.
    pub open spec fn enabled(self, e: SlotEvent<T>) -> bool {
        match e {
            SlotEvent::Enter => self.enterable(),
            SlotEvent::Look => self.is_out(false) && !self.cleared,
            SlotEvent::Install { value } => self.is_out(true) && self.value is None,
            SlotEvent::Depart { seen } => self.is_out(seen),
            SlotEvent::MarkCleared => !self.cleared,
            SlotEvent::BeginCollection => self.owed > 0,
            SlotEvent::ClearBackend => self.collecting,
            SlotEvent::EndCollection => self.collecting && self.value is None,
        }
    }

    /// The slot after the step.
    pub open spec fn after(self, e: SlotEvent<T>) -> StickyView<T> {
        match e {
            SlotEvent::Enter => self.enter(),
            SlotEvent::Look => self.look(),
            SlotEvent::Install { value } => self.install(value),
            SlotEvent::Depart { seen } => self.depart(seen),
            SlotEvent::MarkCleared => self.mark_cleared(),
            SlotEvent::BeginCollection => self.begin_collection(),
            SlotEvent::ClearBackend => self.clear_backend(),
            SlotEvent::EndCollection => self.end_collection(),
        }
    }

    /// Each of the steps can be taken when its turn comes.
    pub open spec fn legal(self, events: Seq<SlotEvent<T>>) -> bool
        decreases events.len(),
    {
        events.len() == 0 || {
            &&& self.legal(events.drop_last())
            &&& self.run(events.drop_last()).enabled(events.last())
        }
    }

    /// The slot after all the steps.
    pub open spec fn run(self, events: Seq<SlotEvent<T>>) -> StickyView<T>
        decreases events.len(),
    {
        if events.len() == 0 {
            self
        } else {
            self.run(events.drop_last()).after(events.last())
        }
    }
}

/// Every history keeps the invariant.
pub proof fn lemma_slot_history_keeps_inv<T>(v: StickyView<T>, events: Seq<SlotEvent<T>>)
    requires
        v.inv(),
        v.legal(events),
    ensures
        v.run(events).inv(),
    decreases events.len(),
{
    if events.len() > 0 {
        lemma_slot_history_keeps_inv(v, events.drop_last());
    }
}

/// Nothing is left behind: whatever threads did with a new slot, once it has been
/// cleared and everybody is done with it, the value has been released.
pub proof fn cleared_slot_keeps_no_value<T>(id: int, events: Seq<SlotEvent<T>>)
    requires
        StickyView::<T>::empty(id).legal(events),
        StickyView::<T>::empty(id).run(events).cleared,
        StickyView::<T>::empty(id).run(events).idle(),
    ensures
        StickyView::<T>::empty(id).run(events).value is None,
{
    lemma_slot_history_keeps_inv(StickyView::<T>::empty(id), events);
}

/// A slot is written at most once, cleared or not: after the first value, no step
/// puts another one in.
pub proof fn written_at_most_once<T>(v: StickyView<T>, e: SlotEvent<T>)
    requires
        v.inv(),
        v.enabled(e),
        v.first is Some,
    ensures
        !(e is Install),
        v.after(e).first == v.first,
        v.after(e).value is Some ==> v.after(e).value == v.first,
{
}

/// The first value put into a slot stays the first, whatever threads do.
pub proof fn first_value_stays_the_first<T>(v: StickyView<T>, events: Seq<SlotEvent<T>>)
    requires
        v.inv(),
        v.legal(events),
        v.first is Some,
    ensures
        v.run(events).inv(),
        v.run(events).first == v.first,
    decreases events.len(),
{
    if events.len() > 0 {
        first_value_stays_the_first(v, events.drop_last());
        written_at_most_once(v.run(events.drop_last()), events.last());
    }
}

/// Over the whole life of a slot, everything that is had from it, by `get` or by
/// `stick`, is the same value: the first.
pub proof fn all_results_agree<T>(v: StickyView<T>, events: Seq<SlotEvent<T>>)
    requires
        v.inv(),
        v.legal(events),
        v.get() is Some,
        v.run(events).get() is Some,
    ensures
        v.get() == v.first,
        v.run(events).get() == v.get(),
{
    first_value_stays_the_first(v, events);
}

/// Putting a value into a slot yields none only if the slot was cleared, or if as
/// many guards are out as can be counted.
pub proof fn nothing_to_be_had_only_after_clearing<T>(v: StickyView<T>, value: T)
    requires
        v.inv(),
        v.shove(value).get() is None,
    ensures
        v.cleared || v.readers >= usize::MAX,
{
}

/// A value stays in the slot until the slot is cleared.
pub proof fn value_sticks<T>(v: StickyView<T>, e: SlotEvent<T>)
    requires
        v.inv(),
        v.enabled(e),
        v.value is Some,
        !v.cleared,
    ensures
        v.after(e).value == v.value,
{
}

/// The value is not released while a guard is out.
pub proof fn guard_keeps_value<T>(v: StickyView<T>, e: SlotEvent<T>)
    requires
        v.inv(),
        v.enabled(e),
        v.value is Some,
        v.readers > 0,
    ensures
        v.after(e).value == v.value,
{
}

/// Nothing is ever to be had from a slot that has been cleared.
pub proof fn cleared_for_good<T>(v: StickyView<T>, events: Seq<SlotEvent<T>>)
    requires
        v.legal(events),
        v.cleared,
    ensures
        v.run(events).cleared,
        v.run(events).get() is None,
    decreases events.len(),
{
    if events.len() > 0 {
        cleared_for_good(v, events.drop_last());
    }
}

/// The first value wins: a second one changes nothing.
pub proof fn first_value_wins<T>(v: StickyView<T>, first: T, second: T)
    requires
        v.inv(),
        v.enterable(),
        !v.cleared,
    ensures
        v.shove(first).get() == Some(
            if v.value is Some {
                v.value->0
            } else {
                first
            },
        ),
        v.shove(first).shove(second) == v.shove(first),
{
}

/// A cleared slot takes no value.
pub proof fn cleared_slot_takes_no_value<T>(v: StickyView<T>, value: T)
    requires
        v.inv(),
        v.cleared,
    ensures
        v.shove(value).get() is None,
        v.shove(value).value is Some ==> v.shove(value).value == v.value,
{
}

/// Clearing twice is clearing once.
pub proof fn clearing_twice<T>(v: StickyView<T>)
    ensures
        v.clear().clear() == v.clear(),
{
}

/// Clearing a slot that nobody uses releases its value.
pub proof fn clearing_releases_value<T>(v: StickyView<T>)
    requires
        v.inv(),
        v.idle(),
    ensures
        v.clear().value is None,
{
}

/// One step more at the end.
proof fn lemma_one_more<T>(v: StickyView<T>, events: Seq<SlotEvent<T>>, e: SlotEvent<T>)
    requires
        v.legal(events),
        v.run(events).enabled(e),
    ensures
        v.legal(events.push(e)),
        v.run(events.push(e)) == v.run(events).after(e),
{
    assert(events.push(e).drop_last() =~= events);
}

/// Trying to release the value, after the steps that oblige a thread to try.
proof fn lemma_collect<T>(v: StickyView<T>, events: Seq<SlotEvent<T>>) -> (all: Seq<SlotEvent<T>>)
    requires
        v.legal(events),
        v.run(events).owed > 0,
    ensures
        v.legal(all),
        v.run(all) == (StickyView {
            owed: (v.run(events).owed - 1) as nat,
            ..v.run(events)
        }).tidied(),
{
    let a = events.push(SlotEvent::BeginCollection);
    lemma_one_more(v, events, SlotEvent::BeginCollection);
    if v.run(events).collectable() {
        let b = a.push(SlotEvent::ClearBackend);
        lemma_one_more(v, a, SlotEvent::ClearBackend);
        lemma_one_more(v, b, SlotEvent::EndCollection);
        b.push(SlotEvent::EndCollection)
    } else {
        a
    }
}

/// `clear` is a history.
pub proof fn clear_is_a_history<T>(v: StickyView<T>) -> (events: Seq<SlotEvent<T>>)
    ensures
        v.legal(events),
        v.run(events) == v.clear(),
{
    let none = Seq::<SlotEvent<T>>::empty();
    if v.cleared {
        none
    } else {
        lemma_one_more(v, none, SlotEvent::MarkCleared);
        lemma_collect(v, none.push(SlotEvent::MarkCleared))
    }
}

/// Putting a value into the slot, by `shove` or `stick`, is a history.
pub proof fn shove_is_a_history<T>(v: StickyView<T>, value: T) -> (events: Seq<SlotEvent<T>>)
    requires
        v.inv(),
    ensures
        v.legal(events),
        v.run(events) == v.shove(value),
{
    let none = Seq::<SlotEvent<T>>::empty();
    if !v.enterable() {
        none
    } else {
        let a = none.push(SlotEvent::Enter);
        lemma_one_more(v, none, SlotEvent::Enter);
        let b = if !v.cleared {
            lemma_one_more(v, a, SlotEvent::Look);
            a.push(SlotEvent::Look)
        } else {
            a
        };
        let c = if !v.cleared && v.value is None {
            lemma_one_more(v, b, SlotEvent::Install { value });
            b.push(SlotEvent::Install { value })
        } else {
            b
        };
        lemma_one_more(v, c, SlotEvent::Depart { seen: !v.cleared });
        lemma_collect(v, c.push(SlotEvent::Depart { seen: !v.cleared }))
    }
}

/// `get` is a history.
pub proof fn get_is_a_history<T>(v: StickyView<T>) -> (events: Seq<SlotEvent<T>>)
    requires
        v.inv(),
    ensures
        v.legal(events),
        v.run(events) == v.visited(),
{
    let none = Seq::<SlotEvent<T>>::empty();
    if !v.enterable() {
        none
    } else {
        let a = none.push(SlotEvent::Enter);
        lemma_one_more(v, none, SlotEvent::Enter);
        let b = if !v.cleared {
            lemma_one_more(v, a, SlotEvent::Look);
            a.push(SlotEvent::Look)
        } else {
            a
        };
        lemma_one_more(v, b, SlotEvent::Depart { seen: !v.cleared });
        lemma_collect(v, b.push(SlotEvent::Depart { seen: !v.cleared }))
    }
}

} // verus!

//! What each step and each call does to a slot, said of what the slot holds.
use vstd::prelude::*;

use crate::sticky::StickyView;
use crate::sticky_laws::SlotEvent;

verus! {

/// A new slot holds nothing, was never cleared, and nobody uses it.
pub proof fn a_new_slot_holds_nothing<T>(id: int)
    ensures
        ({
            let v = StickyView::<T>::empty(id);
            &&& v.id == id && v.value is None && v.first is None && !v.cleared && !v.collecting
            &&& v.readers == 0 && v.owed == 0 && v.seen == 0
        }),
{
}

/// When a slot can be used, cleaned up, and is left alone.
pub proof fn when_a_slot_can_be_used<T>(v: StickyView<T>)
    ensures
        v.enterable() <==> !v.collecting && v.readers < usize::MAX,
        v.collectable() <==> v.cleared && !v.collecting && v.readers == 0,
        v.idle() <==> v.readers == 0 && v.owed == 0 && !v.collecting,
        v.is_out(true) <==> 0 < v.seen && v.seen <= v.readers,
        v.is_out(false) <==> v.seen < v.readers,
{
}

/// What the steps with a guard change: the counts of guards, and nothing else.
pub proof fn guards_are_counted<T>(v: StickyView<T>, seen: bool)
    requires
        v.readers > 0,
        seen ==> v.seen > 0,
    ensures
        ({
            let r = v.enter();
            &&& r.readers == v.readers + 1
            &&& r.id == v.id && r.value == v.value && r.first == v.first && r.cleared == v.cleared
                && r.collecting == v.collecting && r.owed == v.owed && r.seen == v.seen
        }),
        ({
            let r = v.look();
            &&& r.seen == v.seen + 1
            &&& r.id == v.id && r.value == v.value && r.first == v.first && r.cleared == v.cleared
                && r.collecting == v.collecting && r.owed == v.owed && r.readers == v.readers
        }),
        ({
            let r = v.leave(seen);
            &&& r.readers + 1 == v.readers
            &&& seen ==> r.seen + 1 == v.seen
            &&& !seen ==> r.seen == v.seen
            &&& r.id == v.id && r.value == v.value && r.first == v.first && r.cleared == v.cleared
                && r.collecting == v.collecting && r.owed == v.owed
        }),
        ({
            let r = v.depart(seen);
            &&& r.readers + 1 == v.readers
            &&& seen ==> r.seen + 1 == v.seen
            &&& !seen ==> r.seen == v.seen
            &&& r.owed == v.owed + 1
            &&& r.id == v.id && r.value == v.value && r.first == v.first && r.cleared == v.cleared
                && r.collecting == v.collecting
        }),
{
}

/// A guard taken and given up leaves the slot as it was.
pub proof fn a_guard_leaves_no_trace<T>(v: StickyView<T>)
    ensures
        v.enter().leave(false) == v,
        v.enter().look().leave(true) == v,
{
}

/// Installing puts the value in, and changes nothing else.
pub proof fn install_puts_the_value_in<T>(v: StickyView<T>, value: T)
    ensures
        ({
            let r = v.install(value);
            &&& r.value == Some(value) && r.first == Some(value)
            &&& r.id == v.id && r.cleared == v.cleared && r.collecting == v.collecting && r.readers
                == v.readers && r.owed == v.owed && r.seen == v.seen
        }),
{
}

/// The steps of clearing.
pub proof fn clearing_goes_step_by_step<T>(v: StickyView<T>)
    requires
        v.owed > 0,
    ensures
        ({
            let r = v.mark_cleared();
            &&& r.cleared && r.owed == v.owed + 1
            &&& r.id == v.id && r.value == v.value && r.first == v.first && r.collecting
                == v.collecting && r.readers == v.readers && r.seen == v.seen
        }),
        ({
            let r = v.begin_collection();
            &&& r.owed + 1 == v.owed
            &&& r.collecting <==> v.collecting || (v.cleared && v.readers == 0)
            &&& r.id == v.id && r.value == v.value && r.first == v.first && r.cleared == v.cleared
                && r.readers == v.readers && r.seen == v.seen
        }),
        ({
            let r = v.clear_backend();
            &&& r.value is None
            &&& r.id == v.id && r.first == v.first && r.cleared == v.cleared && r.collecting
                == v.collecting && r.readers == v.readers && r.seen == v.seen && r.owed == v.owed
        }),
        ({
            let r = v.end_collection();
            &&& !r.collecting
            &&& r.id == v.id && r.value == v.value && r.first == v.first && r.cleared == v.cleared
                && r.readers == v.readers && r.seen == v.seen && r.owed == v.owed
        }),
{
}

/// The value of a cleared slot goes as soon as no guard is out, and not before.
pub proof fn a_cleared_value_goes_with_the_last_guard<T>(v: StickyView<T>)
    ensures
        ({
            let r = v.tidied();
            &&& v.cleared && v.readers == 0 && !v.collecting ==> r.value is None
            &&& !v.cleared || v.readers > 0 || v.collecting ==> r.value == v.value
            &&& r.id == v.id && r.first == v.first && r.cleared == v.cleared && r.collecting
                == v.collecting && r.readers == v.readers && r.seen == v.seen && r.owed == v.owed
        }),
{
}

/// After `clear` the slot is cleared. Its value is gone unless a guard is out, and
/// who uses the slot does not change.
pub proof fn clear_clears<T>(v: StickyView<T>)
    ensures
        ({
            let r = v.clear();
            &&& r.cleared
            &&& !v.cleared && v.readers == 0 && !v.collecting ==> r.value is None
            &&& v.cleared || v.readers > 0 || v.collecting ==> r.value == v.value
            &&& r.id == v.id && r.first == v.first && r.collecting == v.collecting && r.readers
                == v.readers && r.seen == v.seen && r.owed == v.owed
        }),
{
}

/// What is to be had: the value, until the slot is cleared.
pub proof fn get_finds_the_value_until_cleared<T>(v: StickyView<T>)
    ensures
        !v.cleared && !v.collecting && v.readers < usize::MAX ==> v.get() == v.value,
        v.cleared ==> v.get() is None,
        v.collecting ==> v.get() is None,
        v.readers >= usize::MAX ==> v.get() is None,
{
}

/// Looking does not change an uncleared slot, and a cleared one only loses its
/// value if no guard is out.
pub proof fn looking_changes_nothing<T>(v: StickyView<T>)
    ensures
        ({
            let r = v.visited();
            &&& !v.cleared || v.readers > 0 || v.collecting ==> r == v
            &&& v.cleared && v.readers == 0 && !v.collecting ==> r.value is None
            &&& r.id == v.id && r.first == v.first && r.cleared == v.cleared && r.collecting
                == v.collecting && r.readers == v.readers && r.seen == v.seen && r.owed == v.owed
        }),
{
}

/// Putting a value in: an empty slot that is not cleared takes it, a full one
/// keeps what it has, and a cleared one takes nothing.
pub proof fn shove_fills_an_empty_slot<T>(v: StickyView<T>, value: T)
    ensures
        ({
            let r = v.shove(value);
            &&& !v.cleared && !v.collecting && v.readers < usize::MAX && v.value is None ==> r.value
                == Some(value) && r.first == Some(value)
            &&& !v.cleared && v.value is Some ==> r == v
            &&& v.cleared ==> (r.value == v.value || r.value is None) && r.first == v.first
            &&& v.cleared && (v.readers > 0 || v.collecting) ==> r.value == v.value
            &&& v.cleared && v.readers == 0 && !v.collecting ==> r.value is None
            &&& v.collecting || v.readers >= usize::MAX ==> r == v
            &&& r.id == v.id && r.cleared == v.cleared && r.collecting == v.collecting && r.readers
                == v.readers && r.seen == v.seen && r.owed == v.owed
        }),
{
}

/// What was put into an empty slot is what is found there, by everybody, until the
/// slot is cleared, and never after.
pub proof fn what_was_put_in_is_found<T>(v: StickyView<T>, value: T, other: T)
    requires
        !v.cleared,
        !v.collecting,
        v.readers < usize::MAX,
        v.value is None,
    ensures
        v.shove(value).get() == Some(value),
        v.shove(value).visited().get() == Some(value),
        v.shove(value).shove(other).get() == Some(value),
        v.shove(value).clear().get() is None,
        v.shove(value).clear().shove(other).get() is None,
        v.clear().shove(value).get() is None,
{
}

/// A history of a slot is built step by step.
pub proof fn slot_histories_are_built_step_by_step<T>(
    v: StickyView<T>,
    events: Seq<SlotEvent<T>>,
    e: SlotEvent<T>,
)
    ensures
        v.legal(Seq::<SlotEvent<T>>::empty()),
        v.run(Seq::<SlotEvent<T>>::empty()) == v,
        v.legal(events.push(e)) <==> v.legal(events) && v.run(events).enabled(e),
        v.run(events.push(e)) == v.run(events).after(e),
{
    assert(events.push(e).drop_last() =~= events);
}

/// When each event of a slot is possible, and what it does.
pub proof fn slot_events_do_what_they_say<T>(v: StickyView<T>, value: T, seen: bool)
    ensures
        v.enabled(SlotEvent::Enter) <==> !v.collecting && v.readers < usize::MAX,
        v.enabled(SlotEvent::Look) <==> !v.cleared && v.seen < v.readers,
        v.enabled(SlotEvent::Install { value }) <==> v.value is None && 0 < v.seen && v.seen
            <= v.readers,
        v.enabled(SlotEvent::Depart { seen: true }) <==> 0 < v.seen && v.seen <= v.readers,
        v.enabled(SlotEvent::Depart { seen: false }) <==> v.seen < v.readers,
        v.enabled(SlotEvent::MarkCleared) <==> !v.cleared,
        v.enabled(SlotEvent::BeginCollection) <==> v.owed > 0,
        v.enabled(SlotEvent::ClearBackend) <==> v.collecting,
        v.enabled(SlotEvent::EndCollection) <==> v.collecting && v.value is None,
        v.after(SlotEvent::Enter) == v.enter(),
        v.after(SlotEvent::Look) == v.look(),
        v.after(SlotEvent::Install { value }) == v.install(value),
        v.after(SlotEvent::Depart { seen }) == v.depart(seen),
        v.after(SlotEvent::MarkCleared) == v.mark_cleared(),
        v.after(SlotEvent::BeginCollection) == v.begin_collection(),
        v.after(SlotEvent::ClearBackend) == v.clear_backend(),
        v.after(SlotEvent::EndCollection) == v.end_collection(),
{
}

} // verus!

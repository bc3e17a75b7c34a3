//! A slot that keeps the first value put into it until the slot is cleared.
//!
//! Several threads use one slot at a time. A thread that reads or fills the slot
//! holds a [`StickyGuard`] meanwhile, and the value is only released when no
//! guard is out: by the thread that clears the slot if it can, and by the last
//! departing guard otherwise.
//!
//! Every function here either is one indivisible step on the slot or a sequence
//! of such steps. `Sticky::inv` holds after every step, whichever threads take
//! the steps and in whatever order.
use std::sync::Arc;
use vstd::prelude::*;

use crate::error::{TryLockError, TryLockResult};

verus! {

/// Keeps the first value put into it until it is cleared.
pub struct Sticky<T> {
    ptr: Option<Arc<T>>,
    cleared: bool,
    /// How many guards are out.
    readers: usize,
    /// Whether some thread has the slot to itself, to release the value.
    collecting: bool,
    /// How many steps have been taken that oblige the thread that took them to
    /// try and release the value next.
    owed: Ghost<nat>,
    /// How many of the guards that are out have seen the slot uncleared.
    seen: Ghost<nat>,
    /// The first value that was put into the slot, also after its release.
    first: Ghost<Option<T>>,
    /// Tells this slot from others.
    id: Ghost<int>,
}

/// What a slot holds and who is using it.
#[verifier::ext_equal]
pub ghost struct StickyView<T> {
    /// Tells this slot from others.
    pub id: int,
    pub value: Option<T>,
    pub cleared: bool,
    pub readers: nat,
    pub collecting: bool,
    pub owed: nat,
    /// How many of the guards that are out have seen the slot uncleared.
    pub seen: nat,
    /// The first value that was put into the slot, also after its release.
    pub first: Option<T>,
}

/// Keeps the value of a slot from being released.
pub struct StickyGuard {
    /// Which slot the guard is of.
    slot: Ghost<int>,
    /// Whether the slot has been looked at under this guard, and was uncleared.
    seen: Ghost<bool>,
}

impl<T> StickyView<T> {
    /// A slot that nothing was put into and that nobody uses.
    pub open spec fn empty(id: int) -> StickyView<T> {
        StickyView {
            id,
            value: None,
            cleared: false,
            readers: 0,
            collecting: false,
            owed: 0,
            seen: 0,
            first: None,
        }
    }

    /// A cleared slot that still has its value is not forgotten: a guard is out,
    /// the value is being released, or some thread is about to try. While the
    /// value is being released, no guard is out. The slot holds no other value
    /// than the first, and once that is released, nobody is left who could put
    /// another one in.
    pub open spec fn inv(self) -> bool {
        &&& self.cleared && self.value is Some ==> self.readers > 0 || self.collecting || self.owed
            > 0
        &&& self.collecting ==> self.cleared && self.readers == 0
        &&& self.seen <= self.readers
        &&& self.value is Some ==> self.first == self.value
        &&& self.first is Some && self.value is None ==> self.cleared && self.seen == 0
    }

    /// A guard is out that has, or has not, `seen` the slot uncleared.
    pub open spec fn is_out(self, seen: bool) -> bool {
        if seen {
            0 < self.seen <= self.readers
        } else {
            self.seen < self.readers
        }
    }

    /// Nobody uses the slot and nobody owes it anything.
    pub open spec fn idle(self) -> bool {
        self.readers == 0 && !self.collecting && self.owed == 0
    }

    /// A guard can be had.
    pub open spec fn enterable(self) -> bool {
        !self.collecting && self.readers < usize::MAX
    }

    /// A thread could have the slot to itself.
    pub open spec fn collectable(self) -> bool {
        self.cleared && self.readers == 0 && !self.collecting
    }

    // The steps.

    /// One guard more is out.
    pub open spec fn enter(self) -> StickyView<T> {
        StickyView { readers: self.readers + 1, ..self }
    }

    /// A guard sees the slot uncleared.
    pub open spec fn look(self) -> StickyView<T> {
        StickyView { seen: self.seen + 1, ..self }
    }

    /// A guard that has, or has not, `seen` the slot uncleared is no longer out.
    pub open spec fn leave(self, seen: bool) -> StickyView<T> {
        StickyView {
            readers: (self.readers - 1) as nat,
            seen: if seen {
                (self.seen - 1) as nat
            } else {
                self.seen
            },
            ..self
        }
    }

    /// A guard has been given up, and its thread has yet to try and release the
    /// value.
    pub open spec fn depart(self, seen: bool) -> StickyView<T> {
        StickyView { owed: self.owed + 1, ..self.leave(seen) }
    }

    /// The empty slot gets a value.
    pub open spec fn install(self, value: T) -> StickyView<T> {
        StickyView { value: Some(value), first: Some(value), ..self }
    }

    /// The slot is cleared, and the thread that did so has yet to try and release
    /// the value.
    pub open spec fn mark_cleared(self) -> StickyView<T> {
        StickyView { cleared: true, owed: self.owed + 1, ..self }
    }

    /// A thread that owed it has tried to get the slot to itself.
    pub open spec fn begin_collection(self) -> StickyView<T> {
        StickyView {
            collecting: self.collecting || self.collectable(),
            owed: (self.owed - 1) as nat,
            ..self
        }
    }

    /// The value is released.
    pub open spec fn clear_backend(self) -> StickyView<T> {
        StickyView { value: None, ..self }
    }

    /// No thread has the slot to itself any more.
    pub open spec fn end_collection(self) -> StickyView<T> {
        StickyView { collecting: false, ..self }
    }

    // What a thread does without being interrupted.

    /// The value is gone if it was waiting to be released and could be.
    pub open spec fn tidied(self) -> StickyView<T> {
        if self.collectable() {
            StickyView { value: None, ..self }
        } else {
            self
        }
    }

    /// The slot after `clear`.
    pub open spec fn clear(self) -> StickyView<T> {
        if self.cleared {
            self
        } else {
            StickyView { cleared: true, ..self }.tidied()
        }
    }

    /// What is to be had from the slot.
    pub open spec fn get(self) -> Option<T> {
        if self.enterable() && !self.cleared {
            self.value
        } else {
            None
        }
    }

    /// The slot after somebody came to look, and left.
    pub open spec fn visited(self) -> StickyView<T> {
        if self.enterable() {
            self.tidied()
        } else {
            self
        }
    }

    /// The slot after an attempt to put `value` into it.
    pub open spec fn shove(self, value: T) -> StickyView<T> {
        if self.enterable() && !self.cleared && self.value is None {
            self.install(value)
        } else {
            self.visited()
        }
    }
}

impl StickyGuard {
    /// Which slot the guard is of.
    pub closed spec fn slot(self) -> int {
        self.slot@
    }

    /// The slot has been looked at under this guard, and was uncleared.
    pub closed spec fn seen(self) -> bool {
        self.seen@
    }

    /// Takes a guard of the slot. There is none to be had while the value is
    /// being released.
    pub fn new<T>(slot: &mut Sticky<T>) -> (result: TryLockResult<StickyGuard>)
        requires
            old(slot).inv(),
        ensures
            final(slot).inv(),
            result is Ok <==> old(slot)@.enterable(),
            result is Err ==> result->Err_0 is WouldBlock && final(slot)@ == old(slot)@,
            result is Ok ==> final(slot)@ == old(slot)@.enter(),
            result is Ok ==> result->Ok_0.slot() == old(slot)@.id && !result->Ok_0.seen(),
    {
        if slot.collecting || slot.readers == usize::MAX {
            Err(TryLockError::WouldBlock)
        } else {
            slot.readers = slot.readers + 1;
            Ok(StickyGuard { slot: slot.id, seen: Ghost(false) })
        }
    }

    /// Gives the guard up, without looking whether the value can be released
    /// now. The caller owes the slot a `begin_collection`.
    pub fn depart<T>(self, slot: &mut Sticky<T>)
        requires
            old(slot).inv(),
            self.slot() == old(slot)@.id,
            old(slot)@.is_out(self.seen()),
        ensures
            final(slot).inv(),
            final(slot)@ == old(slot)@.depart(self.seen()),
    {
        slot.readers = slot.readers - 1;
        slot.seen = Ghost(slot@.leave(self.seen@).seen);
        slot.owed = Ghost(slot.owed@ + 1);
    }

    /// Gives the guard up, and releases the value if the slot has been cleared
    /// and no other guard is out.
    pub fn drop<T>(self, slot: &mut Sticky<T>)
        requires
            old(slot).inv(),
            self.slot() == old(slot)@.id,
            old(slot)@.is_out(self.seen()),
        ensures
            final(slot).inv(),
            final(slot)@ == old(slot)@.leave(self.seen()).tidied(),
    {
        self.depart(slot);
        slot.collect();
    }
}

impl<T> View for Sticky<T> {
    type V = StickyView<T>;

    closed spec fn view(&self) -> StickyView<T> {
        StickyView {
            id: self.id@,
            value: match self.ptr {
                Some(arc) => Some(*arc),
                None => None,
            },
            cleared: self.cleared,
            readers: self.readers as nat,
            collecting: self.collecting,
            owed: self.owed@,
            seen: self.seen@,
            first: self.first@,
        }
    }
}

impl<T> Sticky<T> {
    /// What every step on the slot keeps.
    pub open spec fn inv(self) -> bool {
        self@.inv()
    }

    /// An empty slot that nobody uses.
    pub fn new() -> (slot: Sticky<T>)
        ensures
            slot.inv(),
            slot@ == StickyView::<T>::empty(slot@.id),
    {
        Sticky {
            ptr: None,
            cleared: false,
            readers: 0,
            collecting: false,
            owed: Ghost(0),
            seen: Ghost(0),
            first: Ghost(None),
            id: Ghost(arbitrary()),
        }
    }

    /// Marks the slot as cleared, and says whether it was not so before. If it
    /// was not, the caller owes the slot a `begin_collection`.
    pub fn mark_cleared(&mut self) -> (first: bool)
        requires
            old(self).inv(),
        ensures
            final(self).inv(),
            first <==> !old(self)@.cleared,
            !first ==> final(self)@ == old(self)@,
            first ==> final(self)@ == old(self)@.mark_cleared(),
    {
        if self.cleared {
            false
        } else {
            self.cleared = true;
            self.owed = Ghost(self.owed@ + 1);
            true
        }
    }

    /// Tries to get a cleared slot to oneself, which settles what the caller owes
    /// it either way.
    pub fn begin_collection(&mut self) -> (alone: bool)
        requires
            old(self).inv(),
            old(self)@.owed > 0,
        ensures
            final(self).inv(),
            alone <==> old(self)@.collectable(),
            final(self)@ == old(self)@.begin_collection(),
    {
        self.owed = Ghost((self.owed@ - 1) as nat);
        if self.cleared && self.readers == 0 && !self.collecting {
            self.collecting = true;
            true
        } else {
            false
        }
    }

    /// Releases the value. Only for the thread that has the slot to itself.
    pub fn clear_backend(&mut self)
        requires
            old(self).inv(),
            old(self)@.collecting,
        ensures
            final(self).inv(),
            final(self)@ == old(self)@.clear_backend(),
    {
        self.ptr = None;
    }

    /// Lets other threads use the slot again.
    pub fn end_collection(&mut self)
        requires
            old(self).inv(),
            old(self)@.collecting,
            old(self)@.value is None,
        ensures
            final(self).inv(),
            final(self)@ == old(self)@.end_collection(),
    {
        self.collecting = false;
    }

    /// Settles what the caller owes: releases the value of a cleared slot if
    /// nobody uses it.
    fn collect(&mut self)
        requires
            old(self).inv(),
            old(self)@.owed > 0,
        ensures
            final(self).inv(),
            final(self)@ == (StickyView {
                owed: (old(self)@.owed - 1) as nat,
                ..old(self)@
            }).tidied(),
    {
        if self.begin_collection() {
            self.clear_backend();
            self.end_collection();
        }
    }

    /// Looks under a guard whether the slot is uncleared.
    pub fn look(&mut self, guard: &mut StickyGuard) -> (uncleared: bool)
        requires
            old(self).inv(),
            old(guard).slot() == old(self)@.id,
            old(self)@.is_out(old(guard).seen()),
        ensures
            final(self).inv(),
            uncleared <==> !old(self)@.cleared,
            final(guard).slot() == old(guard).slot(),
            final(guard).seen() == (old(guard).seen() || uncleared),
            final(self)@ == if uncleared && !old(guard).seen() {
                old(self)@.look()
            } else {
                old(self)@
            },
    {
        let uncleared = !self.cleared;
        if uncleared {
            self.seen = Ghost(
                if guard.seen@ {
                    self.seen@
                } else {
                    self.seen@ + 1
                },
            );
            guard.seen = Ghost(true);
        }
        uncleared
    }

    /// Puts `arc` into the slot if it is empty, and says whether it was. Only for
    /// a thread that has seen the slot uncleared under its guard.
    pub fn install(&mut self, guard: &StickyGuard, arc: Arc<T>) -> (installed: bool)
        requires
            old(self).inv(),
            guard.slot() == old(self)@.id,
            guard.seen(),
            old(self)@.is_out(true),
        ensures
            final(self).inv(),
            installed <==> old(self)@.value is None,
            !installed ==> final(self)@ == old(self)@,
            installed ==> final(self)@ == old(self)@.install(*arc),
    {
        match self.ptr {
            Some(_) => false,
            None => {
                self.ptr = Some(arc);
                self.first = Ghost(self@.value);
                true
            },
        }
    }

    /// Reads the slot, whether or not it is cleared.
    pub fn load(&self, guard: &StickyGuard) -> (value: Option<Arc<T>>)
        requires
            self.inv(),
            guard.slot() == self@.id,
            self@.is_out(guard.seen()),
        ensures
            value is Some <==> self@.value is Some,
            value is Some ==> *value->0 == self@.value->0,
    {
        match &self.ptr {
            Some(arc) => Some(arc.clone()),
            None => None,
        }
    }

    /// Whether the slot has been marked as cleared.
    pub fn is_cleared(&self) -> (cleared: bool)
        ensures
            cleared <==> self@.cleared,
    {
        self.cleared
    }

    /// Clears the slot: nothing is to be had from it ever after. The value is
    /// released at once if no guard is out.
    pub fn clear(&mut self)
        requires
            old(self).inv(),
        ensures
            final(self).inv(),
            final(self)@ == old(self)@.clear(),
    {
        if self.mark_cleared() {
            self.collect();
        }
    }

    /// Puts `val` into the slot if it is empty, and returns what the slot then
    /// holds. A cleared slot takes no value and returns none.
    pub fn stick(&mut self, val: Arc<T>) -> (held: Option<Arc<T>>)
        requires
            old(self).inv(),
        ensures
            final(self).inv(),
            final(self)@ == old(self)@.shove(*val),
            held is Some <==> final(self)@.get() is Some,
            held is Some ==> *held->0 == final(self)@.get()->0,
            held is None ==> old(self)@.cleared || old(self)@.readers >= usize::MAX,
    {
        match StickyGuard::new(self) {
            Ok(guard) => {
                let mut guard = guard;
                if !self.look(&mut guard) {
                    guard.drop(self);
                    return None;
                }
                let held = if self.install(&guard, val.clone()) {
                    Some(val)
                } else {
                    self.load(&guard)
                };
                guard.drop(self);
                held
            },
            Err(_) => None,
        }
    }

    /// Puts `arc` into the slot if it is empty and not cleared.
    pub fn shove(&mut self, arc: Arc<T>)
        requires
            old(self).inv(),
        ensures
            final(self).inv(),
            final(self)@ == old(self)@.shove(*arc),
    {
        if let Ok(guard) = StickyGuard::new(self) {
            let mut guard = guard;
            if self.look(&mut guard) {
                self.install(&guard, arc);
            }
            guard.drop(self);
        }
    }

    /// What the slot holds, if it holds something and is not cleared.
    pub fn get(&mut self) -> (value: Option<Arc<T>>)
        requires
            old(self).inv(),
        ensures
            final(self).inv(),
            final(self)@ == old(self)@.visited(),
            value is Some <==> old(self)@.get() is Some,
            value is Some ==> *value->0 == old(self)@.get()->0,
    {
        match StickyGuard::new(self) {
            Ok(guard) => {
                let mut guard = guard;
                let value = if self.look(&mut guard) {
                    self.load(&guard)
                } else {
                    None
                };
                guard.drop(self);
                value
            },
            Err(_) => None,
        }
    }
}

} // verus!

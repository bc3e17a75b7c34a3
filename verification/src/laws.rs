//! What holds of a lock whatever the threads that use it do.
use vstd::prelude::*;

use crate::history::{lemma_history_keeps_inv, lemma_step_keeps_inv, Event};
use crate::lock::RwLockView;
use crate::model::{lemma_request, lemma_stop};
use crate::model::{Access, NodeState, QueueView, ThreadId};

verus! {

/// There may be any number of readers or one writer: of two requests that have
/// access at the same time, both are for reading.
pub proof fn mutual_exclusion(q: QueueView, i: int, j: int)
    requires
        q.inv(),
        q.contains(i),
        q.contains(j),
        i != j,
        q.node(i).held(),
        q.node(j).held(),
    ensures
        q.node(i).access == Access::Read,
        q.node(j).access == Access::Read,
{
    let (old, young) = if i < j {
        (i, j)
    } else {
        (j, i)
    };
    assert(q.node_inv(old) && q.node_inv(young));
}

/// Mutual exclusion in every state that threads can bring a new lock into.
pub proof fn mutual_exclusion_in_every_history<T>(
    lock: RwLockView<T>,
    t: T,
    events: Seq<Event<T>>,
    i: int,
    j: int,
)
    requires
        lock.is_new(t),
        lock.legal(events),
        lock.run(events).queue.contains(i),
        lock.run(events).queue.contains(j),
        i != j,
        lock.run(events).queue.node(i).held(),
        lock.run(events).queue.node(j).held(),
    ensures
        lock.run(events).queue.node(i).access == Access::Read,
        lock.run(events).queue.node(j).access == Access::Read,
{
    lemma_history_keeps_inv(lock, events);
    mutual_exclusion(lock.run(events).queue, i, j);
}

/// First come, first served: when a writer has access, every request that came
/// before it is finished.
pub proof fn writer_comes_after_all_older(q: QueueView, i: int, j: int)
    requires
        q.inv(),
        q.contains(i),
        q.contains(j),
        i < j,
        q.node(j).held(),
        q.node(j).access == Access::Write,
    ensures
        q.node(i).state == NodeState::Free,
{
    assert(q.node_inv(j));
    assert(q.node(j).access.passes(q.node(i).state));
}

/// First come, first served: when a reader has access, every request that came
/// before it is finished, or is a reader that nothing keeps out either.
pub proof fn reader_overtakes_nobody_who_waits(q: QueueView, i: int, j: int)
    requires
        q.inv(),
        q.contains(i),
        q.contains(j),
        i < j,
        q.node(j).held(),
        q.node(j).access == Access::Read,
    ensures
        q.node(i).state == NodeState::Free || (q.node(i).access == Access::Read && q.entitled(i)),
{
    assert(q.node_inv(i) && q.node_inv(j));
    assert(Access::Read.passes(q.node(i).state));
}

/// First come, first served in every state that threads can bring a new lock
/// into: when a request has access, every older one is finished, or both are for
/// reading and nothing keeps the older one out either.
pub proof fn first_come_first_served_in_every_history<T>(
    lock: RwLockView<T>,
    t: T,
    events: Seq<Event<T>>,
    i: int,
    j: int,
)
    requires
        lock.is_new(t),
        lock.legal(events),
        lock.run(events).queue.contains(i),
        lock.run(events).queue.contains(j),
        i < j,
        lock.run(events).queue.node(j).held(),
    ensures
        lock.run(events).queue.node(i).state == NodeState::Free || {
            &&& lock.run(events).queue.node(j).access == Access::Read
            &&& lock.run(events).queue.node(i).access == Access::Read
            &&& lock.run(events).queue.entitled(i)
        },
{
    let q = lock.run(events).queue;
    lemma_history_keeps_inv(lock, events);
    match q.node(j).access {
        Access::Read => reader_overtakes_nobody_who_waits(q, i, j),
        Access::Write => writer_comes_after_all_older(q, i, j),
    }
}

/// Requests are numbered in the order in which they are made, and no number is
/// given twice.
pub proof fn numbers_follow_the_order_of_requests<T>(v: RwLockView<T>, e: Event<T>)
    requires
        v.queue.inv(),
        v.enabled(e),
    ensures
        v.after(e).queue.end() == v.queue.end() + if e is Enqueue {
            1int
        } else {
            0
        },
        e is Enqueue ==> v.after(e).queue.node(v.queue.end()).owner == e->owner,
        e is Enqueue ==> v.after(e).queue.node(v.queue.end()).access == e->access,
{
}

/// Nobody else touches an unfinished request.
pub proof fn others_leave_a_request_alone<T>(v: RwLockView<T>, e: Event<T>, i: int)
    requires
        v.queue.inv(),
        v.enabled(e),
        v.queue.contains(i),
        v.queue.node(i).state != NodeState::Free,
        e.subject() != Some(i),
    ensures
        v.after(e).queue.contains(i),
        v.after(e).queue.node(i) == v.queue.node(i),
{
    if !v.after(e).queue.contains(i) {
        only_finished_requests_go_away(v, e, i);
    }
}

/// The same for whole calls: a request that is not finished is as it was after
/// others have asked, have been refused, have looked again, have handed their
/// access over, or are done.
pub proof fn calls_leave_a_request_alone(q: QueueView, i: int)
    requires
        q.inv(),
        q.contains(i),
        q.node(i).state != NodeState::Free,
    ensures
        forall|owner: ThreadId, access: Access|
            q.end() < u64::MAX ==> {
                &&& (#[trigger] q.request(owner, access)).contains(i)
                &&& q.request(owner, access).node(i) == q.node(i)
                &&& q.request(owner, access).unlock(q.end()).contains(i)
                &&& q.request(owner, access).unlock(q.end()).node(i) == q.node(i)
            },
        forall|j: int|
            q.contains(j) && j != i ==> (#[trigger] q.walk(j)).contains(i) && q.walk(j).node(i)
                == q.node(i),
        forall|j: int|
            q.contains(j) && j != i ==> (#[trigger] q.unlock(j)).contains(i) && q.unlock(j).node(i)
                == q.node(i),
        forall|j: int, to: ThreadId|
            q.contains(j) && j != i ==> (#[trigger] q.hand_over(j, to)).contains(i) && q.hand_over(
                j,
                to,
            ).node(i) == q.node(i),
        forall|j: int|
            q.can_clear(j) && j != i ==> (#[trigger] q.clear(j)).unlock(j).contains(i) && q.clear(
                j,
            ).unlock(j).node(i) == q.node(i),
{
    assert forall|j: int| q.can_clear(j) && j != i implies (#[trigger] q.clear(j)).unlock(
        j,
    ).contains(i) && q.clear(j).unlock(j).node(i) == q.node(i) by {
        assert(q.node_inv(j));
        if i < j {
            assert(Access::Write.passes(q.node(i).state));
        }
    }
}

/// Access lasts until the thread that has it gives it up.
pub proof fn access_is_not_taken_away<T>(v: RwLockView<T>, e: Event<T>, i: int)
    requires
        v.queue.inv(),
        v.enabled(e),
        v.queue.contains(i),
        v.queue.node(i).held(),
        e != (Event::<T>::Unlock { i }),
    ensures
        v.after(e).queue.contains(i),
        v.after(e).queue.node(i).held(),
        v.after(e).queue.node(i).access == v.queue.node(i).access,
{
    if e.subject() != Some(i) {
        others_leave_a_request_alone(v, e, i);
    }
}

/// A writer that is not finished, in or still waiting, keeps every later request
/// out.
pub proof fn unfinished_writer_keeps_later_requests_out(q: QueueView, i: int, j: int)
    requires
        q.inv(),
        q.contains(i),
        q.contains(j),
        i < j,
        q.node(i).access == Access::Write,
        q.node(i).state != NodeState::Free,
    ensures
        !q.entitled(j),
        !q.node(j).held(),
{
    assert(q.node_inv(i) && q.node_inv(j));
    assert(!q.node(j).access.passes(q.node(i).state));
}

/// Nobody who comes later, and nothing that anybody does, ever adds to what a
/// request has to wait for.
pub proof fn blockers_only_go_away<T>(v: RwLockView<T>, e: Event<T>, i: int)
    requires
        v.queue.inv(),
        v.enabled(e),
        v.queue.contains(i),
        v.after(e).queue.contains(i),
    ensures
        v.after(e).queue.blockers(i).subset_of(v.queue.blockers(i)),
{
    let r = v.after(e).queue;
    assert forall|j: int| r.blockers(i).contains(j) implies v.queue.blockers(i).contains(j) by {
        assert(v.queue.node_inv(j));
    }
}

/// A request is kept out by nothing exactly when it has nobody to wait for, and
/// whomever it waits for came before it.
pub proof fn entitled_without_blockers(q: QueueView, i: int)
    requires
        q.inv(),
        q.contains(i),
    ensures
        q.entitled(i) <==> q.blockers(i) == Set::<int>::empty(),
        forall|j: int| q.blockers(i).contains(j) ==> j < i,
{
    if q.entitled(i) {
        assert(q.blockers(i) =~= Set::<int>::empty());
    } else {
        let j = choose|j: int|
            q.base <= j < i && !q.node(i).access.passes((#[trigger] q.node(j)).state);
        assert(q.blockers(i).contains(j));
    }
}

/// A request that nothing keeps out stays so, whatever anybody does.
pub proof fn entitlement_lasts<T>(v: RwLockView<T>, e: Event<T>, i: int)
    requires
        v.queue.inv(),
        v.enabled(e),
        v.queue.contains(i),
        v.after(e).queue.contains(i),
        v.queue.entitled(i),
    ensures
        v.after(e).queue.entitled(i),
{
    lemma_step_keeps_inv(v, e);
    entitled_without_blockers(v.queue, i);
    entitled_without_blockers(v.after(e).queue, i);
    blockers_only_go_away(v, e, i);
    assert(v.after(e).queue.blockers(i) =~= Set::<int>::empty());
}

/// A request that nothing keeps out is granted when its thread looks again, and
/// one that something keeps out is not.
pub proof fn waiting_request_gets_in_when_entitled(q: QueueView, i: int)
    requires
        q.inv(),
        q.contains(i),
        q.node(i).state != NodeState::Free,
        q.node(i).progress is Waiting,
    ensures
        q.walk(i).node(i).progress is Granted <==> q.entitled(i),
{
    assert(q.node_inv(i));
    lemma_stop(q, q.node(i).access, q.node(i).progress->Waiting_current as int);
}

/// The lock is never stuck: the oldest request that is not finished is kept out
/// by nothing.
pub proof fn oldest_request_is_entitled(q: QueueView, i: int)
    requires
        q.inv(),
        q.contains(i),
        forall|j: int| q.base <= j < i ==> (#[trigger] q.node(j)).state == NodeState::Free,
    ensures
        q.entitled(i),
{
}

/// A finished request stays finished.
pub proof fn finished_for_good<T>(v: RwLockView<T>, e: Event<T>, i: int)
    requires
        v.queue.inv(),
        v.enabled(e),
        v.queue.contains(i),
        v.after(e).queue.contains(i),
        v.queue.node(i).state == NodeState::Free,
    ensures
        v.after(e).queue.node(i).state == NodeState::Free,
{
}

/// Nodes that go away are those of finished requests.
pub proof fn only_finished_requests_go_away<T>(v: RwLockView<T>, e: Event<T>, i: int)
    requires
        v.queue.inv(),
        v.enabled(e),
        v.queue.contains(i),
        !v.after(e).queue.contains(i),
    ensures
        v.queue.node(i).state == NodeState::Free,
{
    if let Event::Clear { i: k } = e {
        assert(v.queue.node_inv(k));
        assert(Access::Write.passes(v.queue.node(i).state));
    }
}

/// Exclusive access is to be had at once exactly when nobody holds the lock or
/// waits for it.
pub proof fn write_admitted_when_idle(q: QueueView)
    ensures
        q.admits(Access::Write) <==> q.idle(),
{
}

/// Shared access is to be had at once exactly when no request tells everybody to
/// wait. Once every reader in the queue has announced itself, that is when no
/// writer holds the lock or waits for it.
pub proof fn read_admitted_without_writers(q: QueueView)
    requires
        q.inv(),
        forall|i: int| q.contains(i) && (#[trigger] q.node(i)).access == Access::Read ==> q.node(i).state
            != NodeState::Wait,
    ensures
        q.admits(Access::Read) <==> forall|i: int|
            q.contains(i) && (#[trigger] q.node(i)).access == Access::Write ==> q.node(i).state
                == NodeState::Free,
{
    if q.admits(Access::Read) {
        assert forall|i: int|
            q.contains(i) && (#[trigger] q.node(i)).access == Access::Write implies q.node(i).state
            == NodeState::Free by {
            assert(q.node_inv(i));
        }
    }
}

/// While anybody has access, no new request for exclusive access is granted, and
/// while a writer has, no new request at all.
pub proof fn held_lock_turns_newcomers_away(q: QueueView, i: int)
    requires
        q.inv(),
        q.contains(i),
        q.node(i).held(),
    ensures
        !q.admits(Access::Write),
        q.node(i).access == Access::Write ==> !q.admits(Access::Read),
{
    assert(q.node_inv(i));
    assert(!Access::Write.passes(q.node(i).state));
}

/// A request that is given up at once leaves no trace for others: whoever waits
/// waits for the same requests as before, and newcomers fare as before.
pub proof fn refused_request_changes_nothing_for_others(
    q: QueueView,
    owner: ThreadId,
    access: Access,
)
    requires
        q.inv(),
        q.end() < u64::MAX,
    ensures
        ({
            let r = q.request(owner, access).unlock(q.end());
            &&& forall|i: int| q.contains(i) ==> r.node(i) == #[trigger] q.node(i)
            &&& forall|i: int| q.contains(i) ==> (r.entitled(i) <==> #[trigger] q.entitled(i))
            &&& forall|a: Access| r.admits(a) <==> #[trigger] q.admits(a)
            &&& forall|t: ThreadId| r.held_by(t, r.end()) <==> #[trigger] q.held_by(t, q.end())
        }),
{
    lemma_request(q, owner, access);
    let r = q.request(owner, access).unlock(q.end());
    assert(r.node(q.end()).state == NodeState::Free);
    assert(forall|i: int|
        #![trigger q.node(i)]
        #![trigger r.node(i)]
        q.contains(i) ==> r.node(i) == q.node(i));
}

/// The value does not change while somebody reads.
pub proof fn value_stands_still_for_readers<T>(v: RwLockView<T>, e: Event<T>, i: int)
    requires
        v.queue.inv(),
        v.enabled(e),
        v.holds(Access::Read, i),
    ensures
        v.after(e).data == v.data,
{
    if let Event::Assign { i: w, value } = e {
        mutual_exclusion(v.queue, i, w);
    }
}

/// While a writer has access, nobody else changes the value.
pub proof fn value_changes_only_for_the_writer<T>(v: RwLockView<T>, e: Event<T>, i: int)
    requires
        v.queue.inv(),
        v.enabled(e),
        v.holds(Access::Write, i),
        v.after(e).data != v.data,
    ensures
        e is Assign,
        e->Assign_i == i,
{
    if let Event::Assign { i: w, value } = e {
        if w != i {
            mutual_exclusion(v.queue, i, w);
        }
    }
}

/// Only a writer that has access can poison the lock.
pub proof fn only_writers_poison<T>(v: RwLockView<T>, e: Event<T>)
    requires
        v.queue.inv(),
        v.enabled(e),
        !v.poisoned,
        v.after(e).poisoned,
    ensures
        e is Poison,
        v.holds(Access::Write, e->Poison_i),
{
}

/// A poisoned lock stays poisoned.
pub proof fn poison_lasts<T>(v: RwLockView<T>, events: Seq<Event<T>>)
    requires
        v.legal(events),
        v.poisoned,
    ensures
        v.run(events).poisoned,
    decreases events.len(),
{
    if events.len() > 0 {
        poison_lasts(v, events.drop_last());
    }
}

/// What a writer wrote is what everybody finds until another writer writes.
pub proof fn written_value_is_found_later<T>(
    v: RwLockView<T>,
    i: int,
    value: T,
    events: Seq<Event<T>>,
)
    requires
        v.enabled(Event::Assign { i, value }),
        v.after(Event::Assign { i, value }).legal(events),
        forall|k: int| 0 <= k < events.len() ==> !((#[trigger] events[k]) is Assign),
    ensures
        v.after(Event::Assign { i, value }).run(events).data == value,
    decreases events.len(),
{
    if events.len() > 0 {
        let before = events.drop_last();
        assert forall|k: int| 0 <= k < before.len() implies !((#[trigger] before[k]) is Assign) by {
            assert(before[k] == events[k]);
        }
        written_value_is_found_later(v, i, value, before);
        assert(!(events[events.len() - 1] is Assign));
    }
}

/// A writer that found the lock idle and gives it up leaves it idle, with its own
/// node as the only one.
pub proof fn released_writer_leaves_the_lock_idle(q: QueueView, owner: ThreadId)
    requires
        q.inv(),
        q.end() < u64::MAX,
        q.idle(),
    ensures
        ({
            let r = q.request(owner, Access::Write);
            &&& r.node(q.end()).held()
            &&& r.clear(q.end()).unlock(q.end()).idle()
            &&& r.clear(q.end()).unlock(q.end()).nodes.len() == 1
        }),
{
    lemma_request(q, owner, Access::Write);
    write_admitted_when_idle(q);
}

/// A reader that found the lock idle lets readers in and keeps writers out, and
/// leaves the lock idle when it gives it up.
pub proof fn released_reader_leaves_the_lock_idle(q: QueueView, owner: ThreadId)
    requires
        q.inv(),
        q.end() < u64::MAX,
        q.idle(),
    ensures
        ({
            let r = q.request(owner, Access::Read);
            &&& r.node(q.end()).held()
            &&& r.admits(Access::Read)
            &&& !r.admits(Access::Write)
            &&& r.unlock(q.end()).idle()
        }),
{
    lemma_request(q, owner, Access::Read);
    let r = q.request(owner, Access::Read);
    let u = r.unlock(q.end());
    assert(forall|i: int|
        #![trigger r.node(i)]
        #![trigger u.node(i)]
        q.contains(i) ==> r.node(i) == q.node(i) && u.node(i) == q.node(i));
    assert(u.node(q.end()).state == NodeState::Free);
    assert(r.node(q.end()).state == NodeState::Read);
}

/// A thread that does not wait for itself never comes to, unless somebody hands
/// access over to it while it waits: what it would have to hold for that is older
/// than its request.
pub proof fn nobody_comes_to_wait_for_itself<T>(
    v: RwLockView<T>,
    e: Event<T>,
    owner: ThreadId,
    i: int,
)
    requires
        v.queue.inv(),
        v.enabled(e),
        v.queue.contains(i),
        v.after(e).queue.contains(i),
        !v.queue.held_by(owner, i),
        !(e is HandOver && e->to == owner),
    ensures
        !v.after(e).queue.held_by(owner, i),
{
    let r = v.after(e).queue;
    assert forall|j: int|
        r.base <= j < i && (#[trigger] r.node(j)).owner == owner implies r.node(j).state
        == NodeState::Free by {
        assert(v.queue.node(j).owner == owner);
        finished_for_good(v, e, j);
    }
}

} // verus!

//! Everything that threads can do with a lock, one step after the other, in any
//! order that the steps themselves allow.
use vstd::prelude::*;

use crate::lock::RwLockView;
use crate::model::{
    lemma_advance_keeps_inv, lemma_allow_read_keeps_inv, lemma_clear_keeps_inv,
    lemma_enqueue_keeps_inv, lemma_hand_over_keeps_inv, lemma_join, lemma_link_keeps_inv, lemma_pass_keeps_inv,
    lemma_start_keeps_inv, lemma_stop_same, lemma_unlock_keeps_inv,
};
use crate::model::{Access, NodeState, ThreadId};

verus! {

/// One indivisible step of some thread.
pub ghost enum Event<T> {
    /// A thread takes a place in the queue.
    Enqueue { owner: ThreadId, access: Access },
    /// The thread of request `i` links its node to the one before.
    Link { i: int },
    /// The thread of request `i` lets other readers pass its node.
    AllowRead { i: int },
    /// The thread of request `i` begins to walk.
    Start { i: int },
    /// The thread of request `i` sees that it need not wait for a node.
    Pass { i: int },
    /// The thread of request `i` looks for the next node.
    Advance { i: int },
    /// The access that request `i` got goes to another thread.
    HandOver { i: int, to: ThreadId },
    /// Writer `i` changes the value.
    Assign { i: int, value: T },
    /// Writer `i` panics.
    Poison { i: int },
    /// Writer `i`, on its way out, releases the older nodes.
    Clear { i: int },
    /// The thread of request `i` gives up its access or its request.
    Unlock { i: int },
}

impl<T> Event<T> {
    /// The request whose thread takes the step, unless it is only now made.
    pub open spec fn subject(self) -> Option<int> {
        match self {
            Event::Enqueue { owner, access } => None,
            Event::Link { i } => Some(i),
            Event::AllowRead { i } => Some(i),
            Event::Start { i } => Some(i),
            Event::Pass { i } => Some(i),
            Event::Advance { i } => Some(i),
            Event::HandOver { i, to } => Some(i),
            Event::Assign { i, value } => Some(i),
            Event::Poison { i } => Some(i),
            Event::Clear { i } => Some(i),
            Event::Unlock { i } => Some(i),
        }
    }
}

impl<T> RwLockView<T> {
    /// A lock around `t` that nobody has asked for.
    pub open spec fn is_new(self, t: T) -> bool {
        self.queue.is_new() && !self.poisoned && self.data == t
    }

    /// The step can be taken now.
    pub open spec fn enabled(self, e: Event<T>) -> bool {
        match e {
            Event::Enqueue { owner, access } => self.queue.end() < u64::MAX,
            Event::Link { i } => self.queue.can_link(i),
            Event::AllowRead { i } => self.queue.can_allow_read(i),
            Event::Start { i } => self.queue.can_start(i),
            Event::Pass { i } => self.queue.can_pass(i),
            Event::Advance { i } => self.queue.can_advance(i),
            Event::HandOver { i, to } => self.queue.can_hand_over(i),
            Event::Assign { i, value } => self.holds(Access::Write, i),
            Event::Poison { i } => self.holds(Access::Write, i),
            Event::Clear { i } => self.queue.can_clear(i),
            Event::Unlock { i } => self.queue.can_unlock(i),
        }
    }

    /// The lock after the step.
    pub open spec fn after(self, e: Event<T>) -> RwLockView<T> {
        match e {
            Event::Enqueue { owner, access } => RwLockView {
                queue: self.queue.enqueue(owner, access),
                ..self
            },
            Event::Link { i } => RwLockView { queue: self.queue.link(i), ..self },
            Event::AllowRead { i } => RwLockView { queue: self.queue.allow_read(i), ..self },
            Event::Start { i } => RwLockView { queue: self.queue.start(i), ..self },
            Event::Pass { i } => RwLockView { queue: self.queue.pass(i), ..self },
            Event::Advance { i } => RwLockView { queue: self.queue.advance(i), ..self },
            Event::HandOver { i, to } => RwLockView { queue: self.queue.hand_over(i, to), ..self },
            Event::Assign { i, value } => RwLockView { data: value, ..self },
            Event::Poison { i } => RwLockView { poisoned: true, ..self },
            Event::Clear { i } => RwLockView { queue: self.queue.clear(i), ..self },
            Event::Unlock { i } => RwLockView { queue: self.queue.unlock(i), ..self },
        }
    }

    /// Each of the steps can be taken when its turn comes.
    pub open spec fn legal(self, events: Seq<Event<T>>) -> bool
        decreases events.len(),
    {
        events.len() == 0 || {
            &&& self.legal(events.drop_last())
            &&& self.run(events.drop_last()).enabled(events.last())
        }
    }

    /// The lock after all the steps.
    pub open spec fn run(self, events: Seq<Event<T>>) -> RwLockView<T>
        decreases events.len(),
    {
        if events.len() == 0 {
            self
        } else {
            self.run(events.drop_last()).after(events.last())
        }
    }
}

/// Every step keeps the invariant.
pub proof fn lemma_step_keeps_inv<T>(v: RwLockView<T>, e: Event<T>)
    requires
        v.queue.inv(),
        v.enabled(e),
    ensures
        v.after(e).queue.inv(),
{
    match e {
        Event::Enqueue { owner, access } => lemma_enqueue_keeps_inv(v.queue, owner, access),
        Event::Link { i } => lemma_link_keeps_inv(v.queue, i),
        Event::AllowRead { i } => lemma_allow_read_keeps_inv(v.queue, i),
        Event::Start { i } => lemma_start_keeps_inv(v.queue, i),
        Event::Pass { i } => lemma_pass_keeps_inv(v.queue, i),
        Event::Advance { i } => lemma_advance_keeps_inv(v.queue, i),
        Event::HandOver { i, to } => lemma_hand_over_keeps_inv(v.queue, i, to),
        Event::Assign { i, value } => {},
        Event::Poison { i } => {},
        Event::Clear { i } => lemma_clear_keeps_inv(v.queue, i),
        Event::Unlock { i } => lemma_unlock_keeps_inv(v.queue, i),
    }
}

/// Every history keeps the invariant.
pub proof fn lemma_history_keeps_inv<T>(v: RwLockView<T>, events: Seq<Event<T>>)
    requires
        v.queue.inv(),
        v.legal(events),
    ensures
        v.run(events).queue.inv(),
    decreases events.len(),
{
    if events.len() > 0 {
        lemma_history_keeps_inv(v, events.drop_last());
        lemma_step_keeps_inv(v.run(events.drop_last()), events.last());
    }
}

/// A history and another that begins where the first ends make one history.
pub proof fn lemma_histories_join<T>(v: RwLockView<T>, a: Seq<Event<T>>, b: Seq<Event<T>>)
    requires
        v.legal(a),
        v.run(a).legal(b),
    ensures
        v.legal(a + b),
        v.run(a + b) == v.run(a).run(b),
    decreases b.len(),
{
    if b.len() == 0 {
        assert(a + b =~= a);
    } else {
        lemma_histories_join(v, a, b.drop_last());
        assert((a + b).drop_last() =~= a + b.drop_last());
        assert((a + b).last() == b.last());
    }
}

/// One step more at the end.
proof fn lemma_one_more<T>(v: RwLockView<T>, events: Seq<Event<T>>, e: Event<T>)
    requires
        v.legal(events),
        v.run(events).enabled(e),
    ensures
        v.legal(events.push(e)),
        v.run(events.push(e)) == v.run(events).after(e),
{
    assert(events.push(e).drop_last() =~= events);
}

/// Walking as far as one can is a history.
pub proof fn walk_is_a_history<T>(v: RwLockView<T>, i: int) -> (events: Seq<Event<T>>)
    requires
        v.queue.inv(),
        v.queue.contains(i),
        v.queue.node(i).state != NodeState::Free,
        v.queue.node(i).progress is Waiting,
    ensures
        v.legal(events),
        v.run(events) == (RwLockView { queue: v.queue.walk(i), ..v }),
    decreases v.queue.node(i).progress->Waiting_current,
{
    let q = v.queue;
    let access = q.node(i).access;
    let current = q.node(i).progress->Waiting_current as int;
    assert(q.node_inv(i));
    let none = Seq::<Event<T>>::empty();
    if !q.can_pass(i) {
        assert(q.walk(i).nodes =~= q.nodes);
        none
    } else {
        let one = none.push(Event::Pass { i });
        let two = one.push(Event::Advance { i });
        lemma_one_more(v, none, Event::Pass { i });
        lemma_pass_keeps_inv(q, i);
        lemma_one_more(v, one, Event::Advance { i });
        lemma_advance_keeps_inv(q.pass(i), i);
        let w = v.run(two);
        assert(q.stop(access, current) == q.stop(access, current - 1));
        if current == q.base {
            assert(w.queue.nodes =~= q.walk(i).nodes);
            two
        } else {
            let more = walk_is_a_history(w, i);
            lemma_histories_join(v, two, more);
            assert forall|j: int| q.base <= j <= current - 1 implies (#[trigger] q.node(j)).state
                == w.queue.node(j).state by {}
            lemma_stop_same(q, w.queue, access, current - 1);
            assert(w.queue.walk(i).nodes =~= q.walk(i).nodes);
            two + more
        }
    }
}

/// Making a request, by `write`, `read`, `try_write` or `try_read`, is a history.
pub proof fn request_is_a_history<T>(v: RwLockView<T>, owner: ThreadId, access: Access) -> (events:
    Seq<Event<T>>)
    requires
        v.queue.inv(),
        v.queue.end() < u64::MAX,
    ensures
        v.legal(events),
        v.run(events) == (RwLockView { queue: v.queue.request(owner, access), ..v }),
{
    let q = v.queue;
    let i = q.end();
    let none = Seq::<Event<T>>::empty();
    let a = none.push(Event::Enqueue { owner, access });
    lemma_one_more(v, none, Event::Enqueue { owner, access });
    lemma_enqueue_keeps_inv(q, owner, access);
    let b = a.push(Event::Link { i });
    lemma_one_more(v, a, Event::Link { i });
    lemma_link_keeps_inv(q.enqueue(owner, access), i);
    let c = match access {
        Access::Read => {
            lemma_one_more(v, b, Event::AllowRead { i });
            lemma_allow_read_keeps_inv(q.new_node(owner, access), i);
            b.push(Event::AllowRead { i })
        },
        Access::Write => b,
    };
    let d = c.push(Event::Start { i });
    lemma_one_more(v, c, Event::Start { i });
    lemma_join(q, owner, access);
    lemma_start_keeps_inv(v.run(c).queue, i);
    let rest = walk_is_a_history(v.run(d), i);
    lemma_histories_join(v, d, rest);
    d + rest
}

/// Making a request and giving it up at once is a history.
pub proof fn refused_request_is_a_history<T>(
    v: RwLockView<T>,
    owner: ThreadId,
    access: Access,
) -> (events: Seq<Event<T>>)
    requires
        v.queue.inv(),
        v.queue.end() < u64::MAX,
    ensures
        v.legal(events),
        v.run(events) == (RwLockView {
            queue: v.queue.request(owner, access).unlock(v.queue.end()),
            ..v
        }),
{
    let asked = request_is_a_history(v, owner, access);
    let i = v.queue.end();
    lemma_one_more(v, asked, Event::Unlock { i });
    asked.push(Event::Unlock { i })
}

/// A writer giving its access up, panicking or not, is a history.
pub proof fn write_release_is_a_history<T>(v: RwLockView<T>, i: int, panic: bool) -> (events: Seq<
    Event<T>,
>)
    requires
        v.queue.inv(),
        v.holds(Access::Write, i),
    ensures
        v.legal(events),
        v.run(events) == (RwLockView {
            queue: v.queue.clear(i).unlock(i),
            poisoned: v.poisoned || panic,
            data: v.data,
        }),
{
    let none = Seq::<Event<T>>::empty();
    let a = if panic {
        lemma_one_more(v, none, Event::Poison { i });
        none.push(Event::Poison { i })
    } else {
        none
    };
    lemma_one_more(v, a, Event::Clear { i });
    lemma_one_more(v, a.push(Event::Clear { i }), Event::Unlock { i });
    a.push(Event::Clear { i }).push(Event::Unlock { i })
}

} // verus!

//! What each step and each call does to the queue, said of the nodes themselves:
//! which node changes, in what, and that nothing else does.
use vstd::prelude::*;

use crate::lock::{guard_of, try_guard_of, RwLockView};
use crate::error::{PoisonError, TryLockError};
use crate::history::Event;
use crate::model::lemma_stop;
use crate::model::{Access, NodeState, NodeView, Progress, QueueView, ThreadId};
use crate::queue::RequestView;

verus! {

/// Nodes are kept oldest first, under consecutive numbers.
pub proof fn nodes_have_consecutive_numbers(q: QueueView, i: int)
    ensures
        q.end() == q.base + q.nodes.len(),
        q.contains(i) <==> (q.base <= i && i < q.base + q.nodes.len()),
        q.contains(i) ==> q.node(i) == q.nodes[i - q.base],
{
}

/// Replacing a node replaces that node.
pub proof fn replacing_a_node_leaves_the_rest(q: QueueView, i: int, node: NodeView)
    requires
        q.base <= i < q.base + q.nodes.len(),
    ensures
        q.with(i, node).id == q.id,
        q.with(i, node).base == q.base,
        q.with(i, node).nodes.len() == q.nodes.len(),
        q.with(i, node).nodes[i - q.base] == node,
        forall|k: int|
            0 <= k < q.nodes.len() && k != i - q.base ==> #[trigger] q.with(i, node).nodes[k]
                == q.nodes[k],
{
}

/// Readers wait for those who say so and for nobody else. Writers wait for
/// everybody who is not finished.
pub proof fn who_waits_for_whom(state: NodeState)
    ensures
        Access::Read.passes(state) <==> state == NodeState::Read || state == NodeState::Free,
        Access::Write.passes(state) <==> state == NodeState::Free,
{
}

/// Access is held from when it is granted until it is given up.
pub proof fn held_from_grant_to_release(n: NodeView)
    ensures
        n.held() <==> (n.progress == Progress::Granted && n.state != NodeState::Free),
        n.walking() <==> (n.progress is Waiting || n.progress is Passed),
{
}

/// Who holds a lock is a matter of the one node.
pub proof fn holding_is_a_matter_of_the_node<T>(v: RwLockView<T>, access: Access, i: int)
    ensures
        v.holds(access, i) <==> {
            &&& v.queue.base <= i < v.queue.base + v.queue.nodes.len()
            &&& v.queue.nodes[i - v.queue.base].access == access
            &&& v.queue.nodes[i - v.queue.base].progress == Progress::Granted
            &&& v.queue.nodes[i - v.queue.base].state != NodeState::Free
        },
        v.id() == v.queue.id,
{
}

/// A request follows its node in its queue, and only while the node is not free.
pub proof fn a_request_follows_its_node(q: QueueView, r: RequestView)
    ensures
        q.tracks(r) <==> {
            &&& r.queue == q.id
            &&& q.base <= r.node < q.base + q.nodes.len()
            &&& q.nodes[r.node - q.base].access == r.access
            &&& q.nodes[r.node - q.base].progress == r.progress
            &&& q.nodes[r.node - q.base].state != NodeState::Free
        },
{
}

/// A new lock has one node, which nobody has to wait for: everybody is let in.
pub proof fn a_new_lock_lets_everybody_in(q: QueueView)
    requires
        q.is_new(),
    ensures
        q.base == 0,
        q.nodes.len() == 1,
        q.nodes[0].state == NodeState::Free,
        q.nodes[0].pred is None,
        !q.nodes[0].cleared,
        q.admits(Access::Read),
        q.admits(Access::Write),
        q.idle(),
{
}

/// A thread is taken to hold the lock exactly if an older node is its own and not
/// free. What other threads have in the queue does not matter, nor how many
/// requests there were before.
pub proof fn a_thread_holds_the_lock_by_its_own_nodes_only(q: QueueView, t: ThreadId, i: int)
    requires
        i <= q.base + q.nodes.len(),
    ensures
        q.held_by(t, i) <==> exists|k: int|
            0 <= k < i - q.base && (#[trigger] q.nodes[k]).owner == t && q.nodes[k].state
                != NodeState::Free,
{
    if q.held_by(t, i) {
        let j = choose|j: int|
            q.base <= j < i && (#[trigger] q.node(j)).owner == t && q.node(j).state
                != NodeState::Free;
        assert(q.nodes[j - q.base].owner == t);
    }
    if exists|k: int|
        0 <= k < i - q.base && (#[trigger] q.nodes[k]).owner == t && q.nodes[k].state
            != NodeState::Free {
        let k = choose|k: int|
            0 <= k < i - q.base && (#[trigger] q.nodes[k]).owner == t && q.nodes[k].state
                != NodeState::Free;
        assert(q.node(q.base + k).owner == t);
    }
}

/// Nobody is made to wait for itself: a thread that owns an unfinished node with
/// any number is noticed by every younger request.
pub proof fn own_unfinished_node_is_noticed(q: QueueView, t: ThreadId, j: int, i: int)
    requires
        q.base <= j < i,
        i <= q.base + q.nodes.len(),
        q.nodes[j - q.base].owner == t,
        q.nodes[j - q.base].state != NodeState::Free,
    ensures
        q.held_by(t, i),
{
    assert(q.node(j).owner == t);
}

/// A thread all of whose older nodes are free is not refused, whoever else is in
/// the queue.
pub proof fn stranger_is_not_refused(q: QueueView, t: ThreadId, i: int)
    requires
        i <= q.base + q.nodes.len(),
        forall|k: int|
            0 <= k < i - q.base && (#[trigger] q.nodes[k]).owner == t ==> q.nodes[k].state
                == NodeState::Free,
    ensures
        !q.held_by(t, i),
{
    a_thread_holds_the_lock_by_its_own_nodes_only(q, t, i);
}

/// A newcomer is let in exactly if it need not wait for any node there is.
pub proof fn newcomers_wait_for_nodes_only(q: QueueView)
    ensures
        q.admits(Access::Write) <==> forall|k: int|
            0 <= k < q.nodes.len() ==> (#[trigger] q.nodes[k]).state == NodeState::Free,
        q.admits(Access::Read) <==> forall|k: int|
            0 <= k < q.nodes.len() ==> (#[trigger] q.nodes[k]).state != NodeState::Wait,
        q.idle() <==> forall|k: int|
            0 <= k < q.nodes.len() ==> (#[trigger] q.nodes[k]).state == NodeState::Free,
{
    assert forall|k: int| 0 <= k < q.nodes.len() implies #[trigger] q.nodes[k] == q.node(
        q.base + k,
    ) by {}
    if q.admits(Access::Write) {
        assert forall|k: int| 0 <= k < q.nodes.len() implies (#[trigger] q.nodes[k]).state
            == NodeState::Free by {
            assert(Access::Write.passes(q.node(q.base + k).state));
        }
    }
    if q.admits(Access::Read) {
        assert forall|k: int| 0 <= k < q.nodes.len() implies (#[trigger] q.nodes[k]).state
            != NodeState::Wait by {
            assert(Access::Read.passes(q.node(q.base + k).state));
        }
    }
    if q.idle() {
        assert forall|k: int| 0 <= k < q.nodes.len() implies (#[trigger] q.nodes[k]).state
            == NodeState::Free by {
            assert(q.contains(q.base + k));
            assert(q.node(q.base + k).state == NodeState::Free);
        }
    }
}

/// A request is let in exactly if it need not wait for any older node.
pub proof fn requests_wait_for_older_nodes_only(q: QueueView, i: int)
    requires
        q.base <= i < q.base + q.nodes.len(),
    ensures
        q.nodes[i - q.base].access == Access::Write ==> (q.entitled(i) <==> forall|k: int|
            0 <= k < i - q.base ==> (#[trigger] q.nodes[k]).state == NodeState::Free),
        q.nodes[i - q.base].access == Access::Read ==> (q.entitled(i) <==> forall|k: int|
            0 <= k < i - q.base ==> (#[trigger] q.nodes[k]).state != NodeState::Wait),
        forall|j: int| #[trigger]
            q.blockers(i).contains(j) <==> {
                &&& q.base <= j < i
                &&& q.nodes[j - q.base].state != NodeState::Free
                &&& q.nodes[i - q.base].access == Access::Write || q.nodes[j - q.base].state
                    == NodeState::Wait
            },
{
    let access = q.node(i).access;
    if q.entitled(i) {
        assert forall|k: int| 0 <= k < i - q.base implies access.passes(
            (#[trigger] q.nodes[k]).state,
        ) by {
            assert(access.passes(q.node(q.base + k).state));
        }
    }
}

/// What a stretch of nodes means to a request.
pub proof fn a_stretch_is_passable_node_by_node(q: QueueView, access: Access, lo: int, hi: int)
    requires
        q.base <= lo,
        hi <= q.base + q.nodes.len(),
    ensures
        q.passable(access, lo, hi) <==> forall|k: int|
            lo - q.base <= k < hi - q.base ==> {
                &&& (#[trigger] q.nodes[k]).state != NodeState::Wait
                &&& access == Access::Write ==> q.nodes[k].state == NodeState::Free
            },
{
    if q.passable(access, lo, hi) {
        assert forall|k: int| lo - q.base <= k < hi - q.base implies {
            &&& (#[trigger] q.nodes[k]).state != NodeState::Wait
            &&& access == Access::Write ==> q.nodes[k].state == NodeState::Free
        } by {
            assert(access.passes(q.node(q.base + k).state));
        }
    }
}

/// Taking a place: one more node, behind the youngest, that everybody behind it
/// has to wait for and that does not point anywhere yet.
pub proof fn enqueue_adds_one_waiting_node(q: QueueView, owner: ThreadId, access: Access)
    requires
        0 < q.base + q.nodes.len() <= u64::MAX,
    ensures
        ({
            let r = q.enqueue(owner, access);
            let n = r.nodes[q.nodes.len() as int];
            &&& r.id == q.id
            &&& r.base == q.base
            &&& r.nodes.len() == q.nodes.len() + 1
            &&& forall|k: int| 0 <= k < q.nodes.len() ==> #[trigger] r.nodes[k] == q.nodes[k]
            &&& n.owner == owner
            &&& n.access == access
            &&& n.state == NodeState::Wait
            &&& n.pred is None
            &&& !n.cleared
            &&& n.progress is Enqueued
            &&& n.progress->pred == q.base + q.nodes.len() - 1
        }),
{
}

/// Linking: the node points to the one before it, and is otherwise as before.
pub proof fn link_sets_the_pointer(q: QueueView, i: int)
    requires
        q.base <= i < q.base + q.nodes.len(),
        q.nodes[i - q.base].progress is Enqueued,
    ensures
        ({
            let r = q.link(i);
            let (a, b) = (q.nodes[i - q.base], r.nodes[i - q.base]);
            &&& r.id == q.id && r.base == q.base && r.nodes.len() == q.nodes.len()
            &&& forall|k: int|
                0 <= k < q.nodes.len() && k != i - q.base ==> #[trigger] r.nodes[k] == q.nodes[k]
            &&& b.pred is Some && b.pred->0 == a.progress->pred
            &&& b.progress is Linked
            &&& b.owner == a.owner && b.access == a.access && b.state == a.state && b.cleared
                == a.cleared
        }),
{
}

/// Announcing a reader: its node lets readers pass, and is otherwise as before.
pub proof fn allow_read_lets_readers_pass(q: QueueView, i: int)
    requires
        q.base <= i < q.base + q.nodes.len(),
    ensures
        ({
            let r = q.allow_read(i);
            let (a, b) = (q.nodes[i - q.base], r.nodes[i - q.base]);
            &&& r.id == q.id && r.base == q.base && r.nodes.len() == q.nodes.len()
            &&& forall|k: int|
                0 <= k < q.nodes.len() && k != i - q.base ==> #[trigger] r.nodes[k] == q.nodes[k]
            &&& b.state == NodeState::Read
            &&& b.owner == a.owner && b.access == a.access && b.pred == a.pred && b.cleared
                == a.cleared && b.progress == a.progress
        }),
{
}

/// Starting to walk: at the node that the own node points to.
pub proof fn start_goes_to_the_node_before(q: QueueView, i: int)
    requires
        q.base <= i < q.base + q.nodes.len(),
        q.nodes[i - q.base].pred is Some,
    ensures
        ({
            let r = q.start(i);
            let (a, b) = (q.nodes[i - q.base], r.nodes[i - q.base]);
            &&& r.id == q.id && r.base == q.base && r.nodes.len() == q.nodes.len()
            &&& forall|k: int|
                0 <= k < q.nodes.len() && k != i - q.base ==> #[trigger] r.nodes[k] == q.nodes[k]
            &&& b.progress is Waiting
            &&& b.progress->Waiting_current == a.pred->0
            &&& b.owner == a.owner && b.access == a.access && b.pred == a.pred && b.cleared
                == a.cleared && b.state == a.state
        }),
{
}

/// Passing a node: possible exactly if that node need not be waited for, and it
/// changes nothing but the thread's place.
pub proof fn pass_goes_by_the_state_of_the_node(q: QueueView, i: int)
    requires
        q.base <= i < q.base + q.nodes.len(),
        q.nodes[i - q.base].state != NodeState::Free,
        q.nodes[i - q.base].progress is Waiting,
        q.base <= q.nodes[i - q.base].progress->Waiting_current < q.base + q.nodes.len(),
    ensures
        ({
            let a = q.nodes[i - q.base];
            let c = q.nodes[a.progress->Waiting_current - q.base];
            let r = q.pass(i);
            let b = r.nodes[i - q.base];
            &&& q.can_pass(i) <==> {
                &&& c.state != NodeState::Wait
                &&& a.access == Access::Write ==> c.state == NodeState::Free
            }
            &&& r.id == q.id && r.base == q.base && r.nodes.len() == q.nodes.len()
            &&& forall|k: int|
                0 <= k < q.nodes.len() && k != i - q.base ==> #[trigger] r.nodes[k] == q.nodes[k]
            &&& b.progress is Passed
            &&& b.progress->Passed_current == a.progress->Waiting_current
            &&& b.owner == a.owner && b.access == a.access && b.pred == a.pred && b.cleared
                == a.cleared && b.state == a.state
        }),
{
}

/// Advancing: to the node that the passed one points to, and to access if it
/// points nowhere.
pub proof fn advance_follows_the_pointer(q: QueueView, i: int)
    requires
        q.base <= i < q.base + q.nodes.len(),
        q.nodes[i - q.base].progress is Passed,
        q.base <= q.nodes[i - q.base].progress->Passed_current < q.base + q.nodes.len(),
    ensures
        ({
            let a = q.nodes[i - q.base];
            let c = q.nodes[a.progress->Passed_current - q.base];
            let r = q.advance(i);
            let b = r.nodes[i - q.base];
            &&& r.id == q.id && r.base == q.base && r.nodes.len() == q.nodes.len()
            &&& forall|k: int|
                0 <= k < q.nodes.len() && k != i - q.base ==> #[trigger] r.nodes[k] == q.nodes[k]
            &&& c.pred is None ==> b.progress is Granted
            &&& c.pred is Some ==> b.progress is Waiting && b.progress->Waiting_current
                == c.pred->0
            &&& b.owner == a.owner && b.access == a.access && b.pred == a.pred && b.cleared
                == a.cleared && b.state == a.state
        }),
{
}

/// Handing access over changes who owns the node, and nothing else.
pub proof fn hand_over_changes_the_owner(q: QueueView, i: int, to: ThreadId)
    requires
        q.base <= i < q.base + q.nodes.len(),
    ensures
        ({
            let r = q.hand_over(i, to);
            let (a, b) = (q.nodes[i - q.base], r.nodes[i - q.base]);
            &&& r.id == q.id && r.base == q.base && r.nodes.len() == q.nodes.len()
            &&& forall|k: int|
                0 <= k < q.nodes.len() && k != i - q.base ==> #[trigger] r.nodes[k] == q.nodes[k]
            &&& b.owner == to
            &&& b.access == a.access && b.state == a.state && b.pred == a.pred && b.cleared
                == a.cleared && b.progress == a.progress
        }),
{
}

/// Giving access or a request up finishes it: whoever else is in the queue, the
/// node is free afterwards, and no other node changes.
pub proof fn release_frees_the_node_and_nothing_else(q: QueueView, i: int)
    requires
        q.base <= i < q.base + q.nodes.len(),
    ensures
        ({
            let r = q.unlock(i);
            let (a, b) = (q.nodes[i - q.base], r.nodes[i - q.base]);
            &&& r.id == q.id && r.base == q.base && r.nodes.len() == q.nodes.len()
            &&& forall|k: int|
                0 <= k < q.nodes.len() && k != i - q.base ==> #[trigger] r.nodes[k] == q.nodes[k]
            &&& b.state == NodeState::Free
            &&& b.owner == a.owner && b.access == a.access && b.pred == a.pred && b.cleared
                == a.cleared && b.progress == a.progress
        }),
{
}

/// A writer on its way out takes its pointer away and lets the older nodes go.
/// The younger ones stay as they are.
pub proof fn clear_lets_older_nodes_go(q: QueueView, i: int)
    requires
        q.base <= i < q.base + q.nodes.len(),
    ensures
        ({
            let r = q.clear(i);
            let (a, b) = (q.nodes[i - q.base], r.nodes[0]);
            &&& r.id == q.id
            &&& r.base == i
            &&& r.base + r.nodes.len() == q.base + q.nodes.len()
            &&& forall|k: int|
                0 < k < r.nodes.len() ==> #[trigger] r.nodes[k] == q.nodes[k + i - q.base]
            &&& b.pred is None
            &&& b.cleared
            &&& b.owner == a.owner && b.access == a.access && b.state == a.state && b.progress
                == a.progress
        }),
{
}

/// When steps can be taken.
pub proof fn when_steps_can_be_taken(q: QueueView, i: int)
    requires
        q.base <= i < q.base + q.nodes.len(),
    ensures
        ({
            let n = q.nodes[i - q.base];
            &&& q.can_link(i) <==> n.progress is Enqueued && i > q.base
            &&& q.can_allow_read(i) <==> n.progress is Linked && n.access == Access::Read && n.state
                == NodeState::Wait
            &&& q.can_start(i) <==> n.progress is Linked && ((n.access == Access::Read && n.state
                == NodeState::Read) || (n.access == Access::Write && n.state != NodeState::Free))
            &&& q.can_advance(i) <==> n.progress is Passed && n.state != NodeState::Free
            &&& q.can_hand_over(i) <==> n.progress is Granted && n.state != NodeState::Free
            &&& q.can_clear(i) <==> n.progress is Granted && n.state != NodeState::Free && n.access
                == Access::Write
            &&& q.can_unlock(i) <==> n.state != NodeState::Free && (n.progress is Granted
                || n.progress is Waiting)
        }),
{
}

/// Only nodes that are there can take steps.
pub proof fn only_nodes_take_steps(q: QueueView, i: int)
    requires
        i < q.base || i >= q.base + q.nodes.len(),
    ensures
        !q.can_link(i) && !q.can_allow_read(i) && !q.can_start(i) && !q.can_pass(i),
        !q.can_advance(i) && !q.can_hand_over(i) && !q.can_clear(i) && !q.can_unlock(i),
{
}

/// A walk ends at the youngest node on the way that has to be waited for, or with
/// access if there is none. Nothing else changes.
pub proof fn walk_ends_at_the_first_obstacle(q: QueueView, i: int)
    requires
        0 <= q.base <= i < q.base + q.nodes.len(),
        q.nodes[i - q.base].progress is Waiting,
        q.base <= q.nodes[i - q.base].progress->Waiting_current < i,
    ensures
        ({
            let r = q.walk(i);
            let (a, b) = (q.nodes[i - q.base], r.nodes[i - q.base]);
            let from = a.progress->Waiting_current - q.base;
            &&& r.id == q.id && r.base == q.base && r.nodes.len() == q.nodes.len()
            &&& forall|k: int|
                0 <= k < q.nodes.len() && k != i - q.base ==> #[trigger] r.nodes[k] == q.nodes[k]
            &&& b.owner == a.owner && b.access == a.access && b.pred == a.pred && b.cleared
                == a.cleared && b.state == a.state
            &&& b.progress is Granted || b.progress is Waiting
            &&& b.progress is Granted ==> forall|k: int|
                0 <= k <= from ==> {
                    &&& (#[trigger] q.nodes[k]).state != NodeState::Wait
                    &&& a.access == Access::Write ==> q.nodes[k].state == NodeState::Free
                }
            &&& b.progress is Waiting ==> {
                let stop = b.progress->Waiting_current - q.base;
                &&& 0 <= stop <= from
                &&& q.nodes[stop].state != NodeState::Free
                &&& a.access == Access::Read ==> q.nodes[stop].state == NodeState::Wait
                &&& forall|k: int|
                    stop < k <= from ==> {
                        &&& (#[trigger] q.nodes[k]).state != NodeState::Wait
                        &&& a.access == Access::Write ==> q.nodes[k].state == NodeState::Free
                    }
            }
        }),
{
    let a = q.nodes[i - q.base];
    let current = a.progress->Waiting_current as int;
    lemma_stop(q, a.access, current);
    let stop = q.stop(a.access, current);
    a_stretch_is_passable_node_by_node(q, a.access, stop + 1, current + 1);
}

/// Where a walk ends depends on nothing but the states of the nodes on the way.
pub proof fn stop_is_the_youngest_obstacle(q: QueueView, access: Access, from: int)
    requires
        q.base - 1 <= from < q.base + q.nodes.len(),
    ensures
        ({
            let s = q.stop(access, from) - q.base;
            &&& -1 <= s <= from - q.base
            &&& s >= 0 ==> q.nodes[s].state != NodeState::Free && (access == Access::Read
                ==> q.nodes[s].state == NodeState::Wait)
            &&& forall|k: int|
                s < k <= from - q.base ==> {
                    &&& (#[trigger] q.nodes[k]).state != NodeState::Wait
                    &&& access == Access::Write ==> q.nodes[k].state == NodeState::Free
                }
            &&& s < 0 ==> q.reach(access, from) == Progress::Granted
            &&& 0 <= s && 0 <= q.base && from <= u64::MAX ==> q.reach(access, from) is Waiting
                && q.reach(access, from)->Waiting_current == s + q.base
        }),
{
    lemma_stop(q, access, from);
    a_stretch_is_passable_node_by_node(q, access, q.stop(access, from) + 1, from + 1);
}

/// Joining: one more node at the end that points to the one before. A writer's
/// node tells everybody to wait, a reader's lets readers pass.
pub proof fn join_adds_one_node(q: QueueView, owner: ThreadId, access: Access)
    requires
        q.nodes.len() > 0,
        0 <= q.base,
        q.base + q.nodes.len() <= u64::MAX,
    ensures
        ({
            let r = q.join(owner, access);
            let n = r.nodes[q.nodes.len() as int];
            &&& r.id == q.id && r.base == q.base && r.nodes.len() == q.nodes.len() + 1
            &&& forall|k: int| 0 <= k < q.nodes.len() ==> #[trigger] r.nodes[k] == q.nodes[k]
            &&& n.owner == owner && n.access == access && !n.cleared
            &&& access == Access::Write ==> n.state == NodeState::Wait
            &&& access == Access::Read ==> n.state == NodeState::Read
            &&& n.pred is Some && n.pred->0 == q.base + q.nodes.len() - 1
            &&& n.progress is Waiting && n.progress->Waiting_current == q.base + q.nodes.len() - 1
        }),
        ({
            let r = q.new_node(owner, access);
            let n = r.nodes[q.nodes.len() as int];
            &&& r.id == q.id && r.base == q.base && r.nodes.len() == q.nodes.len() + 1
            &&& forall|k: int| 0 <= k < q.nodes.len() ==> #[trigger] r.nodes[k] == q.nodes[k]
            &&& n.owner == owner && n.access == access && !n.cleared
            &&& n.state == NodeState::Wait
            &&& n.pred is Some && n.pred->0 == q.base + q.nodes.len() - 1
            &&& n.progress is Linked
        }),
{
}

/// Announcing: the node says what its access needs, and the walk is about to start
/// at the node before.
pub proof fn announce_says_what_is_wanted(q: QueueView, i: int)
    requires
        q.base <= i < q.base + q.nodes.len(),
        q.nodes[i - q.base].pred is Some,
    ensures
        ({
            let r = q.announce(i);
            let (a, b) = (q.nodes[i - q.base], r.nodes[i - q.base]);
            &&& r.id == q.id && r.base == q.base && r.nodes.len() == q.nodes.len()
            &&& forall|k: int|
                0 <= k < q.nodes.len() && k != i - q.base ==> #[trigger] r.nodes[k] == q.nodes[k]
            &&& a.access == Access::Read ==> b.state == NodeState::Read
            &&& a.access == Access::Write ==> b.state == a.state
            &&& b.progress is Waiting && b.progress->Waiting_current == a.pred->0
            &&& b.owner == a.owner && b.access == a.access && b.pred == a.pred && b.cleared
                == a.cleared
        }),
{
}

/// What asking does: one more node at the end, for the thread and the access asked
/// for. It is granted exactly if no node that was there has to be waited for. If
/// not, it waits for the youngest of those that have to be. The nodes that were
/// there stay as they are.
pub proof fn asking_is_answered_by_the_older_nodes(q: QueueView, owner: ThreadId, access: Access)
    requires
        q.nodes.len() > 0,
        0 <= q.base,
        q.base + q.nodes.len() <= u64::MAX,
    ensures
        ({
            let r = q.request(owner, access);
            let n = r.nodes[q.nodes.len() as int];
            &&& r.id == q.id && r.base == q.base && r.nodes.len() == q.nodes.len() + 1
            &&& forall|k: int| 0 <= k < q.nodes.len() ==> #[trigger] r.nodes[k] == q.nodes[k]
            &&& n.owner == owner && n.access == access && !n.cleared
            &&& access == Access::Write ==> n.state == NodeState::Wait
            &&& access == Access::Read ==> n.state == NodeState::Read
            &&& n.pred is Some && n.pred->0 == q.base + q.nodes.len() - 1
            &&& n.progress is Granted || n.progress is Waiting
            &&& access == Access::Write ==> (n.progress is Granted <==> forall|k: int|
                0 <= k < q.nodes.len() ==> (#[trigger] q.nodes[k]).state == NodeState::Free)
            &&& access == Access::Read ==> (n.progress is Granted <==> forall|k: int|
                0 <= k < q.nodes.len() ==> (#[trigger] q.nodes[k]).state != NodeState::Wait)
            &&& n.progress is Waiting ==> {
                let stop = n.progress->Waiting_current - q.base;
                &&& 0 <= stop < q.nodes.len()
                &&& q.nodes[stop].state != NodeState::Free
                &&& access == Access::Read ==> q.nodes[stop].state == NodeState::Wait
                &&& forall|k: int|
                    stop < k < q.nodes.len() ==> {
                        &&& (#[trigger] q.nodes[k]).state != NodeState::Wait
                        &&& access == Access::Write ==> q.nodes[k].state == NodeState::Free
                    }
            }
        }),
{
    let j = q.join(owner, access);
    join_adds_one_node(q, owner, access);
    walk_ends_at_the_first_obstacle(j, q.base + q.nodes.len());
    assert forall|k: int| 0 <= k < q.nodes.len() implies #[trigger] j.nodes[k] == q.nodes[k] by {}
    let n = q.request(owner, access).nodes[q.nodes.len() as int];
    if n.progress is Waiting {
        let stop = n.progress->Waiting_current - q.base;
        assert(j.nodes[stop] == q.nodes[stop]);
        assert forall|k: int| stop < k < q.nodes.len() implies {
            &&& (#[trigger] q.nodes[k]).state != NodeState::Wait
            &&& access == Access::Write ==> q.nodes[k].state == NodeState::Free
        } by {
            assert(j.nodes[k] == q.nodes[k]);
        }
    } else {
        assert forall|k: int| 0 <= k < q.nodes.len() implies {
            &&& (#[trigger] q.nodes[k]).state != NodeState::Wait
            &&& access == Access::Write ==> q.nodes[k].state == NodeState::Free
        } by {
            assert(j.nodes[k] == q.nodes[k]);
        }
    }
}

/// A thread that got access and asks again, whatever it asks for and whoever asked
/// in between, is known to hold the lock; and if it wrote or now wants to, it is
/// not let in.
pub proof fn a_thread_with_access_is_known_to_hold_the_lock(
    q: QueueView,
    owner: ThreadId,
    first: Access,
    between: Seq<NodeView>,
)
    requires
        q.nodes.len() > 0,
        0 <= q.base,
        q.base + q.nodes.len() <= u64::MAX,
        q.request(owner, first).nodes[q.nodes.len() as int].progress is Granted,
    ensures
        ({
            let asked = q.request(owner, first);
            let later = QueueView { nodes: asked.nodes + between, ..asked };
            &&& later.held_by(owner, later.base + later.nodes.len())
            &&& !later.admits(Access::Write)
            &&& first == Access::Write ==> !later.admits(Access::Read)
        }),
{
    asking_is_answered_by_the_older_nodes(q, owner, first);
    let asked = q.request(owner, first);
    let later = QueueView { nodes: asked.nodes + between, ..asked };
    let k = q.nodes.len() as int;
    assert(later.nodes[k] == asked.nodes[k]);
    own_unfinished_node_is_noticed(
        later,
        owner,
        later.base + k,
        later.base + later.nodes.len(),
    );
    newcomers_wait_for_nodes_only(later);
}

/// A thread that has given its access up, and had no other, is not taken to hold
/// the lock.
pub proof fn a_thread_without_access_does_not_hold_the_lock(q: QueueView, owner: ThreadId, i: int)
    requires
        q.base <= i < q.base + q.nodes.len(),
        forall|k: int|
            0 <= k < q.nodes.len() && k != i - q.base && (#[trigger] q.nodes[k]).owner == owner
                ==> q.nodes[k].state == NodeState::Free,
    ensures
        !q.unlock(i).held_by(owner, q.base + q.nodes.len()),
{
    release_frees_the_node_and_nothing_else(q, i);
    stranger_is_not_refused(q.unlock(i), owner, q.base + q.nodes.len());
}

/// When everybody who was not finished has given up, in whatever order, nobody has
/// to be waited for: a writer is let in, and so is a reader.
pub proof fn when_all_are_done_the_lock_is_open(qs: Seq<QueueView>, order: Seq<int>)
    requires
        qs.len() == order.len() + 1,
        forall|n: int|
            0 <= n < order.len() ==> qs[0].base <= #[trigger] order[n] < qs[0].base
                + qs[0].nodes.len(),
        forall|n: int| 0 <= n < order.len() ==> qs[n + 1] == qs[n].unlock(#[trigger] order[n]),
        forall|k: int|
            0 <= k < qs[0].nodes.len() && (#[trigger] qs[0].nodes[k]).state != NodeState::Free
                ==> order.contains(k + qs[0].base),
    ensures
        qs.last().nodes.len() == qs[0].nodes.len(),
        forall|k: int|
            0 <= k < qs[0].nodes.len() ==> (#[trigger] qs.last().nodes[k]).state == NodeState::Free,
        qs.last().admits(Access::Write),
        qs.last().admits(Access::Read),
{
    lemma_released_so_far(qs, order, order.len() as int);
    let q = qs[0];
    let r = qs.last();
    assert forall|k: int| 0 <= k < q.nodes.len() implies (#[trigger] r.nodes[k]).state
        == NodeState::Free by {
        if q.nodes[k].state != NodeState::Free {
            let n = choose|n: int| 0 <= n < order.len() && order[n] == k + q.base;
            assert(order[n] == k + q.base);
        }
    }
    newcomers_wait_for_nodes_only(r);
}

proof fn lemma_released_so_far(qs: Seq<QueueView>, order: Seq<int>, m: int)
    requires
        0 <= m <= order.len(),
        qs.len() == order.len() + 1,
        forall|n: int|
            0 <= n < order.len() ==> qs[0].base <= #[trigger] order[n] < qs[0].base
                + qs[0].nodes.len(),
        forall|n: int| 0 <= n < order.len() ==> qs[n + 1] == qs[n].unlock(#[trigger] order[n]),
    ensures
        qs[m].base == qs[0].base,
        qs[m].nodes.len() == qs[0].nodes.len(),
        forall|k: int|
            0 <= k < qs[0].nodes.len() && qs[0].nodes[k].state == NodeState::Free ==> (
            #[trigger] qs[m].nodes[k]).state == NodeState::Free,
        forall|n: int|
            0 <= n < m ==> qs[m].nodes[(#[trigger] order[n]) - qs[0].base].state == NodeState::Free,
    decreases m,
{
    if m > 0 {
        lemma_released_so_far(qs, order, m - 1);
        let i = order[m - 1];
        assert(qs[m - 1 + 1] == qs[m - 1].unlock(i));
        release_frees_the_node_and_nothing_else(qs[m - 1], i);
        assert forall|n: int| 0 <= n < m implies qs[m].nodes[(#[trigger] order[n])
            - qs[0].base].state == NodeState::Free by {
            if order[n] != i {
                assert(n < m - 1);
                assert(qs[m].nodes[order[n] - qs[0].base] == qs[m - 1].nodes[order[n]
                    - qs[0].base]);
            }
        }
        assert forall|k: int|
            0 <= k < qs[0].nodes.len() && qs[0].nodes[k].state == NodeState::Free implies (
        #[trigger] qs[m].nodes[k]).state == NodeState::Free by {
            assert(qs[m - 1].nodes[k].state == NodeState::Free);
        }
    }
}

/// When the last request that was not finished gives up, everybody is let in.
pub proof fn the_last_release_opens_the_lock(q: QueueView, i: int)
    requires
        q.base <= i < q.base + q.nodes.len(),
        forall|k: int|
            0 <= k < q.nodes.len() && k != i - q.base ==> (#[trigger] q.nodes[k]).state
                == NodeState::Free,
    ensures
        q.unlock(i).admits(Access::Write),
        q.unlock(i).admits(Access::Read),
        q.clear(i).unlock(i).admits(Access::Write),
        q.clear(i).unlock(i).admits(Access::Read),
{
    release_frees_the_node_and_nothing_else(q, i);
    newcomers_wait_for_nodes_only(q.unlock(i));
    clear_lets_older_nodes_go(q, i);
    release_frees_the_node_and_nothing_else(q.clear(i), i);
    newcomers_wait_for_nodes_only(q.clear(i).unlock(i));
}

/// The access inside a result, however it comes.
pub proof fn access_comes_out_of_results<G>(guard: G)
    ensures
        guard_of::<G>(Ok(guard)) == guard,
        guard_of::<G>(Err(PoisonError { guard })) == guard,
        try_guard_of::<G>(Ok(guard)) == Some(guard),
        try_guard_of::<G>(Err(TryLockError::Poisoned(PoisonError { guard }))) == Some(guard),
        try_guard_of::<G>(Err(TryLockError::WouldBlock)) is None,
{
}

/// A history is built step by step, and each step does to the lock what its name
/// says and no more.
pub proof fn histories_are_built_step_by_step<T>(
    v: RwLockView<T>,
    events: Seq<Event<T>>,
    e: Event<T>,
)
    ensures
        v.legal(Seq::<Event<T>>::empty()),
        v.run(Seq::<Event<T>>::empty()) == v,
        v.legal(events.push(e)) <==> v.legal(events) && v.run(events).enabled(e),
        v.run(events.push(e)) == v.run(events).after(e),
{
    assert(events.push(e).drop_last() =~= events);
}

/// Which part of the lock each event touches.
pub proof fn events_do_what_they_say<T>(
    v: RwLockView<T>,
    i: int,
    owner: ThreadId,
    access: Access,
    value: T,
)
    ensures
        v.after(Event::Enqueue { owner, access }) == (RwLockView {
            queue: v.queue.enqueue(owner, access),
            poisoned: v.poisoned,
            data: v.data,
        }),
        v.after(Event::Link { i }).queue == v.queue.link(i),
        v.after(Event::AllowRead { i }).queue == v.queue.allow_read(i),
        v.after(Event::Start { i }).queue == v.queue.start(i),
        v.after(Event::Pass { i }).queue == v.queue.pass(i),
        v.after(Event::Advance { i }).queue == v.queue.advance(i),
        v.after(Event::HandOver { i, to: owner }).queue == v.queue.hand_over(i, owner),
        v.after(Event::Clear { i }).queue == v.queue.clear(i),
        v.after(Event::Unlock { i }).queue == v.queue.unlock(i),
        v.after(Event::Assign { i, value }).queue == v.queue,
        v.after(Event::Assign { i, value }).data == value,
        v.after(Event::Assign { i, value }).poisoned == v.poisoned,
        v.after(Event::Poison { i }).queue == v.queue,
        v.after(Event::Poison { i }).data == v.data,
        v.after(Event::Poison { i }).poisoned,
        forall|e: Event<T>| !(e is Assign) ==> (#[trigger] v.after(e)).data == v.data,
        forall|e: Event<T>| !(e is Poison) ==> (#[trigger] v.after(e)).poisoned == v.poisoned,
{
}

/// When each event is possible.
pub proof fn events_are_possible_when_their_steps_are<T>(
    v: RwLockView<T>,
    i: int,
    owner: ThreadId,
    access: Access,
    value: T,
)
    ensures
        v.enabled(Event::Enqueue { owner, access }) <==> v.queue.base + v.queue.nodes.len()
            < u64::MAX,
        v.enabled(Event::Link { i }) <==> v.queue.can_link(i),
        v.enabled(Event::AllowRead { i }) <==> v.queue.can_allow_read(i),
        v.enabled(Event::Start { i }) <==> v.queue.can_start(i),
        v.enabled(Event::Pass { i }) <==> v.queue.can_pass(i),
        v.enabled(Event::Advance { i }) <==> v.queue.can_advance(i),
        v.enabled(Event::HandOver { i, to: owner }) <==> v.queue.can_hand_over(i),
        v.enabled(Event::Clear { i }) <==> v.queue.can_clear(i),
        v.enabled(Event::Unlock { i }) <==> v.queue.can_unlock(i),
        v.enabled(Event::Assign { i, value }) <==> v.holds(Access::Write, i),
        v.enabled(Event::Poison { i }) <==> v.holds(Access::Write, i),
{
}

} // verus!

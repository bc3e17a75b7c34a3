//! The queue of a lock as mathematics: what it holds, and what each indivisible
//! step of a thread does to it.
//!
//! Every request for access is a node, and nodes are numbered in the order in
//! which they joined. A thread decides whether it may enter by walking from its
//! own node to older ones, one step at a time, while other threads take their
//! own steps. `QueueView::inv` holds before and after every step.
use vstd::prelude::*;

verus! {

/// Identifies a thread. No two threads that use a lock have the same number.
pub type ThreadId = u64;

/// What a request asks for.
#[derive(Clone, Copy, Debug, PartialEq, Eq, Structural)]
pub enum Access {
    Read,
    Write,
}

/// What a node tells the requests behind it.
#[derive(Clone, Copy, Debug, PartialEq, Eq, Structural)]
pub enum NodeState {
    /// Wait for me.
    Wait,
    /// Other readers need not wait for me.
    Read,
    /// Nobody needs to wait for me.
    Free,
}

/// How far a request has come.
#[derive(Clone, Copy, Debug, PartialEq, Eq, Structural)]
pub enum Progress {
    /// The node has a place in the queue, behind `pred`, but does not point to
    /// `pred` yet.
    Enqueued { pred: u64 },
    /// The node points to the one before it.
    Linked,
    /// Next, the state of `current` has to be looked at.
    Waiting { current: u64 },
    /// The request need not wait for `current`. Next, the one before `current`
    /// has to be found.
    Passed { current: u64 },
    /// The walk has come to the end of the queue: access is granted.
    Granted,
}

#[verifier::ext_equal]
pub ghost struct NodeView {
    /// The thread that asked, or that the access was handed over to.
    pub owner: ThreadId,
    pub state: NodeState,
    /// The node before this one, if this one points to it.
    pub pred: Option<u64>,
    /// Whether the pointer has been taken away for good.
    pub cleared: bool,
    pub access: Access,
    pub progress: Progress,
}

/// The nodes that are still there: those numbered from `base` on.
#[verifier::ext_equal]
pub ghost struct QueueView {
    /// Tells this queue from others.
    pub id: int,
    pub base: int,
    pub nodes: Seq<NodeView>,
}

impl Access {
    /// A request for this access need not wait for a node in `state`.
    pub open spec fn passes(self, state: NodeState) -> bool {
        match self {
            Access::Read => state != NodeState::Wait,
            Access::Write => state == NodeState::Free,
        }
    }
}

impl NodeView {
    /// The request has been granted and its access has not been given up.
    pub open spec fn held(self) -> bool {
        self.progress is Granted && self.state != NodeState::Free
    }

    /// The thread has announced what it wants, and is walking.
    pub open spec fn walking(self) -> bool {
        self.progress is Waiting || self.progress is Passed
    }

    /// A node that has just got its place behind `pred`.
    pub open spec fn enqueued(owner: ThreadId, access: Access, pred: u64) -> NodeView {
        NodeView {
            owner,
            state: NodeState::Wait,
            pred: None,
            cleared: false,
            access,
            progress: Progress::Enqueued { pred },
        }
    }

    /// A node behind `pred` whose thread has got as far as `progress`.
    pub open spec fn joined(
        owner: ThreadId,
        access: Access,
        pred: u64,
        progress: Progress,
    ) -> NodeView {
        NodeView {
            owner,
            state: match access {
                Access::Read => NodeState::Read,
                Access::Write => NodeState::Wait,
            },
            pred: Some(pred),
            cleared: false,
            access,
            progress,
        }
    }
}

impl QueueView {
    /// The number that the next node gets.
    pub open spec fn end(self) -> int {
        self.base + self.nodes.len()
    }

    pub open spec fn contains(self, i: int) -> bool {
        self.base <= i < self.end()
    }

    pub open spec fn node(self, i: int) -> NodeView {
        self.nodes[i - self.base]
    }

    /// The queue with `node` in place of node `i`.
    pub open spec fn with(self, i: int, node: NodeView) -> QueueView {
        QueueView { nodes: self.nodes.update(i - self.base, node), ..self }
    }

    /// A request for `access` need not wait for any of the nodes from `lo` up
    /// to, but not counting, `hi`.
    pub open spec fn passable(self, access: Access, lo: int, hi: int) -> bool {
        forall|j: int| lo <= j < hi ==> access.passes((#[trigger] self.node(j)).state)
    }

    /// Every older node lets request `i` in.
    pub open spec fn entitled(self, i: int) -> bool {
        self.passable(self.node(i).access, self.base, i)
    }

    /// The requests that request `i` has to wait for.
    pub open spec fn blockers(self, i: int) -> Set<int> {
        Set::new(
            |j: int| self.base <= j < i && !self.node(i).access.passes(self.node(j).state),
        )
    }

    /// Thread `owner` has a node older than `i` that is not free: it holds the
    /// lock, or has asked for it and waits. A thread that does nothing else while
    /// it waits only asks again when it holds the lock.
    pub open spec fn held_by(self, owner: ThreadId, i: int) -> bool {
        exists|j: int|
            self.base <= j < i && (#[trigger] self.node(j)).owner == owner && self.node(j).state
                != NodeState::Free
    }

    /// Nobody holds the lock or waits for it.
    pub open spec fn idle(self) -> bool {
        forall|j: int| self.contains(j) ==> (#[trigger] self.node(j)).state == NodeState::Free
    }

    /// What holds of node `i` at all times.
    pub open spec fn node_inv(self, i: int) -> bool {
        let n = self.node(i);
        // Only the oldest node and one that has just got its place point nowhere.
        &&& i == self.base ==> n.pred is None && (n.state == NodeState::Free || n.progress
            is Granted)
        &&& i > self.base ==> !n.cleared
        &&& i > self.base && n.progress is Enqueued ==> n.pred is None && n.state == NodeState::Wait
            && n.progress->pred == i - 1
        &&& i > self.base && !(n.progress is Enqueued) ==> n.pred is Some && n.pred->0 == i - 1
        // Whoever walks or is in has said what it wants.
        &&& n.access == Access::Write ==> n.state != NodeState::Read
        &&& n.access == Access::Read && (n.walking() || n.progress is Granted) ==> n.state
            != NodeState::Wait
        // What was passed stays passable.
        &&& n.state != NodeState::Free ==> match n.progress {
            Progress::Waiting { current } => self.base <= current < i && self.passable(
                n.access,
                current + 1,
                i,
            ),
            Progress::Passed { current } => self.base <= current < i && self.passable(
                n.access,
                current as int,
                i,
            ),
            Progress::Granted => self.passable(n.access, self.base, i),
            _ => true,
        }
    }

    /// What every step keeps.
    pub open spec fn inv(self) -> bool {
        &&& 0 <= self.base
        &&& self.nodes.len() > 0
        &&& self.end() <= u64::MAX
        &&& forall|i: int| #![trigger self.node(i)] self.contains(i) ==> self.node_inv(i)
    }

    /// The queue of a new lock: one node, which nobody has to wait for.
    pub open spec fn is_new(self) -> bool {
        &&& self.base == 0
        &&& self.nodes.len() == 1
        &&& self.node(0).state == NodeState::Free
        &&& self.node(0).pred is None
        &&& !self.node(0).cleared
        &&& self.node(0).access == Access::Write
        &&& self.node(0).progress == Progress::Linked
    }

    // The steps.

    /// A new node takes its place at the end of the queue.
    pub open spec fn enqueue(self, owner: ThreadId, access: Access) -> QueueView {
        QueueView {
            nodes: self.nodes.push(NodeView::enqueued(owner, access, (self.end() - 1) as u64)),
            ..self
        }
    }

    pub open spec fn can_link(self, i: int) -> bool {
        self.contains(i) && i > self.base && self.node(i).progress is Enqueued
    }

    /// Node `i` starts to point to the one before it.
    pub open spec fn link(self, i: int) -> QueueView {
        self.with(
            i,
            NodeView {
                pred: Some(self.node(i).progress->pred),
                progress: Progress::Linked,
                ..self.node(i)
            },
        )
    }

    pub open spec fn can_allow_read(self, i: int) -> bool {
        &&& self.contains(i)
        &&& self.node(i).progress is Linked
        &&& self.node(i).access == Access::Read
        &&& self.node(i).state == NodeState::Wait
    }

    /// Node `i` tells other readers not to wait for it.
    pub open spec fn allow_read(self, i: int) -> QueueView {
        self.with(i, NodeView { state: NodeState::Read, ..self.node(i) })
    }

    pub open spec fn can_start(self, i: int) -> bool {
        &&& self.contains(i)
        &&& self.node(i).progress is Linked
        &&& self.node(i).state != NodeState::Free
        &&& self.node(i).access == Access::Read ==> self.node(i).state == NodeState::Read
    }

    /// Request `i` begins its walk at the node before its own.
    pub open spec fn start(self, i: int) -> QueueView {
        self.with(
            i,
            NodeView {
                progress: Progress::Waiting { current: self.node(i).pred->0 },
                ..self.node(i)
            },
        )
    }

    pub open spec fn can_pass(self, i: int) -> bool {
        &&& self.contains(i)
        &&& self.node(i).state != NodeState::Free
        &&& self.node(i).progress is Waiting
        &&& self.node(i).access.passes(self.node(self.node(i).progress->Waiting_current as int).state)
    }

    /// Request `i` sees that it need not wait for the node it has come to.
    pub open spec fn pass(self, i: int) -> QueueView {
        self.with(
            i,
            NodeView {
                progress: Progress::Passed { current: self.node(i).progress->Waiting_current },
                ..self.node(i)
            },
        )
    }

    pub open spec fn can_advance(self, i: int) -> bool {
        &&& self.contains(i)
        &&& self.node(i).state != NodeState::Free
        &&& self.node(i).progress is Passed
    }

    /// Request `i` goes on to the next older node, or is granted if there is
    /// none.
    pub open spec fn advance(self, i: int) -> QueueView {
        self.with(
            i,
            NodeView {
                progress: match self.node(self.node(i).progress->Passed_current as int).pred {
                    Some(next) => Progress::Waiting { current: next },
                    None => Progress::Granted,
                },
                ..self.node(i)
            },
        )
    }

    pub open spec fn can_hand_over(self, i: int) -> bool {
        self.contains(i) && self.node(i).held()
    }

    /// The access that request `i` got goes to thread `to`.
    pub open spec fn hand_over(self, i: int, to: ThreadId) -> QueueView {
        self.with(i, NodeView { owner: to, ..self.node(i) })
    }

    pub open spec fn can_clear(self, i: int) -> bool {
        &&& self.contains(i)
        &&& self.node(i).access == Access::Write
        &&& self.node(i).held()
    }

    /// Writer `i` stops pointing to the older nodes, and these go away.
    pub open spec fn clear(self, i: int) -> QueueView {
        QueueView { base: i, nodes: self.nodes.skip(i - self.base), ..self }.with(
            i,
            NodeView { pred: None, cleared: true, ..self.node(i) },
        )
    }

    pub open spec fn can_unlock(self, i: int) -> bool {
        &&& self.contains(i)
        &&& self.node(i).state != NodeState::Free
        &&& self.node(i).progress is Waiting || self.node(i).progress is Granted
    }

    /// Node `i` tells everybody not to wait for it: its request has been given
    /// up, or its access has.
    pub open spec fn unlock(self, i: int) -> QueueView {
        self.with(i, NodeView { state: NodeState::Free, ..self.node(i) })
    }

    // What a thread does without being interrupted.

    /// The youngest node not younger than `from` that a request for `access` has
    /// to wait for; `base - 1` if there is none.
    pub open spec fn stop(self, access: Access, from: int) -> int
        decreases from - self.base + 1,
    {
        if from < self.base {
            self.base - 1
        } else if access.passes(self.node(from).state) {
            self.stop(access, from - 1)
        } else {
            from
        }
    }

    /// How far a walk comes that starts at `from`: to the first node that it has
    /// to wait for, or to the end.
    pub open spec fn reach(self, access: Access, from: int) -> Progress {
        if self.stop(access, from) < self.base {
            Progress::Granted
        } else {
            Progress::Waiting { current: self.stop(access, from) as u64 }
        }
    }

    /// A new node that takes its place at the end of the queue and points to the
    /// one before it.
    pub open spec fn new_node(self, owner: ThreadId, access: Access) -> QueueView {
        self.enqueue(owner, access).link(self.end())
    }

    /// Request `i` says what it wants and is about to walk.
    pub open spec fn announce(self, i: int) -> QueueView {
        match self.node(i).access {
            Access::Read => self.allow_read(i).start(i),
            Access::Write => self.start(i),
        }
    }

    /// A new node at the end of the queue, whose thread is about to walk.
    pub open spec fn join(self, owner: ThreadId, access: Access) -> QueueView {
        let pred = (self.end() - 1) as u64;
        QueueView {
            nodes: self.nodes.push(
                NodeView::joined(owner, access, pred, Progress::Waiting { current: pred }),
            ),
            ..self
        }
    }

    /// Request `i` walks on as far as it can.
    pub open spec fn walk(self, i: int) -> QueueView {
        self.with(
            i,
            NodeView {
                progress: self.reach(
                    self.node(i).access,
                    self.node(i).progress->Waiting_current as int,
                ),
                ..self.node(i)
            },
        )
    }

    /// A new request for `access` would not have to wait.
    pub open spec fn admits(self, access: Access) -> bool {
        self.passable(access, self.base, self.end())
    }

    /// A new node joins the queue and its thread walks as far as it can.
    pub open spec fn request(self, owner: ThreadId, access: Access) -> QueueView {
        self.join(owner, access).walk(self.end())
    }
}

/// Joining the queue is taking a place, linking, and announcing.
pub proof fn lemma_join(q: QueueView, owner: ThreadId, access: Access)
    requires
        q.inv(),
        q.end() < u64::MAX,
    ensures
        q.new_node(owner, access).announce(q.end()) == q.join(owner, access),
{
    assert(q.new_node(owner, access).announce(q.end()).nodes =~= q.join(owner, access).nodes);
}

/// What `stop` finds: the first node on the way that is not passable.
pub proof fn lemma_stop(q: QueueView, access: Access, from: int)
    requires
        from < q.end(),
        q.base - 1 <= from,
    ensures
        q.base - 1 <= q.stop(access, from) <= from,
        q.stop(access, from) >= q.base ==> !access.passes(q.node(q.stop(access, from)).state),
        q.passable(access, q.stop(access, from) + 1, from + 1),
        q.stop(access, from) < q.base <==> q.passable(access, q.base, from + 1),
    decreases from - q.base + 1,
{
    if from >= q.base && access.passes(q.node(from).state) {
        lemma_stop(q, access, from - 1);
    }
}

/// A new request is granted at once exactly if the queue admits it. Otherwise it
/// waits for the youngest node that keeps it out.
pub proof fn lemma_request(q: QueueView, owner: ThreadId, access: Access)
    requires
        q.inv(),
        q.end() < u64::MAX,
    ensures
        q.join(owner, access).entitled(q.end()) <==> q.admits(access),
        q.join(owner, access).held_by(owner, q.end()) <==> q.held_by(owner, q.end()),
        q.request(owner, access).held_by(owner, q.end()) <==> q.held_by(owner, q.end()),
        q.request(owner, access).nodes == q.nodes.push(
            NodeView::joined(
                owner,
                access,
                (q.end() - 1) as u64,
                q.reach(access, q.end() - 1),
            ),
        ),
        q.reach(access, q.end() - 1) is Granted <==> q.admits(access),
{
    let i = q.end();
    let j = q.join(owner, access);
    let r = q.request(owner, access);
    assert(forall|k: int|
        #![trigger q.node(k)]
        #![trigger j.node(k)]
        #![trigger r.node(k)]
        q.contains(k) ==> j.node(k) == q.node(k) && r.node(k) == q.node(k));
    lemma_stop(q, access, i - 1);
    lemma_stop_same(q, j, access, i - 1);
    assert(r.nodes =~= q.nodes.push(
        NodeView::joined(owner, access, (i - 1) as u64, q.reach(access, i - 1)),
    ));
}

/// What `stop` finds depends on nothing but the nodes on the way.
pub proof fn lemma_stop_same(q: QueueView, r: QueueView, access: Access, from: int)
    requires
        q.base == r.base,
        from < q.end(),
        from < r.end(),
        forall|j: int| q.base <= j <= from ==> (#[trigger] q.node(j)).state == r.node(j).state,
    ensures
        q.stop(access, from) == r.stop(access, from),
    decreases from - q.base + 1,
{
    if from >= q.base {
        assert(q.node(from).state == r.node(from).state);
        lemma_stop_same(q, r, access, from - 1);
    }
}

pub proof fn lemma_enqueue_keeps_inv(q: QueueView, owner: ThreadId, access: Access)
    requires
        q.inv(),
        q.end() < u64::MAX,
    ensures
        q.enqueue(owner, access).inv(),
{
    let r = q.enqueue(owner, access);
    assert forall|i: int| #![trigger r.node(i)] r.contains(i) implies r.node_inv(i) by {
        assert(forall|j: int|
            #![trigger q.node(j)]
            #![trigger r.node(j)]
            q.contains(j) ==> r.node(j) == q.node(j));
        if i < q.end() {
            assert(q.node_inv(i));
        }
    }
}

pub proof fn lemma_link_keeps_inv(q: QueueView, i: int)
    requires
        q.inv(),
        q.can_link(i),
    ensures
        q.link(i).inv(),
{
    lemma_update_keeps_inv(q, i, q.link(i).node(i));
}

/// Changing one node keeps the invariant if the node's own part holds and the
/// node only becomes more passable.
proof fn lemma_update_keeps_inv(q: QueueView, i: int, n: NodeView)
    requires
        q.inv(),
        q.contains(i),
        q.with(i, n).node_inv(i),
        Access::Read.passes(q.node(i).state) ==> Access::Read.passes(n.state),
        Access::Write.passes(q.node(i).state) ==> Access::Write.passes(n.state),
    ensures
        q.with(i, n).inv(),
{
    let r = q.with(i, n);
    assert forall|j: int| #![trigger r.node(j)] r.contains(j) implies r.node_inv(j) by {
        assert(forall|k: int|
            #![trigger q.node(k)]
            #![trigger r.node(k)]
            q.contains(k) && k != i ==> r.node(k) == q.node(k));
        assert(r.node(i) == n);
        assert(q.node_inv(j));
        if j != i {
            lemma_passable_grows(q, i, n, r.node(j).access);
        }
    }
}

proof fn lemma_passable_grows(q: QueueView, i: int, n: NodeView, access: Access)
    requires
        q.contains(i),
        Access::Read.passes(q.node(i).state) ==> Access::Read.passes(n.state),
        Access::Write.passes(q.node(i).state) ==> Access::Write.passes(n.state),
    ensures
        forall|lo: int, hi: int|
            #![trigger q.with(i, n).passable(access, lo, hi)]
            q.base <= lo && hi <= q.end() && q.passable(access, lo, hi) ==> q.with(i, n).passable(
                access,
                lo,
                hi,
            ),
{
    let r = q.with(i, n);
    assert forall|lo: int, hi: int|
        #![trigger r.passable(access, lo, hi)]
        q.base <= lo && hi <= q.end() && q.passable(access, lo, hi) implies r.passable(
        access,
        lo,
        hi,
    ) by {
        assert forall|j: int| lo <= j < hi implies access.passes((#[trigger] r.node(j)).state) by {
            assert(access.passes(q.node(j).state));
        }
    }
}

pub proof fn lemma_allow_read_keeps_inv(q: QueueView, i: int)
    requires
        q.inv(),
        q.can_allow_read(i),
    ensures
        q.allow_read(i).inv(),
{
    assert(q.node_inv(i));
    lemma_update_keeps_inv(q, i, q.allow_read(i).node(i));
}

pub proof fn lemma_start_keeps_inv(q: QueueView, i: int)
    requires
        q.inv(),
        q.can_start(i),
    ensures
        i > q.base,
        q.node(i).pred == Some((i - 1) as u64),
        q.start(i).inv(),
{
    assert(q.node_inv(i));
    lemma_update_keeps_inv(q, i, q.start(i).node(i));
}

pub proof fn lemma_pass_keeps_inv(q: QueueView, i: int)
    requires
        q.inv(),
        q.can_pass(i),
    ensures
        q.pass(i).inv(),
{
    assert(q.node_inv(i));
    let r = q.pass(i);
    assert(forall|k: int|
            #![trigger q.node(k)]
            #![trigger r.node(k)]
            q.contains(k) && k != i ==> r.node(k) == q.node(k));
    assert(r.node_inv(i));
    lemma_update_keeps_inv(q, i, r.node(i));
}

pub proof fn lemma_advance_keeps_inv(q: QueueView, i: int)
    requires
        q.inv(),
        q.can_advance(i),
    ensures
        q.advance(i).inv(),
        ({
            let current = q.node(i).progress->Passed_current as int;
            &&& current == q.base ==> q.node(current).pred is None
            &&& current > q.base ==> q.node(current).pred == Some((current - 1) as u64)
        }),
{
    assert(q.node_inv(i));
    let current = q.node(i).progress->Passed_current as int;
    assert(q.node_inv(current));
    let r = q.advance(i);
    assert(forall|k: int|
            #![trigger q.node(k)]
            #![trigger r.node(k)]
            q.contains(k) && k != i ==> r.node(k) == q.node(k));
    assert(r.node_inv(i));
    lemma_update_keeps_inv(q, i, r.node(i));
}

pub proof fn lemma_hand_over_keeps_inv(q: QueueView, i: int, to: ThreadId)
    requires
        q.inv(),
        q.can_hand_over(i),
    ensures
        q.hand_over(i, to).inv(),
{
    assert(q.node_inv(i));
    let r = q.hand_over(i, to);
    assert(forall|k: int|
            #![trigger q.node(k)]
            #![trigger r.node(k)]
            q.contains(k) && k != i ==> r.node(k) == q.node(k));
    assert(r.node_inv(i));
    lemma_update_keeps_inv(q, i, r.node(i));
}

pub proof fn lemma_unlock_keeps_inv(q: QueueView, i: int)
    requires
        q.inv(),
        q.can_unlock(i),
    ensures
        q.unlock(i).inv(),
{
    assert(q.node_inv(i));
    lemma_update_keeps_inv(q, i, q.unlock(i).node(i));
}

pub proof fn lemma_clear_keeps_inv(q: QueueView, i: int)
    requires
        q.inv(),
        q.can_clear(i),
    ensures
        q.clear(i).inv(),
{
    let r = q.clear(i);
    assert(q.node_inv(i));
    assert(forall|k: int|
            #![trigger q.node(k)]
            #![trigger r.node(k)]
            i < k < q.end() ==> r.node(k) == q.node(k));
    assert forall|j: int| #![trigger r.node(j)] r.contains(j) implies r.node_inv(j) by {
        assert(q.node_inv(j));
        if j > i && r.node(j).state != NodeState::Free {
            let n = q.node(j);
            assert(!n.access.passes(q.node(i).state));
            match n.progress {
                Progress::Waiting { current } => {
                    assert(current >= i);
                    assert(r.passable(n.access, current + 1, j));
                },
                Progress::Passed { current } => {
                    assert(current > i);
                    assert(r.passable(n.access, current as int, j));
                },
                Progress::Granted => {},
                _ => {},
            }
        }
    }
}

} // verus!

//! The queue of requests behind a lock.
//!
//! A thread that wants access takes a node at the end of the queue, links it to
//! the node before it, and walks to older nodes until it meets one that it has
//! to wait for, or the end. Each function on [`Queue`] is one indivisible step
//! of that, or a sequence of steps.
use std::sync::Arc;
use vstd::prelude::*;

use crate::effects::a_thread_holds_the_lock_by_its_own_nodes_only;
use crate::error::{TryLockError, TryLockResult};
use crate::model::{Access, NodeState, NodeView, Progress, QueueView, ThreadId};
use crate::model::{
    lemma_advance_keeps_inv, lemma_allow_read_keeps_inv, lemma_clear_keeps_inv,
    lemma_enqueue_keeps_inv, lemma_hand_over_keeps_inv, lemma_link_keeps_inv, lemma_pass_keeps_inv, lemma_start_keeps_inv,
    lemma_stop, lemma_unlock_keeps_inv,
};
use crate::sticky::Sticky;

verus! {

/// One request for access.
pub struct QueueNode {
    owner: ThreadId,
    state: NodeState,
    /// The number of the node before this one.
    pred: Sticky<u64>,
    access: Ghost<Access>,
    progress: Ghost<Progress>,
}

/// The nodes that threads may still have to look at, oldest first.
pub struct Queue {
    /// The number of the oldest node.
    base: u64,
    nodes: Vec<QueueNode>,
    /// Tells this queue from others.
    id: Ghost<int>,
}

/// A thread's own record of a request that it has made.
pub struct Request {
    node: u64,
    access: Access,
    progress: Progress,
    /// Which queue the request waits in.
    queue: Ghost<int>,
}

#[verifier::ext_equal]
pub ghost struct RequestView {
    pub queue: int,
    pub node: int,
    pub access: Access,
    pub progress: Progress,
}

impl View for QueueNode {
    type V = NodeView;

    closed spec fn view(&self) -> NodeView {
        NodeView {
            owner: self.owner,
            state: self.state,
            pred: self.pred@.value,
            cleared: self.pred@.cleared,
            access: self.access@,
            progress: self.progress@,
        }
    }
}

impl QueueNode {
    /// Nobody is in the middle of using the pointer.
    pub closed spec fn sound(self) -> bool {
        self.pred.inv() && self.pred@.idle()
    }

    /// A node of `owner` that everybody has to wait for.
    pub fn new(owner: ThreadId) -> (node: QueueNode)
        ensures
            node.sound(),
            node@ == (NodeView {
                owner,
                state: NodeState::Wait,
                pred: None,
                cleared: false,
                access: Access::Write,
                progress: Progress::Linked,
            }),
    {
        QueueNode {
            owner,
            state: NodeState::Wait,
            pred: Sticky::new(),
            access: Ghost(Access::Write),
            progress: Ghost(Progress::Linked),
        }
    }

    /// Tells readers not to wait for this node.
    pub fn allow_read(&mut self)
        requires
            old(self).sound(),
        ensures
            final(self).sound(),
            final(self)@ == (NodeView { state: NodeState::Read, ..old(self)@ }),
    {
        self.state = NodeState::Read;
    }

    /// Tells everybody not to wait for this node.
    pub fn unlock(&mut self)
        requires
            old(self).sound(),
        ensures
            final(self).sound(),
            final(self)@ == (NodeView { state: NodeState::Free, ..old(self)@ }),
    {
        self.state = NodeState::Free;
    }

    /// Whether a reader need not wait for this node.
    pub fn can_read(&self) -> (can: bool)
        ensures
            can <==> Access::Read.passes(self@.state),
    {
        self.state != NodeState::Wait
    }

    /// Whether a writer need not wait for this node.
    pub fn can_write(&self) -> (can: bool)
        ensures
            can <==> Access::Write.passes(self@.state),
    {
        self.state == NodeState::Free
    }

    /// Whether the node belongs to `thread`.
    pub fn is_mine(&self, thread: ThreadId) -> (mine: bool)
        ensures
            mine <==> self@.owner == thread,
    {
        self.owner == thread
    }
}

impl View for Request {
    type V = RequestView;

    closed spec fn view(&self) -> RequestView {
        RequestView {
            queue: self.queue@,
            node: self.node as int,
            access: self.access,
            progress: self.progress,
        }
    }
}

impl Request {
    /// The number of the request's node.
    pub fn node(&self) -> (node: u64)
        ensures
            node == self@.node,
    {
        self.node
    }
}

impl QueueView {
    /// The request is one that waits in this queue, and has come as far as its
    /// thread thinks.
    pub open spec fn tracks(self, r: RequestView) -> bool {
        &&& self.id == r.queue
        &&& self.contains(r.node)
        &&& self.node(r.node).access == r.access
        &&& self.node(r.node).progress == r.progress
        &&& self.node(r.node).state != NodeState::Free
    }
}

impl View for Queue {
    type V = QueueView;

    closed spec fn view(&self) -> QueueView {
        QueueView {
            id: self.id@,
            base: self.base as int,
            nodes: Seq::new(self.nodes@.len(), |k: int| self.nodes@[k]@),
        }
    }
}

impl Queue {
    /// Nobody is in the middle of using a pointer.
    pub closed spec fn sound(self) -> bool {
        forall|k: int| 0 <= k < self.nodes@.len() ==> (#[trigger] self.nodes@[k]).sound()
    }

    /// What every function keeps.
    pub open spec fn inv(self) -> bool {
        self@.inv() && self.sound()
    }

    /// A queue with one node, which nobody has to wait for.
    pub fn new() -> (queue: Queue)
        ensures
            queue.inv(),
            queue@.is_new(),
    {
        let mut sentinel = QueueNode::new(0);
        sentinel.unlock();
        let mut nodes: Vec<QueueNode> = Vec::new();
        nodes.push(sentinel);
        let queue = Queue { base: 0, nodes, id: Ghost(arbitrary()) };
        assert(queue@.node(0) == sentinel@);
        queue
    }

    /// How many numbers have been given to nodes.
    pub fn issued(&self) -> (issued: u64)
        requires
            self.inv(),
        ensures
            issued == self@.end(),
    {
        self.base + self.nodes.len() as u64
    }

    /// Where the node is kept.
    fn slot(&self, node: u64) -> (k: usize)
        requires
            self.inv(),
            self@.contains(node as int),
        ensures
            k == node - self@.base,
            k < self.nodes@.len(),
            self.nodes@[k as int].sound(),
            self.nodes@[k as int]@ == self@.node(node as int),
    {
        assert(self.nodes.len() == self.nodes@.len());
        (node - self.base) as usize
    }

    /// Takes a place at the end of the queue for a request by `owner`.
    pub fn enqueue(&mut self, owner: ThreadId, access: Access) -> (request: Request)
        requires
            old(self).inv(),
            old(self)@.end() < u64::MAX,
        ensures
            final(self).inv(),
            final(self)@ == old(self)@.enqueue(owner, access),
            request@ == (RequestView {
                queue: old(self)@.id,
                node: old(self)@.end(),
                access,
                progress: Progress::Enqueued { pred: (old(self)@.end() - 1) as u64 },
            }),
            final(self)@.tracks(request@),
    {
        proof {
            lemma_enqueue_keeps_inv(self@, owner, access);
        }
        let number: u64 = self.issued();
        let pred: u64 = number - 1;
        let mut node = QueueNode::new(owner);
        node.access = Ghost(access);
        node.progress = Ghost(Progress::Enqueued { pred });
        self.nodes.push(node);
        assert(self@.nodes =~= old(self)@.enqueue(owner, access).nodes);
        Request { node: number, access, progress: Progress::Enqueued { pred }, queue: self.id }
    }

    /// Makes the node of the request point to the one before it.
    pub fn link(&mut self, request: &mut Request)
        requires
            old(self).inv(),
            old(self)@.tracks(old(request)@),
            old(request)@.progress is Enqueued,
        ensures
            final(self).inv(),
            final(self)@ == old(self)@.link(old(request)@.node),
            final(request)@ == (RequestView { progress: Progress::Linked, ..old(request)@ }),
            final(self)@.tracks(final(request)@),
    {
        let ghost i = request@.node;
        proof {
            assert(self@.node_inv(i));
            lemma_link_keeps_inv(self@, i);
        }
        if let Progress::Enqueued { pred } = request.progress {
            let k: usize = self.slot(request.node);
            self.nodes[k].pred.shove(Arc::new(pred));
            self.nodes[k].progress = Ghost(Progress::Linked);
            request.progress = Progress::Linked;
        }
        assert(self@.nodes =~= old(self)@.link(i).nodes);
    }

    /// Tells the readers behind the request not to wait for it.
    pub fn allow_read(&mut self, request: &Request)
        requires
            old(self).inv(),
            old(self)@.tracks(request@),
            old(self)@.can_allow_read(request@.node),
        ensures
            final(self).inv(),
            final(self)@ == old(self)@.allow_read(request@.node),
            final(self)@.tracks(request@),
    {
        proof {
            lemma_allow_read_keeps_inv(self@, request@.node);
        }
        let k: usize = self.slot(request.node);
        self.nodes[k].allow_read();
        assert(self@.nodes =~= old(self)@.allow_read(request@.node).nodes);
    }

    /// Begins the walk at the node before the request's own.
    pub fn start(&mut self, request: &mut Request)
        requires
            old(self).inv(),
            old(self)@.tracks(old(request)@),
            old(self)@.can_start(old(request)@.node),
        ensures
            final(self).inv(),
            final(self)@ == old(self)@.start(old(request)@.node),
            final(request)@ == (RequestView {
                progress: Progress::Waiting { current: (old(request)@.node - 1) as u64 },
                ..old(request)@
            }),
            final(self)@.tracks(final(request)@),
    {
        let ghost i = request@.node;
        proof {
            lemma_start_keeps_inv(self@, i);
        }
        let k: usize = self.slot(request.node);
        let pred: u64 = *self.nodes[k].pred.get().unwrap();
        request.progress = Progress::Waiting { current: pred };
        self.nodes[k].progress = Ghost(request.progress);
        assert(self@.nodes =~= old(self)@.start(i).nodes);
    }

    /// Looks whether the request has to wait for the node that it has come to.
    pub fn pass(&mut self, request: &mut Request) -> (passed: bool)
        requires
            old(self).inv(),
            old(self)@.tracks(old(request)@),
            old(request)@.progress is Waiting,
        ensures
            final(self).inv(),
            passed <==> old(self)@.can_pass(old(request)@.node),
            !passed ==> final(self)@ == old(self)@ && final(request)@ == old(request)@,
            passed ==> final(self)@ == old(self)@.pass(old(request)@.node),
            passed ==> final(request)@ == (RequestView {
                progress: Progress::Passed { current: old(request)@.progress->Waiting_current },
                ..old(request)@
            }),
            final(self)@.tracks(final(request)@),
    {
        let ghost i = request@.node;
        proof {
            assert(self@.node_inv(i));
        }
        if let Progress::Waiting { current } = request.progress {
            let c: usize = self.slot(current);
            let passes = match request.access {
                Access::Read => self.nodes[c].can_read(),
                Access::Write => self.nodes[c].can_write(),
            };
            if passes {
                proof {
                    lemma_pass_keeps_inv(self@, i);
                }
                let k: usize = self.slot(request.node);
                request.progress = Progress::Passed { current };
                self.nodes[k].progress = Ghost(request.progress);
                assert(self@.nodes =~= old(self)@.pass(i).nodes);
            }
            passes
        } else {
            false
        }
    }

    /// Goes on to the next older node. If there is none, the request is granted.
    pub fn advance(&mut self, request: &mut Request)
        requires
            old(self).inv(),
            old(self)@.tracks(old(request)@),
            old(request)@.progress is Passed,
        ensures
            final(self).inv(),
            final(self)@ == old(self)@.advance(old(request)@.node),
            final(request)@ == (RequestView {
                progress: final(self)@.node(old(request)@.node).progress,
                ..old(request)@
            }),
            final(self)@.tracks(final(request)@),
    {
        let ghost i = request@.node;
        proof {
            assert(self@.node_inv(i));
            lemma_advance_keeps_inv(self@, i);
        }
        if let Progress::Passed { current } = request.progress {
            let k: usize = self.slot(request.node);
            let c: usize = self.slot(current);
            request.progress =
            match self.nodes[c].pred.get() {
                Some(next) => Progress::Waiting { current: *next },
                None => Progress::Granted,
            };
            self.nodes[k].progress = Ghost(request.progress);
        }
        assert(self@.nodes =~= old(self)@.advance(i).nodes);
    }

    /// Frees the node of a request that is given up, or of access that is.
    pub fn unlock(&mut self, node: u64)
        requires
            old(self).inv(),
            old(self)@.can_unlock(node as int),
        ensures
            final(self).inv(),
            final(self)@ == old(self)@.unlock(node as int),
            final(self)@.base == old(self)@.base,
            final(self)@.nodes[node - old(self)@.base].state == NodeState::Free,
            forall|k: int|
                0 <= k < old(self)@.nodes.len() && k != node - old(self)@.base ==> #[trigger] final(self)@.nodes[k] == old(self)@.nodes[k],
    {
        proof {
            lemma_unlock_keeps_inv(self@, node as int);
        }
        let k: usize = self.slot(node);
        self.nodes[k].unlock();
        assert(self@.nodes =~= old(self)@.unlock(node as int).nodes);
    }

    /// Hands access over to another thread.
    pub fn hand_over(&mut self, node: u64, to: ThreadId)
        requires
            old(self).inv(),
            old(self)@.can_hand_over(node as int),
        ensures
            final(self).inv(),
            final(self)@ == old(self)@.hand_over(node as int, to),
    {
        proof {
            lemma_hand_over_keeps_inv(self@, node as int, to);
        }
        let k: usize = self.slot(node);
        self.nodes[k].owner = to;
        assert(self@.nodes =~= old(self)@.hand_over(node as int, to).nodes);
    }

    /// Takes the pointer of a writer that is in away, which releases all older
    /// nodes.
    pub fn clear(&mut self, node: u64)
        requires
            old(self).inv(),
            old(self)@.can_clear(node as int),
        ensures
            final(self).inv(),
            final(self)@ == old(self)@.clear(node as int),
    {
        proof {
            lemma_clear_keeps_inv(self@, node as int);
        }
        let k: usize = self.slot(node);
        self.nodes[k].pred.clear();
        self.nodes = self.nodes.split_off(k);
        self.base = node;
        assert(self@.nodes =~= old(self)@.clear(node as int).nodes);
    }

    /// Takes a place at the end of the queue and links it to the one before.
    pub fn new_node(&mut self, owner: ThreadId, access: Access) -> (request: Request)
        requires
            old(self).inv(),
            old(self)@.end() < u64::MAX,
        ensures
            final(self).inv(),
            final(self)@ == old(self)@.new_node(owner, access),
            request@ == (RequestView {
                queue: old(self)@.id,
                node: old(self)@.end(),
                access,
                progress: Progress::Linked,
            }),
            final(self)@.tracks(request@),
    {
        let mut request = self.enqueue(owner, access);
        self.link(&mut request);
        request
    }

    /// Takes a place at the end of the queue unless another thread is about to
    /// take one, which is what `contended` says.
    pub fn try_new_node(&mut self, owner: ThreadId, access: Access, contended: bool) -> (result:
        TryLockResult<Request>)
        requires
            old(self).inv(),
            old(self)@.end() < u64::MAX,
        ensures
            final(self).inv(),
            result is Err <==> contended,
            result is Err ==> result->Err_0 is WouldBlock && final(self)@ == old(self)@,
            result is Ok ==> final(self)@ == old(self)@.new_node(owner, access),
            result is Ok ==> result->Ok_0@ == (RequestView {
                queue: old(self)@.id,
                node: old(self)@.end(),
                access,
                progress: Progress::Linked,
            }),
            result is Ok ==> final(self)@.tracks(result->Ok_0@),
    {
        if contended {
            Err(TryLockError::WouldBlock)
        } else {
            Ok(self.new_node(owner, access))
        }
    }

    /// Announces what the request wants, and gets it ready to walk.
    pub fn announce(&mut self, request: &mut Request)
        requires
            old(self).inv(),
            old(self)@.tracks(old(request)@),
            old(request)@.progress is Linked,
            old(self)@.node(old(request)@.node).state == NodeState::Wait,
        ensures
            final(self).inv(),
            final(self)@ == old(self)@.announce(old(request)@.node),
            final(request)@ == (RequestView {
                progress: Progress::Waiting { current: (old(request)@.node - 1) as u64 },
                ..old(request)@
            }),
            final(self)@.tracks(final(request)@),
    {
        if let Access::Read = request.access {
            self.allow_read(request);
        }
        self.start(request);
    }

    /// Walks to older nodes until there is one that the request has to wait for,
    /// or no other. In the latter case the request is granted.
    pub fn walk(&mut self, request: &mut Request) -> (granted: bool)
        requires
            old(self).inv(),
            old(self)@.tracks(old(request)@),
            old(request)@.progress is Waiting,
        ensures
            final(self).inv(),
            final(self)@ == old(self)@.walk(old(request)@.node),
            final(request)@ == (RequestView {
                progress: final(self)@.node(old(request)@.node).progress,
                ..old(request)@
            }),
            final(self)@.tracks(final(request)@),
            granted <==> final(request)@.progress is Granted,
            granted <==> old(self)@.entitled(old(request)@.node),
    {
        let ghost i = request@.node;
        let ghost q = self@;
        let ghost access = request@.access;
        let ghost from = request@.progress->Waiting_current as int;
        proof {
            assert(q.node_inv(i));
            lemma_stop(q, access, from);
            assert(q.entitled(i) <==> q.stop(access, from) < q.base);
            assert(q.nodes =~= q.with(i, q.node(i)).nodes);
        }
        loop
            invariant
                self.inv(),
                self@.tracks(request@),
                request@.progress is Waiting,
                q == old(self)@,
                i == old(request)@.node,
                access == old(request)@.access,
                request@.queue == old(request)@.queue,
                request@.node == i,
                request@.access == access,
                q.inv(),
                q.contains(i),
                q.node(i).access == access,
                q.node(i).progress == (Progress::Waiting { current: from as u64 }),
                0 <= from <= u64::MAX,
                q.entitled(i) <==> q.stop(access, from) < q.base,
                self@ == q.with(i, NodeView { progress: request@.progress, ..q.node(i) }),
                q.stop(access, request@.progress->Waiting_current as int) == q.stop(access, from),
            decreases request@.progress->Waiting_current,
        {
            let ghost current = request@.progress->Waiting_current as int;
            proof {
                assert(self@.node_inv(i));
                assert(self@.node(current) == q.node(current));
            }
            if !self.pass(request) {
                return false;
            }
            proof {
                lemma_advance_keeps_inv(self@, i);
                assert(q.stop(access, current) == q.stop(access, current - 1));
            }
            self.advance(request);
            assert(self@.nodes =~= q.with(
                i,
                NodeView { progress: request@.progress, ..q.node(i) },
            ).nodes);
            if let Progress::Granted = request.progress {
                return true;
            }
        }
    }

    /// Whether `thread` has a node older than `before` that is not free.
    pub fn is_held_by(&self, thread: ThreadId, before: u64) -> (held: bool)
        requires
            self.inv(),
            self@.base <= before <= self@.end(),
        ensures
            held <==> self@.held_by(thread, before as int),
            held <==> exists|k: int|
                0 <= k < before - self@.base && (#[trigger] self@.nodes[k]).owner == thread
                    && self@.nodes[k].state != NodeState::Free,
    {
        proof {
            a_thread_holds_the_lock_by_its_own_nodes_only(self@, thread, before as int);
        }
        let mut node: u64 = self.base;
        while node < before
            invariant
                self.inv(),
                self@.base <= node <= before <= self@.end(),
                !self@.held_by(thread, node as int),
            decreases before - node,
        {
            let k: usize = self.slot(node);
            if self.nodes[k].is_mine(thread) && !self.nodes[k].can_write() {
                assert(self@.node(node as int).owner == thread);
                return true;
            }
            node = node + 1;
        }
        false
    }
}

} // verus!

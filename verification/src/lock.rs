//! The lock.
use vstd::prelude::*;

use crate::effects::a_thread_holds_the_lock_by_its_own_nodes_only;
use crate::error::{LockResult, PoisonError, TryLockError, TryLockResult};
use crate::model::{lemma_join, lemma_request};
use crate::model::{Access, NodeState, QueueView, ThreadId};
use crate::queue::{Queue, Request, RequestView};

verus! {

/// A first-come-first-served reader-writer lock around a value.
pub struct RwLock<T> {
    queue: Queue,
    poisoned: bool,
    data: T,
}

#[verifier::ext_equal]
pub ghost struct RwLockView<T> {
    pub queue: QueueView,
    pub poisoned: bool,
    pub data: T,
}

/// Shared access to the value of a lock.
pub struct RwLockReadGuard {
    node: u64,
    /// Which lock the access is to.
    lock: Ghost<int>,
}

/// Exclusive access to the value of a lock.
pub struct RwLockWriteGuard {
    node: u64,
    /// Whether the thread was panicking already when it got access.
    panic: bool,
    /// Which lock the access is to.
    lock: Ghost<int>,
}

/// What became of a request for access.
pub enum Acquire<G> {
    /// Access is granted. The lock may be poisoned.
    Ready(LockResult<G>),
    /// The thread has to wait for an older request, and then resume this one.
    Pending(Request),
    /// The thread would have to wait, and holds the lock itself, so the request
    /// has been given up. An older request of its own that only waits counts as
    /// well.
    AlreadyHeld,
}

/// The access inside the result, poisoned or not.
pub open spec fn guard_of<G>(result: LockResult<G>) -> G {
    match result {
        Ok(guard) => guard,
        Err(error) => error.guard,
    }
}

/// The access inside the result of an attempt, poisoned or not.
pub open spec fn try_guard_of<G>(result: TryLockResult<G>) -> Option<G> {
    match result {
        Ok(guard) => Some(guard),
        Err(TryLockError::Poisoned(error)) => Some(error.guard),
        Err(TryLockError::WouldBlock) => None,
    }
}

impl RwLockReadGuard {
    /// The request that was granted.
    pub closed spec fn node(self) -> int {
        self.node as int
    }

    /// Which lock the access is to.
    pub closed spec fn lock(self) -> int {
        self.lock@
    }
}

impl RwLockWriteGuard {
    /// The request that was granted.
    pub closed spec fn node(self) -> int {
        self.node as int
    }

    /// Which lock the access is to.
    pub closed spec fn lock(self) -> int {
        self.lock@
    }

    /// The thread was panicking already when it got access.
    pub closed spec fn panic(self) -> bool {
        self.panic
    }
}

impl<T> RwLockView<T> {
    /// Tells this lock from others.
    pub open spec fn id(self) -> int {
        self.queue.id
    }

    /// Request `i` is for `access`, has been granted, and its access has not been
    /// given up.
    pub open spec fn holds(self, access: Access, i: int) -> bool {
        &&& self.queue.contains(i)
        &&& self.queue.node(i).access == access
        &&& self.queue.node(i).held()
    }
}

impl<T> View for RwLock<T> {
    type V = RwLockView<T>;

    closed spec fn view(&self) -> RwLockView<T> {
        RwLockView { queue: self.queue@, poisoned: self.poisoned, data: self.data }
    }
}

impl<T> RwLock<T> {
    /// The queue is in order.
    pub closed spec fn sound(self) -> bool {
        self.queue.inv()
    }

    /// What every function keeps.
    pub open spec fn inv(self) -> bool {
        self@.queue.inv() && self.sound()
    }

    /// A lock around `t` that nobody holds.
    pub fn new(t: T) -> (lock: RwLock<T>)
        ensures
            lock.inv(),
            lock@.queue.is_new(),
            !lock@.poisoned,
            lock@.data == t,
    {
        RwLock { queue: Queue::new(), poisoned: false, data: t }
    }

    /// How many requests have been made of this lock, counting the one that its
    /// creation stands for. The lock takes requests as long as that number is
    /// less than `u64::MAX`.
    pub fn issued(&self) -> (issued: u64)
        requires
            self.inv(),
        ensures
            issued == self@.queue.end(),
    {
        self.queue.issued()
    }

    /// Hands access out, and says whether the lock is poisoned.
    fn hand_out<G>(&self, guard: G) -> (result: LockResult<G>)
        ensures
            result is Err <==> self@.poisoned,
            guard_of(result) == guard,
    {
        if self.poisoned {
            Err(PoisonError::new(guard))
        } else {
            Ok(guard)
        }
    }

    /// Asks for exclusive access on behalf of `thread`, which is panicking or not.
    ///
    /// The request is granted at once if every older request is finished. If it
    /// has to wait, it keeps its place. A thread that holds the lock does not get
    /// to wait for itself.
    ///
    /// A thread holds the access that it was granted until the access is given up
    /// or handed over to another thread.
    pub fn write(&mut self, thread: ThreadId, panicking: bool) -> (outcome: Acquire<
        RwLockWriteGuard,
    >)
        requires
            old(self).inv(),
            old(self)@.queue.end() < u64::MAX,
        ensures
            final(self).inv(),
            final(self)@.data == old(self)@.data,
            final(self)@.poisoned == old(self)@.poisoned,
            outcome is AlreadyHeld ==> exists|k: int|
                0 <= k < old(self)@.queue.nodes.len() && (#[trigger] old(self)@.queue.nodes[k]).owner == thread && old(self)@.queue.nodes[k].state
                    != NodeState::Free,
            outcome is Pending ==> forall|k: int|
                0 <= k < old(self)@.queue.nodes.len() && (#[trigger] old(self)@.queue.nodes[k]).owner == thread ==> old(self)@.queue.nodes[k].state
                    == NodeState::Free,
            ({
                let q = old(self)@.queue;
                let asked = q.request(thread, Access::Write);
                match outcome {
                    Acquire::Ready(result) => {
                        &&& q.admits(Access::Write)
                        &&& final(self)@.queue == asked
                        &&& result is Err <==> old(self)@.poisoned
                        &&& guard_of(result).lock() == q.id
                        &&& guard_of(result).node() == q.end()
                        &&& guard_of(result).panic() == panicking
                        &&& final(self)@.holds(Access::Write, q.end())
                    },
                    Acquire::Pending(request) => {
                        &&& !q.admits(Access::Write)
                        &&& !q.held_by(thread, q.end())
                        &&& final(self)@.queue == asked
                        &&& request@ == (RequestView {
                            queue: q.id,
                            node: q.end(),
                            access: Access::Write,
                            progress: q.reach(Access::Write, q.end() - 1),
                        })
                        &&& request@.progress is Waiting
                        &&& final(self)@.queue.tracks(request@)
                    },
                    Acquire::AlreadyHeld => {
                        &&& !q.admits(Access::Write)
                        &&& q.held_by(thread, q.end())
                        &&& final(self)@.queue == asked.unlock(q.end())
                    },
                }
            }),
    {
        proof {
            lemma_join(self.queue@, thread, Access::Write);
            lemma_request(self.queue@, thread, Access::Write);
            a_thread_holds_the_lock_by_its_own_nodes_only(self@.queue, thread, self@.queue.end());
        }
        let mut request = self.queue.new_node(thread, Access::Write);
        self.queue.announce(&mut request);
        if self.queue.walk(&mut request) {
            return Acquire::Ready(
                self.hand_out(RwLockWriteGuard { node: request.node(), panic: panicking, lock: Ghost(self@.id()) }),
            );
        }
        if self.queue.is_held_by(thread, request.node()) {
            self.queue.unlock(request.node());
            return Acquire::AlreadyHeld;
        }
        Acquire::Pending(request)
    }

    /// Asks for shared access on behalf of `thread`.
    ///
    /// The request is granted at once if every older request is finished or is
    /// for shared access and waits for no writer. If it has to wait, it keeps its
    /// place. A thread that holds the lock does not get to wait for itself.
    ///
    /// A thread holds the access that it was granted until the access is given up
    /// or handed over to another thread.
    pub fn read(&mut self, thread: ThreadId) -> (outcome: Acquire<RwLockReadGuard>)
        requires
            old(self).inv(),
            old(self)@.queue.end() < u64::MAX,
        ensures
            final(self).inv(),
            final(self)@.data == old(self)@.data,
            final(self)@.poisoned == old(self)@.poisoned,
            outcome is AlreadyHeld ==> exists|k: int|
                0 <= k < old(self)@.queue.nodes.len() && (#[trigger] old(self)@.queue.nodes[k]).owner == thread && old(self)@.queue.nodes[k].state
                    != NodeState::Free,
            outcome is Pending ==> forall|k: int|
                0 <= k < old(self)@.queue.nodes.len() && (#[trigger] old(self)@.queue.nodes[k]).owner == thread ==> old(self)@.queue.nodes[k].state
                    == NodeState::Free,
            ({
                let q = old(self)@.queue;
                let asked = q.request(thread, Access::Read);
                match outcome {
                    Acquire::Ready(result) => {
                        &&& q.admits(Access::Read)
                        &&& final(self)@.queue == asked
                        &&& result is Err <==> old(self)@.poisoned
                        &&& guard_of(result).lock() == q.id
                        &&& guard_of(result).node() == q.end()
                        &&& final(self)@.holds(Access::Read, q.end())
                    },
                    Acquire::Pending(request) => {
                        &&& !q.admits(Access::Read)
                        &&& !q.held_by(thread, q.end())
                        &&& final(self)@.queue == asked
                        &&& request@ == (RequestView {
                            queue: q.id,
                            node: q.end(),
                            access: Access::Read,
                            progress: q.reach(Access::Read, q.end() - 1),
                        })
                        &&& request@.progress is Waiting
                        &&& final(self)@.queue.tracks(request@)
                    },
                    Acquire::AlreadyHeld => {
                        &&& !q.admits(Access::Read)
                        &&& q.held_by(thread, q.end())
                        &&& final(self)@.queue == asked.unlock(q.end())
                    },
                }
            }),
    {
        proof {
            lemma_join(self.queue@, thread, Access::Read);
            lemma_request(self.queue@, thread, Access::Read);
            a_thread_holds_the_lock_by_its_own_nodes_only(self@.queue, thread, self@.queue.end());
        }
        let mut request = self.queue.new_node(thread, Access::Read);
        self.queue.announce(&mut request);
        if self.queue.walk(&mut request) {
            return Acquire::Ready(self.hand_out(RwLockReadGuard { node: request.node(), lock: Ghost(self@.id()) }));
        }
        if self.queue.is_held_by(thread, request.node()) {
            self.queue.unlock(request.node());
            return Acquire::AlreadyHeld;
        }
        Acquire::Pending(request)
    }

    /// Looks again at a request for exclusive access that had to wait.
    pub fn resume_write(&mut self, request: Request, panicking: bool) -> (outcome: Acquire<
        RwLockWriteGuard,
    >)
        requires
            old(self).inv(),
            old(self)@.queue.tracks(request@),
            request@.access == Access::Write,
            request@.progress is Waiting,
        ensures
            final(self).inv(),
            final(self)@.data == old(self)@.data,
            final(self)@.poisoned == old(self)@.poisoned,
            final(self)@.queue == old(self)@.queue.walk(request@.node),
            match outcome {
                Acquire::Ready(result) => {
                    &&& old(self)@.queue.entitled(request@.node)
                    &&& result is Err <==> old(self)@.poisoned
                    &&& guard_of(result).lock() == old(self)@.id()
                    &&& guard_of(result).node() == request@.node
                    &&& guard_of(result).panic() == panicking
                    &&& final(self)@.holds(Access::Write, request@.node)
                },
                Acquire::Pending(again) => {
                    &&& !old(self)@.queue.entitled(request@.node)
                    &&& again@ == (RequestView {
                        progress: final(self)@.queue.node(request@.node).progress,
                        ..request@
                    })
                    &&& again@.progress is Waiting
                    &&& final(self)@.queue.tracks(again@)
                },
                Acquire::AlreadyHeld => false,
            },
    {
        let mut request = request;
        if self.queue.walk(&mut request) {
            Acquire::Ready(
                self.hand_out(RwLockWriteGuard { node: request.node(), panic: panicking, lock: Ghost(self@.id()) }),
            )
        } else {
            Acquire::Pending(request)
        }
    }

    /// Looks again at a request for shared access that had to wait.
    pub fn resume_read(&mut self, request: Request) -> (outcome: Acquire<RwLockReadGuard>)
        requires
            old(self).inv(),
            old(self)@.queue.tracks(request@),
            request@.access == Access::Read,
            request@.progress is Waiting,
        ensures
            final(self).inv(),
            final(self)@.data == old(self)@.data,
            final(self)@.poisoned == old(self)@.poisoned,
            final(self)@.queue == old(self)@.queue.walk(request@.node),
            match outcome {
                Acquire::Ready(result) => {
                    &&& old(self)@.queue.entitled(request@.node)
                    &&& result is Err <==> old(self)@.poisoned
                    &&& guard_of(result).lock() == old(self)@.id()
                    &&& guard_of(result).node() == request@.node
                    &&& final(self)@.holds(Access::Read, request@.node)
                },
                Acquire::Pending(again) => {
                    &&& !old(self)@.queue.entitled(request@.node)
                    &&& again@ == (RequestView {
                        progress: final(self)@.queue.node(request@.node).progress,
                        ..request@
                    })
                    &&& again@.progress is Waiting
                    &&& final(self)@.queue.tracks(again@)
                },
                Acquire::AlreadyHeld => false,
            },
    {
        let mut request = request;
        if self.queue.walk(&mut request) {
            Acquire::Ready(self.hand_out(RwLockReadGuard { node: request.node(), lock: Ghost(self@.id()) }))
        } else {
            Acquire::Pending(request)
        }
    }

    /// Asks for exclusive access on behalf of `thread`, which is panicking or not,
    /// and gives up if it cannot be had at once.
    ///
    /// `contended` says that another thread was taking its place in the queue at
    /// that moment. Then the attempt fails without taking one.
    pub fn try_write(&mut self, thread: ThreadId, contended: bool, panicking: bool) -> (result:
        TryLockResult<RwLockWriteGuard>)
        requires
            old(self).inv(),
            old(self)@.queue.end() < u64::MAX,
        ensures
            final(self).inv(),
            final(self)@.data == old(self)@.data,
            final(self)@.poisoned == old(self)@.poisoned,
            ({
                let q = old(self)@.queue;
                let asked = q.request(thread, Access::Write);
                match try_guard_of(result) {
                    Some(guard) => {
                        &&& !contended
                        &&& q.admits(Access::Write)
                        &&& final(self)@.queue == asked
                        &&& result is Err <==> old(self)@.poisoned
                        &&& guard.lock() == q.id
                        &&& guard.node() == q.end()
                        &&& guard.panic() == panicking
                        &&& final(self)@.holds(Access::Write, q.end())
                    },
                    None => {
                        &&& contended || !q.admits(Access::Write)
                        &&& final(self)@.queue == if contended {
                            q
                        } else {
                            asked.unlock(q.end())
                        }
                    },
                }
            }),
    {
        proof {
            lemma_join(self.queue@, thread, Access::Write);
            lemma_request(self.queue@, thread, Access::Write);
        }
        let mut request = match self.queue.try_new_node(thread, Access::Write, contended) {
            Ok(request) => request,
            Err(_) => return Err(TryLockError::WouldBlock),
        };
        self.queue.announce(&mut request);
        if !self.queue.walk(&mut request) {
            self.queue.unlock(request.node());
            return Err(TryLockError::WouldBlock);
        }
        match self.hand_out(RwLockWriteGuard { node: request.node(), panic: panicking, lock: Ghost(self@.id()) }) {
            Ok(guard) => Ok(guard),
            Err(error) => Err(TryLockError::Poisoned(error)),
        }
    }

    /// Asks for shared access on behalf of `thread`, and gives up if it cannot be
    /// had at once.
    ///
    /// `contended` says that another thread was taking its place in the queue at
    /// that moment. Then the attempt fails without taking one.
    pub fn try_read(&mut self, thread: ThreadId, contended: bool) -> (result: TryLockResult<
        RwLockReadGuard,
    >)
        requires
            old(self).inv(),
            old(self)@.queue.end() < u64::MAX,
        ensures
            final(self).inv(),
            final(self)@.data == old(self)@.data,
            final(self)@.poisoned == old(self)@.poisoned,
            ({
                let q = old(self)@.queue;
                let asked = q.request(thread, Access::Read);
                match try_guard_of(result) {
                    Some(guard) => {
                        &&& !contended
                        &&& q.admits(Access::Read)
                        &&& final(self)@.queue == asked
                        &&& result is Err <==> old(self)@.poisoned
                        &&& guard.lock() == q.id
                        &&& guard.node() == q.end()
                        &&& final(self)@.holds(Access::Read, q.end())
                    },
                    None => {
                        &&& contended || !q.admits(Access::Read)
                        &&& final(self)@.queue == if contended {
                            q
                        } else {
                            asked.unlock(q.end())
                        }
                    },
                }
            }),
    {
        proof {
            lemma_join(self.queue@, thread, Access::Read);
            lemma_request(self.queue@, thread, Access::Read);
        }
        let mut request = match self.queue.try_new_node(thread, Access::Read, contended) {
            Ok(request) => request,
            Err(_) => return Err(TryLockError::WouldBlock),
        };
        self.queue.announce(&mut request);
        if !self.queue.walk(&mut request) {
            self.queue.unlock(request.node());
            return Err(TryLockError::WouldBlock);
        }
        match self.hand_out(RwLockReadGuard { node: request.node(), lock: Ghost(self@.id()) }) {
            Ok(guard) => Ok(guard),
            Err(error) => Err(TryLockError::Poisoned(error)),
        }
    }

    /// Whether a writer panicked while it held the lock.
    pub fn is_poisoned(&self) -> (poisoned: bool)
        ensures
            poisoned == self@.poisoned,
    {
        self.poisoned
    }

    /// Gives the value out of the lock.
    pub fn into_inner(self) -> (result: LockResult<T>)
        ensures
            result is Err <==> self@.poisoned,
            guard_of(result) == self@.data,
    {
        let poisoned = self.poisoned;
        let data = self.data;
        if poisoned {
            Err(PoisonError::new(data))
        } else {
            Ok(data)
        }
    }

    /// The value itself, without any request: whoever has the lock to themselves
    /// need not ask.
    pub fn get_mut(&mut self) -> (result: LockResult<&mut T>)
        requires
            old(self).inv(),
        ensures
            final(self).inv(),
            result is Err <==> old(self)@.poisoned,
            *guard_of(result) == old(self)@.data,
            final(self)@ == (RwLockView { data: *final(guard_of(result)), ..old(self)@ }),
    {
        if self.poisoned {
            Err(PoisonError::new(&mut self.data))
        } else {
            Ok(&mut self.data)
        }
    }

    /// What there is to show of the value to somebody who has attempted to read:
    /// the value if the attempt succeeded, poisoned or not, and nothing if not.
    pub fn debug_data(&self, attempt: &TryLockResult<RwLockReadGuard>) -> (shown: Option<&T>)
        requires
            try_guard_of(*attempt) matches Some(guard) ==> {
                &&& guard.lock() == self@.id()
                &&& self@.holds(Access::Read, guard.node())
            },
        ensures
            shown == match try_guard_of(*attempt) {
                Some(_) => Some(&self@.data),
                None => None,
            },
    {
        match attempt {
            Ok(guard) => Some(guard.deref(self)),
            Err(TryLockError::Poisoned(error)) => Some(error.get_ref().deref(self)),
            Err(TryLockError::WouldBlock) => None,
        }
    }
}

impl RwLockReadGuard {
    /// The value, for reading.
    pub fn deref<'a, T>(&self, lock: &'a RwLock<T>) -> (data: &'a T)
        requires
            self.lock() == lock@.id(),
            lock@.holds(Access::Read, self.node()),
        ensures
            *data == lock@.data,
    {
        &lock.data
    }

    /// Hands the access over to thread `to`: from now on `to` is the thread that
    /// holds the lock.
    pub fn hand_over<T>(&self, lock: &mut RwLock<T>, to: ThreadId)
        requires
            old(lock).inv(),
            self.lock() == old(lock)@.id(),
            old(lock)@.holds(Access::Read, self.node()),
        ensures
            final(lock).inv(),
            final(lock)@ == (RwLockView {
                queue: old(lock)@.queue.hand_over(self.node(), to),
                ..old(lock)@
            }),
            final(lock)@.holds(Access::Read, self.node()),
    {
        lock.queue.hand_over(self.node, to);
    }

    /// Gives shared access up.
    pub fn drop<T>(self, lock: &mut RwLock<T>)
        requires
            old(lock).inv(),
            self.lock() == old(lock)@.id(),
            old(lock)@.holds(Access::Read, self.node()),
        ensures
            final(lock).inv(),
            final(lock)@ == (RwLockView {
                queue: old(lock)@.queue.unlock(self.node()),
                ..old(lock)@
            }),
            final(lock)@.queue.base == old(lock)@.queue.base,
            final(lock)@.queue.nodes[self.node() - old(lock)@.queue.base].state == NodeState::Free,
    {
        lock.queue.unlock(self.node);
    }
}

impl RwLockWriteGuard {
    /// The value, for reading.
    pub fn deref<'a, T>(&self, lock: &'a RwLock<T>) -> (data: &'a T)
        requires
            self.lock() == lock@.id(),
            lock@.holds(Access::Write, self.node()),
        ensures
            *data == lock@.data,
    {
        &lock.data
    }

    /// The value, for writing.
    pub fn deref_mut<'a, T>(&mut self, lock: &'a mut RwLock<T>) -> (data: &'a mut T)
        requires
            old(lock).inv(),
            old(self).lock() == old(lock)@.id(),
            old(lock)@.holds(Access::Write, old(self).node()),
        ensures
            final(lock).inv(),
            *final(self) == *old(self),
            *data == old(lock)@.data,
            final(lock)@ == (RwLockView { data: *final(data), ..old(lock)@ }),
    {
        &mut lock.data
    }

    /// Hands the access over to thread `to`: from now on `to` is the thread that
    /// holds the lock.
    pub fn hand_over<T>(&self, lock: &mut RwLock<T>, to: ThreadId)
        requires
            old(lock).inv(),
            self.lock() == old(lock)@.id(),
            old(lock)@.holds(Access::Write, self.node()),
        ensures
            final(lock).inv(),
            final(lock)@ == (RwLockView {
                queue: old(lock)@.queue.hand_over(self.node(), to),
                ..old(lock)@
            }),
            final(lock)@.holds(Access::Write, self.node()),
    {
        lock.queue.hand_over(self.node, to);
    }

    /// Gives exclusive access up, on a thread that is panicking or not. A panic
    /// that began while the thread had access poisons the lock.
    pub fn drop<T>(self, lock: &mut RwLock<T>, panicking: bool)
        requires
            old(lock).inv(),
            self.lock() == old(lock)@.id(),
            old(lock)@.holds(Access::Write, self.node()),
        ensures
            final(lock).inv(),
            final(lock)@ == (RwLockView {
                queue: old(lock)@.queue.clear(self.node()).unlock(self.node()),
                poisoned: old(lock)@.poisoned || (!self.panic() && panicking),
                data: old(lock)@.data,
            }),
            final(lock)@.queue.base == self.node(),
            final(lock)@.queue.nodes[0].state == NodeState::Free,
    {
        if !self.panic && panicking {
            lock.poisoned = true;
        }
        lock.queue.clear(self.node);
        lock.queue.unlock(self.node);
    }
}

impl<T: Default> Default for RwLock<T> {
    /// A lock around the default value.
    fn default() -> (lock: RwLock<T>)
        ensures
            lock.inv(),
            lock@.queue.is_new(),
            !lock@.poisoned,
            call_ensures(T::default, (), lock@.data),
    {
        RwLock::new(T::default())
    }
}

impl<T> From<T> for RwLock<T> {
    /// A lock around `t`.
    fn from(t: T) -> (lock: RwLock<T>)
        ensures
            lock.inv(),
            lock@.queue.is_new(),
            !lock@.poisoned,
            lock@.data == t,
    {
        RwLock::new(t)
    }
}

impl<T> vstd::std_specs::convert::FromSpecImpl<T> for RwLock<T> {
    open spec fn obeys_from_spec() -> bool {
        false
    }

    open spec fn from_spec(v: T) -> RwLock<T> {
        arbitrary()
    }
}

} // verus!

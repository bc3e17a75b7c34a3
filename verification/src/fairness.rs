//! Nobody waits for ever: what becomes of a request in an endless run of a lock.
use vstd::prelude::*;

use crate::history::{lemma_step_keeps_inv, Event};
use crate::laws::others_leave_a_request_alone;
use crate::lock::RwLockView;
use crate::model::{Access, NodeState, Progress, QueueView};

verus! {

/// What happens to a lock as time goes on, without end. At each moment some thread
/// takes a step, or nothing happens.
pub ghost struct Run<T> {
    pub states: spec_fn(nat) -> RwLockView<T>,
    pub events: spec_fn(nat) -> Option<Event<T>>,
}

impl QueueView {
    /// Request `j` is over: its access or the request itself has been given up.
    pub open spec fn finished(self, j: int) -> bool {
        j < self.base || (self.contains(j) && self.node(j).state == NodeState::Free)
    }

    /// The thread of request `j`, on its way in, can take a step.
    pub open spec fn can_act(self, j: int) -> bool {
        ||| self.can_link(j)
        ||| self.can_allow_read(j)
        ||| self.can_start(j)
        ||| self.can_pass(j)
        ||| self.can_advance(j)
    }

    /// A writer that is not finished came after `j` and not after `i`.
    pub open spec fn writer_between(self, j: int, i: int) -> bool {
        exists|k: int|
            j < k <= i && self.contains(k) && (#[trigger] self.node(k)).access == Access::Write
                && self.node(k).state != NodeState::Free
    }

    /// Request `j` came before `i` and has access, and it is a writer, or a reader
    /// that a writer waits for which `i` has to wait for, or which is `i`.
    pub open spec fn in_the_way(self, i: int, j: int) -> bool {
        &&& self.contains(j)
        &&& j < i
        &&& self.node(j).held()
        &&& self.node(j).access == Access::Write || self.writer_between(j, i)
    }

    /// Request `j` will never again keep `i` out.
    pub open spec fn settled(self, i: int, j: int) -> bool {
        ||| self.finished(j)
        ||| {
            &&& self.contains(j)
            &&& self.node(j).access == Access::Read
            &&& self.node(j).state == NodeState::Read
            &&& !self.writer_between(j, i)
        }
    }

    pub open spec fn all_settled(self, i: int, before: int) -> bool {
        forall|j: int| j < before ==> #[trigger] self.settled(i, j)
    }

    /// How many steps request `j` is away from access, at most.
    pub open spec fn distance(self, j: int) -> nat {
        if self.finished(j) {
            0
        } else {
            match self.node(j).progress {
                Progress::Enqueued { pred } => (2 * j + 6) as nat,
                Progress::Linked => if self.node(j).state == NodeState::Wait {
                    (2 * j + 5) as nat
                } else {
                    (2 * j + 4) as nat
                },
                Progress::Waiting { current } => (2 * current + 2) as nat,
                Progress::Passed { current } => (2 * current + 1) as nat,
                Progress::Granted => 0,
            }
        }
    }
}

impl<T> Run<T> {
    pub open spec fn at(self, n: nat) -> RwLockView<T> {
        (self.states)(n)
    }

    pub open spec fn event(self, n: nat) -> Option<Event<T>> {
        (self.events)(n)
    }

    /// What happens at moment `n` leads from the one state to the next.
    pub open spec fn steps(self, n: nat) -> bool {
        match self.event(n) {
            Some(e) => self.at(n).enabled(e) && self.at(n + 1) == self.at(n).after(e),
            None => self.at(n + 1) == self.at(n),
        }
    }

    pub open spec fn legal(self) -> bool {
        &&& self.at(0).queue.inv()
        &&& forall|n: nat| #[trigger] self.steps(n)
    }

    /// The thread of request `j` takes a step at moment `n`.
    pub open spec fn acts(self, n: nat, j: int) -> bool {
        self.event(n) matches Some(e) && e.subject() == Some(j)
    }

    /// No thread of a request up to `i` stops for ever while it can go on.
    pub open spec fn threads_go_on(self, i: int) -> bool {
        forall|n: nat, j: int|
            #![trigger self.at(n).queue.can_act(j)]
            j <= i && self.at(n).queue.can_act(j) ==> exists|m: nat| n <= m && #[trigger] self.acts(m, j)
    }

    /// Whatever access is in the way of `i` does not remain so for ever.
    pub open spec fn way_gets_free(self, i: int) -> bool {
        forall|n: nat, j: int|
            #![trigger self.at(n).queue.in_the_way(i, j)]
            self.at(n).queue.in_the_way(i, j) ==> exists|m: nat|
                n <= m && !(#[trigger] self.at(m)).queue.in_the_way(i, j)
    }

    /// Request `i` is not given up while it waits.
    pub open spec fn waits_patiently(self, i: int) -> bool {
        forall|n: nat|
            #[trigger] self.event(n) == Some(Event::<T>::Unlock { i }) ==> self.at(n).queue.node(
                i,
            ).progress is Granted
    }

    /// Request `j` gives its access up at moment `n`.
    pub open spec fn releases(self, n: nat, j: int) -> bool {
        self.event(n) == Some(Event::<T>::Unlock { i: j })
    }
}

proof fn lemma_run_keeps_inv<T>(run: Run<T>, n: nat)
    requires
        run.legal(),
    ensures
        run.at(n).queue.inv(),
    decreases n,
{
    if n > 0 {
        let p = (n - 1) as nat;
        lemma_run_keeps_inv(run, p);
        assert(run.steps(p));
        if let Some(e) = run.event(p) {
            lemma_step_keeps_inv(run.at(p), e);
        }
    }
}

/// What no step of any thread undoes.
proof fn lemma_step_is_steady<T>(v: RwLockView<T>, e: Event<T>)
    requires
        v.queue.inv(),
        v.enabled(e),
    ensures
        v.queue.base <= v.after(e).queue.base,
        v.queue.end() <= v.after(e).queue.end(),
        forall|j: int|
            v.queue.contains(j) && v.after(e).queue.contains(j) ==> {
                let (n, m) = (v.queue.node(j), (#[trigger] v.after(e).queue.node(j)));
                &&& n.access == m.access
                &&& n.state == NodeState::Free ==> m.state == NodeState::Free
                &&& n.state == NodeState::Read ==> m.state != NodeState::Wait
                &&& n.progress is Granted ==> m.progress is Granted
            },
{
}

proof fn lemma_step_keeps_settled<T>(v: RwLockView<T>, e: Event<T>, i: int, j: int)
    requires
        v.queue.inv(),
        v.enabled(e),
        i < v.queue.end(),
        j <= i,
        v.queue.settled(i, j),
    ensures
        v.after(e).queue.settled(i, j),
{
    let q = v.queue;
    let r = v.after(e).queue;
    lemma_step_is_steady(v, e);
    lemma_step_keeps_inv(v, e);
    if j >= r.base {
        assert(r.contains(j) && q.contains(j));
        assert(r.node(j).access == q.node(j).access);
        if !q.finished(j) {
            if r.writer_between(j, i) {
                let k = choose|k: int|
                    j < k <= i && r.contains(k) && (#[trigger] r.node(k)).access == Access::Write
                        && r.node(k).state != NodeState::Free;
                assert(q.contains(k) && q.node(k).access == Access::Write);
                assert(q.writer_between(j, i));
            }
        }
    }
}

proof fn lemma_run_is_steady<T>(run: Run<T>, n: nat, m: nat)
    requires
        run.legal(),
        n <= m,
    ensures
        run.at(n).queue.base <= run.at(m).queue.base,
        run.at(n).queue.end() <= run.at(m).queue.end(),
        forall|j: int|
            run.at(n).queue.contains(j) && run.at(m).queue.contains(j) ==> {
                let (a, b) = (run.at(n).queue.node(j), (#[trigger] run.at(m).queue.node(j)));
                &&& a.access == b.access
                &&& a.state == NodeState::Free ==> b.state == NodeState::Free
                &&& a.progress is Granted ==> b.progress is Granted
            },
    decreases m,
{
    if n < m {
        let p = (m - 1) as nat;
        lemma_run_is_steady(run, n, p);
        lemma_run_keeps_inv(run, p);
        assert(run.steps(p));
        if let Some(e) = run.event(p) {
            lemma_step_is_steady(run.at(p), e);
            let (a, b, c) = (run.at(n).queue, run.at(p).queue, run.at(m).queue);
            assert forall|j: int| a.contains(j) && c.contains(j) implies {
                let (x, y) = (a.node(j), (#[trigger] c.node(j)));
                &&& x.access == y.access
                &&& x.state == NodeState::Free ==> y.state == NodeState::Free
                &&& x.progress is Granted ==> y.progress is Granted
            } by {
                assert(b.contains(j));
                assert(b.node(j).access == a.node(j).access);
            }
        }
    }
}

proof fn lemma_run_keeps_settled<T>(run: Run<T>, i: int, before: int, n: nat, m: nat)
    requires
        run.legal(),
        n <= m,
        i < run.at(n).queue.end(),
        before <= i + 1,
        run.at(n).queue.all_settled(i, before),
    ensures
        run.at(m).queue.all_settled(i, before),
    decreases m,
{
    if n < m {
        let p = (m - 1) as nat;
        lemma_run_keeps_settled(run, i, before, n, p);
        lemma_run_keeps_inv(run, p);
        lemma_run_is_steady(run, n, p);
        assert(run.steps(p));
        if let Some(e) = run.event(p) {
            assert forall|j: int| j < before implies #[trigger] run.at(m).queue.settled(i, j) by {
                assert(run.at(p).queue.settled(i, j));
                lemma_step_keeps_settled(run.at(p), e, i, j);
            }
        } else {
            assert forall|j: int| j < before implies #[trigger] run.at(m).queue.settled(i, j) by {
                assert(run.at(p).queue.settled(i, j));
            }
        }
    }
}

/// No step takes a request further away from access, and the steps of its own
/// thread bring it nearer.
proof fn lemma_step_comes_nearer<T>(v: RwLockView<T>, e: Event<T>, j: int)
    requires
        v.queue.inv(),
        v.enabled(e),
        0 <= j < v.queue.end(),
    ensures
        v.after(e).queue.distance(j) <= v.queue.distance(j),
        e.subject() == Some(j) && v.queue.distance(j) > 0 ==> v.after(e).queue.distance(j)
            < v.queue.distance(j),
{
    let q = v.queue;
    let r = v.after(e).queue;
    lemma_step_is_steady(v, e);
    lemma_step_keeps_inv(v, e);
    if q.finished(j) {
        if r.contains(j) {
            assert(r.node(j).state == NodeState::Free);
        }
    } else {
        assert(q.node_inv(j));
        if e.subject() != Some(j) {
            others_leave_a_request_alone(v, e, j);
        } else if q.node(j).progress is Passed {
            let current = q.node(j).progress->Passed_current as int;
            assert(q.node_inv(current));
        }
    }
}

proof fn lemma_run_comes_nearer<T>(run: Run<T>, j: int, n: nat, m: nat)
    requires
        run.legal(),
        n <= m,
        0 <= j < run.at(n).queue.end(),
    ensures
        run.at(m).queue.distance(j) <= run.at(n).queue.distance(j),
    decreases m,
{
    if n < m {
        let p = (m - 1) as nat;
        lemma_run_comes_nearer(run, j, n, p);
        lemma_run_keeps_inv(run, p);
        lemma_run_is_steady(run, n, p);
        assert(run.steps(p));
        if let Some(e) = run.event(p) {
            lemma_step_comes_nearer(run.at(p), e, j);
        }
    }
}

/// Once every older request is settled, a request that is on its way in can go on.
proof fn lemma_can_act_when_settled(q: QueueView, i: int, j: int)
    requires
        q.inv(),
        j <= i,
        q.contains(j),
        q.distance(j) > 0,
        q.all_settled(i, j),
    ensures
        q.can_act(j),
{
    assert(q.node_inv(j));
    if let Progress::Waiting { current } = q.node(j).progress {
        let c = current as int;
        assert(q.settled(i, c));
        assert(q.node_inv(c));
        if q.node(j).access == Access::Write {
            assert(q.writer_between(c, i));
        }
    }
}

/// A request comes in, or is given up, once every older one is settled.
proof fn lemma_comes_in<T>(run: Run<T>, i: int, j: int, n: nat) -> (m: nat)
    requires
        run.legal(),
        run.threads_go_on(i),
        0 <= j <= i,
        i < run.at(n).queue.end(),
        run.at(n).queue.all_settled(i, j),
    ensures
        n <= m,
        run.at(m).queue.distance(j) == 0,
    decreases run.at(n).queue.distance(j),
{
    let q = run.at(n).queue;
    lemma_run_keeps_inv(run, n);
    if q.distance(j) == 0 {
        n
    } else {
        lemma_can_act_when_settled(q, i, j);
        let m = choose|m: nat| n <= m && #[trigger] run.acts(m, j);
        lemma_run_keeps_inv(run, m);
        lemma_run_is_steady(run, n, m);
        lemma_run_comes_nearer(run, j, n, m);
        assert(run.steps(m));
        lemma_step_comes_nearer(run.at(m), run.event(m)->0, j);
        lemma_run_keeps_settled(run, i, j, n, m + 1);
        lemma_run_is_steady(run, n, m + 1);
        lemma_comes_in(run, i, j, m + 1)
    }
}

/// A request is settled some time after every older one is.
proof fn lemma_settles<T>(run: Run<T>, i: int, j: int, n: nat) -> (m: nat)
    requires
        run.legal(),
        run.threads_go_on(i),
        run.way_gets_free(i),
        0 <= j < i,
        i < run.at(n).queue.end(),
        run.at(n).queue.all_settled(i, j),
    ensures
        n <= m,
        run.at(m).queue.settled(i, j),
{
    let a = lemma_comes_in(run, i, j, n);
    let q = run.at(a).queue;
    lemma_run_keeps_inv(run, a);
    lemma_run_is_steady(run, n, a);
    if q.finished(j) {
        a
    } else {
        assert(q.contains(j));
        assert(q.node_inv(j));
        if !q.in_the_way(i, j) {
            a
        } else {
            let b = choose|b: nat| a <= b && !(#[trigger] run.at(b)).queue.in_the_way(i, j);
            let r = run.at(b).queue;
            lemma_run_keeps_inv(run, b);
            lemma_run_is_steady(run, a, b);
            if !r.finished(j) {
                assert(r.contains(j));
                assert(r.node(j).progress is Granted);
                assert(r.node_inv(j));
            }
            b
        }
    }
}

/// All requests before `before` are settled some day.
proof fn lemma_all_settle<T>(run: Run<T>, i: int, before: int, n: nat) -> (m: nat)
    requires
        run.legal(),
        run.threads_go_on(i),
        run.way_gets_free(i),
        before <= i,
        i < run.at(n).queue.end(),
    ensures
        n <= m,
        run.at(m).queue.all_settled(i, before),
    decreases before,
{
    if before <= 0 {
        lemma_run_keeps_inv(run, n);
        n
    } else {
        let a = lemma_all_settle(run, i, before - 1, n);
        lemma_run_is_steady(run, n, a);
        let b = lemma_settles(run, i, before - 1, a);
        lemma_run_keeps_settled(run, i, before - 1, a, b);
        assert forall|j: int| j < before implies #[trigger] run.at(b).queue.settled(i, j) by {}
        b
    }
}

/// No request starves. Let every thread that came no later than `i` go on as long
/// as it can, let every access that is in the way of `i` be out of the way some
/// day, and let `i` not be given up. Then `i` gets access, however many requests
/// come later.
pub proof fn no_request_starves<T>(run: Run<T>, i: int, n: nat) -> (m: nat)
    requires
        run.legal(),
        run.threads_go_on(i),
        run.way_gets_free(i),
        run.waits_patiently(i),
        run.at(n).queue.contains(i),
        run.at(n).queue.node(i).state != NodeState::Free,
    ensures
        n <= m,
        run.at(m).queue.contains(i),
        run.at(m).queue.node(i).progress is Granted,
{
    lemma_run_keeps_inv(run, n);
    let a = lemma_all_settle(run, i, i, n);
    lemma_run_is_steady(run, n, a);
    let b = lemma_comes_in(run, i, i, a);
    lemma_granted_or_waiting(run, i, n, b)
}

/// A request that is not given up and is no longer on its way has been granted.
proof fn lemma_granted_or_waiting<T>(run: Run<T>, i: int, n: nat, b: nat) -> (m: nat)
    requires
        run.legal(),
        run.waits_patiently(i),
        n <= b,
        run.at(n).queue.contains(i),
        run.at(n).queue.node(i).state != NodeState::Free,
        run.at(b).queue.distance(i) == 0,
    ensures
        n <= m,
        run.at(m).queue.contains(i),
        run.at(m).queue.node(i).progress is Granted,
    decreases b - n,
{
    lemma_run_keeps_inv(run, n);
    let q = run.at(n).queue;
    if q.node(i).progress is Granted {
        n
    } else {
        assert(q.node_inv(i));
        assert(run.steps(n));
        assert(n < b);
        if let Some(e) = run.event(n) {
            if e.subject() != Some(i) {
                others_leave_a_request_alone(run.at(n), e, i);
            }
        }
        lemma_granted_or_waiting(run, i, n + 1, b)
    }
}

/// A writer does not starve: if threads go on and every access that was granted to
/// an older request is given up some day, the writer gets access, however many
/// requests come later.
pub proof fn writer_does_not_starve<T>(run: Run<T>, i: int, n: nat) -> (m: nat)
    requires
        run.legal(),
        run.threads_go_on(i),
        forall|k: nat, j: int|
            #![trigger run.at(k).queue.node(j)]
            j < i && run.at(k).queue.contains(j) && run.at(k).queue.node(j).held() ==> exists|m: nat|
                k <= m && #[trigger] run.releases(m, j),
        run.waits_patiently(i),
        run.at(n).queue.contains(i),
        run.at(n).queue.node(i).access == Access::Write,
        run.at(n).queue.node(i).state != NodeState::Free,
    ensures
        n <= m,
        run.at(m).queue.contains(i),
        run.at(m).queue.node(i).progress is Granted,
{
    assert forall|k: nat, j: int|
        #![trigger run.at(k).queue.in_the_way(i, j)]
        run.at(k).queue.in_the_way(i, j) implies exists|m: nat|
        k <= m && !(#[trigger] run.at(m)).queue.in_the_way(i, j) by {
        assert(run.at(k).queue.node(j).held());
        let m = choose|m: nat| k <= m && #[trigger] run.releases(m, j);
        lemma_released_is_out_of_the_way(run, i, j, m);
    }
    no_request_starves(run, i, n)
}

/// A reader does not starve: if threads go on, and every older writer and every
/// reader that came before an older writer which is not finished gives its access
/// up some day, the reader gets access, however many requests come later. It need
/// not wait for any other reader.
pub proof fn reader_does_not_starve<T>(run: Run<T>, i: int, n: nat) -> (m: nat)
    requires
        run.legal(),
        run.threads_go_on(i),
        forall|k: nat, j: int|
            #![trigger run.at(k).queue.node(j)]
            j < i && run.at(k).queue.contains(j) && run.at(k).queue.node(j).held() && (run.at(
                k,
            ).queue.node(j).access == Access::Write || run.at(k).queue.writer_between(j, i - 1))
                ==> exists|m: nat| k <= m && #[trigger] run.releases(m, j),
        run.waits_patiently(i),
        run.at(n).queue.contains(i),
        run.at(n).queue.node(i).access == Access::Read,
        run.at(n).queue.node(i).state != NodeState::Free,
    ensures
        n <= m,
        run.at(m).queue.contains(i),
        run.at(m).queue.node(i).progress is Granted,
{
    assert forall|k: nat, j: int|
        #![trigger run.at(k).queue.in_the_way(i, j)]
        run.at(k).queue.in_the_way(i, j) implies exists|m: nat|
        k <= m && !(#[trigger] run.at(m)).queue.in_the_way(i, j) by {
        let q = run.at(k).queue;
        assert(q.node(j).held());
        if q.node(j).access == Access::Write || q.writer_between(j, i - 1) {
            let m = choose|m: nat| k <= m && #[trigger] run.releases(m, j);
            lemma_released_is_out_of_the_way(run, i, j, m);
        } else {
            let w = choose|w: int|
                j < w <= i && q.contains(w) && (#[trigger] q.node(w)).access == Access::Write
                    && q.node(w).state != NodeState::Free;
            assert(w == i);
            if k <= n {
                lemma_run_is_steady(run, k, n);
            } else {
                lemma_run_is_steady(run, n, k);
            }
            assert(false);
        }
    }
    no_request_starves(run, i, n)
}

proof fn lemma_released_is_out_of_the_way<T>(run: Run<T>, i: int, j: int, m: nat)
    requires
        run.legal(),
        run.releases(m, j),
    ensures
        !run.at(m + 1).queue.in_the_way(i, j),
{
    assert(run.steps(m));
}

} // verus!

# qlock

A reader-writer lock that is first come, first served: threads get access in the
order in which they asked for it. The names are those of `std::sync::RwLock`, and
poisoning works the same way.

If a server is to execute commands in the order in which it received them, this is
the lock for the data that the commands work on. With a lock that is not fair, a
command that came after a deadline may get in before one that came in time.

## Layout

* `src/` is the lock, verified with Verus. Its functions change the state of a lock
  through `&mut` references, never block and never panic.
  * `lock.rs`: `RwLock`, its guards, and what acquiring access reports.
  * `queue.rs`: the queue of requests, one function per indivisible step.
  * `sticky.rs`: the slot by which a request points to the one before it.
  * `error.rs`: poisoning and failed attempts.
  * `model.rs`: the queue as mathematics, and the invariant that every step keeps.
  * `history.rs`: all sequences of steps that threads can take.
  * `laws.rs`, `sticky_laws.rs`: mutual exclusion, the order of access, poisoning,
    and the other laws, for all of these sequences.
  * `fairness.rs`: endless runs, in which no request starves.
* `tests/` are tests of the library.
* `app/` is the lock for threads: it shares the state of a lock between threads,
  yields while a thread has to wait, and gives access to the value through guards
  that release it when dropped.

## How it works

Every request is a node in a queue. A node is in one of three states: wait for me,
readers need not wait for me, nobody needs to wait for me. A thread takes a place at
the end, links its node to the one before, and walks to older nodes. It stops at the
first one that it has to wait for, and is in when there is none left.

A thread that already holds the lock is not made to wait for itself: such a request
is given up, and the thread is told. Access can be handed over to another thread,
which then is the one that holds the lock.

use qlock::{
    Acquire, LockResult, PoisonError, Request, RwLock, RwLockReadGuard, RwLockWriteGuard,
    TryLockError, TryLockResult,
};

fn ready<G>(outcome: Acquire<G>) -> LockResult<G> {
    match outcome {
        Acquire::Ready(result) => result,
        Acquire::Pending(_) => panic!("the request has to wait"),
        Acquire::AlreadyHeld => panic!("the thread has the lock already"),
    }
}

fn clean<G>(outcome: Acquire<G>) -> G {
    match ready(outcome) {
        Ok(guard) => guard,
        Err(_) => panic!("the lock is poisoned"),
    }
}

fn pending<G>(outcome: Acquire<G>) -> Request {
    match outcome {
        Acquire::Pending(request) => request,
        _ => panic!("the request does not have to wait"),
    }
}

fn poisoned<G>(outcome: Acquire<G>) -> G {
    match ready(outcome) {
        Ok(_) => panic!("the lock is not poisoned"),
        Err(error) => error.into_inner(),
    }
}

fn granted<G>(result: TryLockResult<G>) -> G {
    match result {
        Ok(guard) => guard,
        Err(_) => panic!("the attempt failed"),
    }
}

fn would_block<G>(result: &TryLockResult<G>) -> bool {
    matches!(result, Err(TryLockError::WouldBlock))
}

#[test]
fn many_readers_then_one_writer() {
    let mut lock = RwLock::new(5);
    {
        let r1 = clean(lock.read(1));
        let r2 = clean(lock.read(1));
        assert_eq!(*r1.deref(&lock), 5);
        assert_eq!(*r2.deref(&lock), 5);
        r1.drop(&mut lock);
        r2.drop(&mut lock);
    }
    {
        let mut w = clean(lock.write(1, false));
        *w.deref_mut(&mut lock) += 1;
        assert_eq!(*w.deref(&lock), 6);
        w.drop(&mut lock, false);
    }
}

#[test]
fn no_reading_while_writing() {
    let mut lock = RwLock::new(1);
    let mut n = clean(lock.write(1, false));
    *n.deref_mut(&mut lock) = 2;
    assert!(lock.try_read(1, false).is_err());
    assert!(would_block(&lock.try_write(2, false, false)));
    n.drop(&mut lock, false);
    let r = granted(lock.try_read(1, false));
    assert_eq!(*r.deref(&lock), 2);
}

#[test]
fn another_thread_reads_too() {
    let mut lock = RwLock::new(1);
    let n = clean(lock.read(1));
    assert_eq!(*n.deref(&lock), 1);
    let r = ready(lock.read(2));
    assert!(r.is_ok());
}

#[test]
fn no_writing_while_reading() {
    let mut lock = RwLock::new(1);
    let n = clean(lock.read(1));
    assert_eq!(*n.deref(&lock), 1);
    assert!(lock.try_write(1, false, false).is_err());
}

#[test]
fn unheld_lock_is_read_at_once() {
    let mut lock = RwLock::new(1);
    match lock.try_read(1, false) {
        Ok(n) => assert_eq!(*n.deref(&lock), 1),
        Err(_) => unreachable!(),
    };
}

#[test]
fn panicking_writer_poisons() {
    let mut lock = RwLock::new(0);
    let guard = clean(lock.write(1, false));
    assert!(!lock.is_poisoned());
    guard.drop(&mut lock, true);
    assert_eq!(lock.is_poisoned(), true);
    let w = poisoned(lock.write(1, false));
    assert!(would_block(&lock.try_read(2, false)));
    w.drop(&mut lock, false);
    let r = poisoned(lock.read(1));
    assert!(would_block(&lock.try_write(2, false, false)));
    r.drop(&mut lock);
    match lock.try_write(1, false, false) {
        Err(TryLockError::Poisoned(error)) => error.into_inner().drop(&mut lock, false),
        _ => panic!("not reported as poisoned"),
    }
    match lock.try_read(1, false) {
        Err(TryLockError::Poisoned(error)) => {
            assert_eq!(*error.get_ref().deref(&lock), 0);
            error.into_inner().drop(&mut lock);
        }
        _ => panic!("not reported as poisoned"),
    }
    assert!(lock.is_poisoned());
}

#[test]
fn reader_never_poisons() {
    let mut lock = RwLock::new(0);
    let r = clean(lock.read(1));
    r.drop(&mut lock);
    assert!(!lock.is_poisoned());
    assert!(ready(lock.write(1, false)).is_ok());
}

#[test]
fn writer_that_came_in_panicking_does_not_poison() {
    let mut lock = RwLock::new(0);
    let w = clean(lock.write(1, true));
    w.drop(&mut lock, true);
    assert!(!lock.is_poisoned());
    let w = granted(lock.try_write(1, false, true));
    w.drop(&mut lock, true);
    assert!(!lock.is_poisoned());
    let w = granted(lock.try_write(1, false, false));
    w.drop(&mut lock, true);
    assert!(lock.is_poisoned());
}

#[test]
fn poison_is_reported_to_whoever_waited() {
    let mut lock = RwLock::new(0);
    let w = clean(lock.write(1, false));
    let next = pending(lock.read(2));
    let last = pending(lock.write(3, false));
    w.drop(&mut lock, true);
    let r = poisoned(lock.resume_read(next));
    r.drop(&mut lock);
    let w = poisoned(lock.resume_write(last, false));
    w.drop(&mut lock, false);
}

#[test]
fn value_comes_out_as_written() {
    let mut lock = RwLock::new(String::new());
    {
        let mut s = clean(lock.write(1, false));
        *s.deref_mut(&mut lock) = "modified".to_owned();
        s.drop(&mut lock, false);
    }
    match lock.into_inner() {
        Ok(s) => assert_eq!(s, "modified"),
        Err(_) => panic!("the lock is poisoned"),
    }
}

#[test]
fn poisoned_value_comes_out_as_an_error() {
    let mut lock = RwLock::new(4);
    clean(lock.write(1, false)).drop(&mut lock, true);
    match lock.get_mut() {
        Ok(_) => panic!("not reported as poisoned"),
        Err(error) => *error.into_inner() += 1,
    }
    match lock.into_inner() {
        Ok(_) => panic!("not reported as poisoned"),
        Err(error) => assert_eq!(error.into_inner(), 5),
    }
}

#[test]
fn value_is_reached_without_a_request() {
    let mut lock = RwLock::new(0);
    match lock.get_mut() {
        Ok(value) => *value = 10,
        Err(_) => panic!("the lock is poisoned"),
    }
    assert_eq!(lock.issued(), 1);
    let r = clean(lock.read(1));
    assert_eq!(*r.deref(&lock), 10);
}

#[test]
fn default_and_from() {
    let lock: RwLock<u8> = RwLock::default();
    assert!(!lock.is_poisoned());
    assert!(matches!(lock.into_inner(), Ok(0)));
    let mut lock: RwLock<u8> = RwLock::from(3);
    let r = clean(lock.read(1));
    assert_eq!(*r.deref(&lock), 3);
}

#[test]
fn later_reader_waits_for_waiting_writer() {
    let mut lock = RwLock::new(0);
    let a = clean(lock.read(1));
    let b = clean(lock.read(2));
    let c = pending(lock.write(3, false));
    let d = pending(lock.read(4));
    let d = pending(lock.resume_read(d));
    a.drop(&mut lock);
    let c = pending(lock.resume_write(c, false));
    let d = pending(lock.resume_read(d));
    b.drop(&mut lock);
    let d = pending(lock.resume_read(d));
    let c = clean(lock.resume_write(c, false));
    let d = pending(lock.resume_read(d));
    c.drop(&mut lock, false);
    let d = clean(lock.resume_read(d));
    d.drop(&mut lock);
    assert!(lock.try_write(1, false, false).is_ok());
}

#[test]
fn commands_are_executed_in_the_order_received() {
    let mut lock: RwLock<Vec<&str>> = RwLock::new(Vec::new());
    let first = clean(lock.write(1, false));
    let second = pending(lock.write(2, false));
    let deadline = pending(lock.write(3, false));
    let late = pending(lock.write(4, false));
    let late = pending(lock.resume_write(late, false));
    let deadline = pending(lock.resume_write(deadline, false));
    let second = pending(lock.resume_write(second, false));
    let mut guard = first;
    guard.deref_mut(&mut lock).push("A");
    guard.drop(&mut lock, false);
    let late = pending(lock.resume_write(late, false));
    let mut guard = clean(lock.resume_write(second, false));
    guard.deref_mut(&mut lock).push("B");
    guard.drop(&mut lock, false);
    let late = pending(lock.resume_write(late, false));
    let mut guard = clean(lock.resume_write(deadline, false));
    guard.deref_mut(&mut lock).push("deadline");
    guard.drop(&mut lock, false);
    let mut guard = clean(lock.resume_write(late, false));
    guard.deref_mut(&mut lock).push("C");
    guard.drop(&mut lock, false);
    match lock.into_inner() {
        Ok(order) => assert_eq!(order, vec!["A", "B", "deadline", "C"]),
        Err(_) => panic!("the lock is poisoned"),
    }
}

#[test]
fn readers_behind_a_writer_enter_together() {
    let mut lock = RwLock::new(0);
    let w = clean(lock.write(1, false));
    let a = pending(lock.read(2));
    let b = pending(lock.read(3));
    w.drop(&mut lock, false);
    let b = clean(lock.resume_read(b));
    let a = clean(lock.resume_read(a));
    assert!(would_block(&lock.try_write(4, false, false)));
    a.drop(&mut lock);
    b.drop(&mut lock);
    assert!(lock.try_write(4, false, false).is_ok());
}

#[test]
fn thread_cannot_write_while_it_writes() {
    let mut lock = RwLock::new(0);
    let w = clean(lock.write(1, false));
    assert!(matches!(lock.write(1, false), Acquire::AlreadyHeld));
    assert!(matches!(lock.read(1), Acquire::AlreadyHeld));
    let other = pending(lock.write(2, false));
    assert!(matches!(lock.write(1, false), Acquire::AlreadyHeld));
    assert!(matches!(lock.read(1), Acquire::AlreadyHeld));
    w.drop(&mut lock, false);
    let w = clean(lock.resume_write(other, false));
    w.drop(&mut lock, false);
    assert!(!lock.is_poisoned());
    assert!(ready(lock.write(1, false)).is_ok());
}

#[test]
fn thread_cannot_write_while_it_reads() {
    let mut lock = RwLock::new(0);
    let mine = clean(lock.read(1));
    assert!(matches!(lock.write(1, false), Acquire::AlreadyHeld));
    let other = clean(lock.read(2));
    assert!(matches!(lock.write(1, false), Acquire::AlreadyHeld));
    mine.drop(&mut lock);
    let mine = pending(lock.write(1, false));
    other.drop(&mut lock);
    assert!(ready(lock.resume_write(mine, false)).is_ok());
}

#[test]
fn thread_cannot_wait_for_a_writer_that_waits_for_it() {
    let mut lock = RwLock::new(0);
    let mine = clean(lock.read(1));
    let again = clean(lock.read(1));
    let writer = pending(lock.write(2, false));
    assert!(matches!(lock.read(1), Acquire::AlreadyHeld));
    mine.drop(&mut lock);
    again.drop(&mut lock);
    assert!(ready(lock.resume_write(writer, false)).is_ok());
}

#[test]
fn thread_may_wait_for_access_that_it_handed_over() {
    let mut lock = RwLock::new(0);
    let r = clean(lock.read(1));
    r.hand_over(&mut lock, 2);
    let mine = pending(lock.write(1, false));
    let mine = pending(lock.resume_write(mine, false));
    r.drop(&mut lock);
    let w = clean(lock.resume_write(mine, false));
    w.hand_over(&mut lock, 2);
    let mine = pending(lock.read(1));
    w.drop(&mut lock, false);
    assert!(ready(lock.resume_read(mine)).is_ok());
}

#[test]
fn thread_holds_access_that_was_handed_over_to_it() {
    let mut lock = RwLock::new(0);
    let w = clean(lock.write(1, false));
    w.hand_over(&mut lock, 2);
    assert!(matches!(lock.write(2, false), Acquire::AlreadyHeld));
    assert!(matches!(lock.read(2), Acquire::AlreadyHeld));
    w.drop(&mut lock, false);
    let r = clean(lock.read(1));
    r.hand_over(&mut lock, 2);
    assert!(matches!(lock.write(2, false), Acquire::AlreadyHeld));
    assert!(ready(lock.read(2)).is_ok());
}

#[test]
fn waiting_request_of_the_thread_counts_as_its_own() {
    let mut lock = RwLock::new(0);
    let r = clean(lock.read(1));
    let w = pending(lock.write(2, false));
    assert!(matches!(lock.read(2), Acquire::AlreadyHeld));
    r.drop(&mut lock);
    assert!(ready(lock.resume_write(w, false)).is_ok());
}

#[test]
fn writer_gets_in_however_many_come_later() {
    let mut lock = RwLock::new(0);
    let r = clean(lock.read(1));
    let w = pending(lock.write(2, false));
    let mut later = Vec::new();
    for thread in 3..50 {
        later.push(pending(lock.read(thread)));
        assert!(would_block(&lock.try_read(100, false)));
    }
    r.drop(&mut lock);
    let w = clean(lock.resume_write(w, false));
    w.drop(&mut lock, false);
    for request in later {
        clean(lock.resume_read(request)).drop(&mut lock);
    }
}

#[test]
fn reader_need_not_wait_for_readers_without_a_writer_behind() {
    let mut lock = RwLock::new(0);
    let w = clean(lock.write(1, false));
    let long = pending(lock.read(2));
    let short = pending(lock.read(3));
    w.drop(&mut lock, false);
    let long = clean(lock.resume_read(long));
    let short = clean(lock.resume_read(short));
    short.drop(&mut lock);
    assert!(ready(lock.read(4)).is_ok());
    long.drop(&mut lock);
}

#[test]
fn contended_attempt_would_block() {
    let mut lock = RwLock::new(0);
    assert!(would_block(&lock.try_read(1, true)));
    assert!(would_block(&lock.try_write(1, true, false)));
    assert_eq!(lock.issued(), 1);
    assert!(lock.try_write(1, false, false).is_ok());
}

#[test]
fn failed_attempts_leave_no_trace() {
    let mut lock = RwLock::new(0);
    let r = clean(lock.read(1));
    assert!(would_block(&lock.try_write(2, false, false)));
    let s = granted(lock.try_read(3, false));
    s.drop(&mut lock);
    let w = pending(lock.write(4, false));
    assert!(would_block(&lock.try_read(5, false)));
    assert!(would_block(&lock.try_write(5, false, false)));
    r.drop(&mut lock);
    let w = clean(lock.resume_write(w, false));
    w.drop(&mut lock, false);
    assert!(lock.try_write(6, false, false).is_ok());
}

#[test]
fn value_is_shown_unless_locked() {
    let mut lock = RwLock::new(5);
    let attempt = lock.try_read(1, false);
    assert_eq!(lock.debug_data(&attempt), Some(&5));
    granted(attempt).drop(&mut lock);
    let w = clean(lock.write(1, false));
    let attempt = lock.try_read(1, false);
    assert_eq!(lock.debug_data(&attempt), None);
    w.drop(&mut lock, true);
    let attempt = lock.try_read(1, false);
    assert!(attempt.is_err());
    assert_eq!(lock.debug_data(&attempt), Some(&5));
}

#[test]
fn poison_error_gives_the_access_back() {
    let error = PoisonError::new(3);
    assert_eq!(*error.get_ref(), 3);
    assert_eq!(error.into_inner(), 3);
}

/// Where a thread stands that writes and reads in turns.
enum Stage {
    Start,
    WantsWrite(Request),
    Writes(RwLockWriteGuard, u32),
    WantsRead(Request, u32),
    Reads(RwLockReadGuard, u32),
}

fn after_write(lock: &RwLock<u32>, outcome: Acquire<RwLockWriteGuard>) -> Stage {
    match outcome {
        Acquire::Pending(request) => Stage::WantsWrite(request),
        other => {
            let guard = clean(other);
            let seen = *guard.deref(lock);
            Stage::Writes(guard, seen)
        }
    }
}

fn after_read(outcome: Acquire<RwLockReadGuard>, least: u32) -> Stage {
    match outcome {
        Acquire::Pending(request) => Stage::WantsRead(request, least),
        other => Stage::Reads(clean(other), least),
    }
}

#[test]
fn many_threads_count() {
    let mut lock = RwLock::new(0u32);
    let mut stages: Vec<Option<Stage>> = Vec::new();
    let mut rounds = vec![0u32; 5];
    for _ in 0..5 {
        stages.push(Some(Stage::Start));
    }
    let mut turn: u32 = 1;
    while rounds.iter().any(|done| *done < 20) {
        turn = turn.wrapping_mul(1664525).wrapping_add(1013904223);
        let me = (turn >> 16) as usize % 5;
        if rounds[me] == 20 {
            continue;
        }
        let thread = me as u64 + 1;
        let next = match stages[me].take().unwrap() {
            Stage::Start => {
                let outcome = lock.write(thread, false);
                after_write(&lock, outcome)
            }
            Stage::WantsWrite(request) => {
                let outcome = lock.resume_write(request, false);
                after_write(&lock, outcome)
            }
            Stage::Writes(mut guard, seen) => {
                *guard.deref_mut(&mut lock) = seen + 1;
                guard.drop(&mut lock, false);
                after_read(lock.read(thread), seen + 1)
            }
            Stage::WantsRead(request, least) => after_read(lock.resume_read(request), least),
            Stage::Reads(guard, least) => {
                assert!(*guard.deref(&lock) >= least);
                guard.drop(&mut lock);
                rounds[me] += 1;
                Stage::Start
            }
        };
        stages[me] = Some(next);
    }
    assert!(matches!(lock.into_inner(), Ok(100)));
}

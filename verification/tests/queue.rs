use qlock::model::Access;
use qlock::queue::{Queue, QueueNode};
use qlock::TryLockError;

#[test]
fn node_states() {
    let mut node = QueueNode::new(3);
    assert!(node.is_mine(3));
    assert!(!node.is_mine(4));
    assert!(!node.can_read());
    assert!(!node.can_write());
    node.allow_read();
    assert!(node.can_read());
    assert!(!node.can_write());
    node.unlock();
    assert!(node.can_read());
    assert!(node.can_write());
}

#[test]
fn requests_are_numbered_in_order() {
    let mut queue = Queue::new();
    assert_eq!(queue.issued(), 1);
    let first = queue.new_node(1, Access::Write);
    let second = queue.new_node(2, Access::Read);
    assert_eq!(first.node(), 1);
    assert_eq!(second.node(), 2);
    assert_eq!(queue.issued(), 3);
}

#[test]
fn contended_attempt_takes_no_place() {
    let mut queue = Queue::new();
    assert!(matches!(
        queue.try_new_node(1, Access::Write, true),
        Err(TryLockError::WouldBlock)
    ));
    assert_eq!(queue.issued(), 1);
    assert!(queue.try_new_node(1, Access::Write, false).is_ok());
    assert_eq!(queue.issued(), 2);
}

#[test]
fn unlinked_node_keeps_others_out() {
    let mut queue = Queue::new();
    let mut first = queue.enqueue(1, Access::Read);
    let mut second = queue.new_node(2, Access::Read);
    queue.announce(&mut second);
    assert!(!queue.walk(&mut second));
    queue.link(&mut first);
    assert!(!queue.walk(&mut second));
    queue.announce(&mut first);
    assert!(queue.walk(&mut second));
    assert!(queue.walk(&mut first));
}

#[test]
fn steps_of_two_readers_interleave() {
    let mut queue = Queue::new();
    let mut a = queue.enqueue(1, Access::Read);
    let mut b = queue.enqueue(2, Access::Read);
    queue.link(&mut b);
    queue.allow_read(&b);
    queue.start(&mut b);
    assert!(!queue.pass(&mut b));
    queue.link(&mut a);
    assert!(!queue.pass(&mut b));
    queue.allow_read(&a);
    assert!(queue.pass(&mut b));
    queue.start(&mut a);
    queue.advance(&mut b);
    assert!(queue.pass(&mut b));
    assert!(queue.pass(&mut a));
    queue.advance(&mut b);
    queue.advance(&mut a);
    queue.unlock(b.node());
    queue.unlock(a.node());
    let mut c = queue.new_node(3, Access::Write);
    queue.announce(&mut c);
    assert!(queue.walk(&mut c));
}

#[test]
fn walk_goes_on_where_it_stopped() {
    let mut queue = Queue::new();
    let mut a = queue.new_node(1, Access::Read);
    queue.announce(&mut a);
    assert!(queue.walk(&mut a));
    let mut b = queue.new_node(2, Access::Read);
    queue.announce(&mut b);
    assert!(queue.walk(&mut b));
    let mut c = queue.new_node(3, Access::Write);
    queue.announce(&mut c);
    assert!(!queue.walk(&mut c));
    queue.unlock(a.node());
    assert!(!queue.walk(&mut c));
    queue.unlock(b.node());
    assert!(queue.walk(&mut c));
}

#[test]
fn thread_is_found_among_older_nodes_only() {
    let mut queue = Queue::new();
    let mut a = queue.new_node(1, Access::Read);
    queue.announce(&mut a);
    assert!(queue.walk(&mut a));
    assert!(!queue.is_held_by(1, a.node()));
    let end = queue.issued();
    assert!(queue.is_held_by(1, end));
    assert!(!queue.is_held_by(2, end));
    queue.unlock(a.node());
    assert!(!queue.is_held_by(1, end));
}

#[test]
fn clearing_keeps_the_numbers() {
    let mut queue = Queue::new();
    let mut a = queue.new_node(1, Access::Write);
    queue.announce(&mut a);
    assert!(queue.walk(&mut a));
    let mut b = queue.new_node(2, Access::Write);
    queue.announce(&mut b);
    assert!(!queue.walk(&mut b));
    queue.clear(a.node());
    assert_eq!(queue.issued(), 3);
    assert!(!queue.walk(&mut b));
    queue.unlock(a.node());
    assert!(queue.walk(&mut b));
    queue.clear(b.node());
    queue.unlock(b.node());
    assert_eq!(queue.issued(), 3);
    assert_eq!(queue.new_node(1, Access::Read).node(), 3);
}

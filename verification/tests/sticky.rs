use qlock::sticky::{Sticky, StickyGuard};
use qlock::TryLockError;
use std::sync::Arc;

fn guard<T>(slot: &mut Sticky<T>) -> StickyGuard {
    match StickyGuard::new(slot) {
        Ok(guard) => guard,
        Err(_) => panic!("no guard to be had"),
    }
}

#[test]
fn new_slot_is_empty() {
    let mut slot: Sticky<u32> = Sticky::new();
    assert_eq!(slot.get(), None);
    assert!(!slot.is_cleared());
}

#[test]
fn first_value_sticks() {
    let mut slot: Sticky<u32> = Sticky::new();
    assert_eq!(slot.stick(Arc::new(1)), Some(Arc::new(1)));
    assert_eq!(slot.stick(Arc::new(2)), Some(Arc::new(1)));
    slot.shove(Arc::new(3));
    assert_eq!(slot.get(), Some(Arc::new(1)));
}

#[test]
fn stick_returns_the_pointer_it_was_given() {
    let mut slot: Sticky<u32> = Sticky::new();
    let first = Arc::new(7);
    let stuck = slot.stick(first.clone()).unwrap();
    assert!(Arc::ptr_eq(&stuck, &first));
    let second = slot.stick(Arc::new(8)).unwrap();
    assert!(Arc::ptr_eq(&second, &first));
    assert!(Arc::ptr_eq(&slot.get().unwrap(), &first));
}

#[test]
fn shoved_value_is_found() {
    let mut slot: Sticky<u32> = Sticky::new();
    slot.shove(Arc::new(5));
    assert_eq!(slot.get(), Some(Arc::new(5)));
    slot.shove(Arc::new(6));
    assert_eq!(slot.get(), Some(Arc::new(5)));
}

#[test]
fn cleared_slot_gives_and_takes_nothing() {
    let mut slot: Sticky<u32> = Sticky::new();
    slot.shove(Arc::new(1));
    slot.clear();
    assert!(slot.is_cleared());
    assert_eq!(slot.get(), None);
    slot.shove(Arc::new(2));
    assert_eq!(slot.get(), None);
    assert_eq!(slot.stick(Arc::new(3)), None);
    slot.clear();
    assert_eq!(slot.get(), None);
}

#[test]
fn clearing_an_empty_slot_keeps_it_empty() {
    let mut slot: Sticky<u32> = Sticky::new();
    slot.clear();
    assert_eq!(slot.stick(Arc::new(3)), None);
    assert_eq!(slot.get(), None);
}

#[test]
fn clearing_an_unused_slot_releases_the_value() {
    let value = Arc::new(1);
    let mut slot: Sticky<u32> = Sticky::new();
    slot.shove(value.clone());
    assert_eq!(Arc::strong_count(&value), 2);
    slot.clear();
    assert_eq!(Arc::strong_count(&value), 1);
}

#[test]
fn dropping_a_slot_releases_the_value() {
    let value = Arc::new(1);
    let mut slot: Sticky<u32> = Sticky::new();
    slot.shove(value.clone());
    drop(slot);
    assert_eq!(Arc::strong_count(&value), 1);
}

#[test]
fn rejected_value_is_released() {
    let value = Arc::new(2);
    let mut slot: Sticky<u32> = Sticky::new();
    slot.shove(Arc::new(1));
    slot.shove(value.clone());
    assert_eq!(Arc::strong_count(&value), 1);
}

#[test]
fn last_guard_releases_the_value() {
    let value = Arc::new(1);
    let mut slot: Sticky<u32> = Sticky::new();
    slot.shove(value.clone());
    let first = guard(&mut slot);
    let second = guard(&mut slot);
    slot.clear();
    assert_eq!(slot.get(), None);
    assert_eq!(Arc::strong_count(&value), 2);
    assert_eq!(slot.load(&first), Some(Arc::new(1)));
    first.drop(&mut slot);
    assert_eq!(Arc::strong_count(&value), 2);
    second.drop(&mut slot);
    assert_eq!(Arc::strong_count(&value), 1);
}

#[test]
fn guard_of_an_uncleared_slot_releases_nothing() {
    let mut slot: Sticky<u32> = Sticky::new();
    slot.shove(Arc::new(1));
    let only = guard(&mut slot);
    only.drop(&mut slot);
    assert_eq!(slot.get(), Some(Arc::new(1)));
}

#[test]
fn value_put_in_under_a_guard_after_clearing_is_released() {
    let value = Arc::new(1);
    let mut slot: Sticky<u32> = Sticky::new();
    let mut writer = guard(&mut slot);
    assert!(slot.look(&mut writer));
    slot.clear();
    assert!(!slot.look(&mut writer));
    assert!(slot.install(&writer, value.clone()));
    assert!(!slot.install(&writer, Arc::new(2)));
    assert_eq!(Arc::strong_count(&value), 2);
    writer.drop(&mut slot);
    assert_eq!(Arc::strong_count(&value), 1);
    assert_eq!(slot.get(), None);
}

#[test]
fn no_guard_while_the_value_is_being_released() {
    let mut slot: Sticky<u32> = Sticky::new();
    slot.shove(Arc::new(1));
    assert!(slot.mark_cleared());
    assert!(!slot.mark_cleared());
    assert!(slot.begin_collection());
    assert!(matches!(
        StickyGuard::new(&mut slot),
        Err(TryLockError::WouldBlock)
    ));
    assert_eq!(slot.get(), None);
    assert_eq!(slot.stick(Arc::new(2)), None);
    slot.clear_backend();
    slot.end_collection();
    let only = guard(&mut slot);
    assert_eq!(slot.load(&only), None);
    only.drop(&mut slot);
}

#[test]
fn collection_waits_for_guards() {
    let mut slot: Sticky<u32> = Sticky::new();
    slot.shove(Arc::new(1));
    let reader = guard(&mut slot);
    assert!(slot.mark_cleared());
    assert!(!slot.begin_collection());
    reader.depart(&mut slot);
    assert!(slot.begin_collection());
    slot.clear_backend();
    slot.end_collection();
    assert_eq!(slot.get(), None);
}

#[test]
fn departing_reader_of_an_uncleared_slot_collects_nothing() {
    let mut slot: Sticky<u32> = Sticky::new();
    slot.shove(Arc::new(1));
    let reader = guard(&mut slot);
    reader.depart(&mut slot);
    assert!(!slot.begin_collection());
    assert_eq!(slot.get(), Some(Arc::new(1)));
}

#[test]
fn slot_is_written_at_most_once() {
    let mut slot: Sticky<u32> = Sticky::new();
    let mut early = guard(&mut slot);
    let mut late = guard(&mut slot);
    assert!(slot.look(&mut early));
    assert!(slot.look(&mut late));
    assert!(slot.install(&early, Arc::new(1)));
    assert_eq!(slot.get(), Some(Arc::new(1)));
    slot.clear();
    early.drop(&mut slot);
    assert!(!slot.install(&late, Arc::new(2)));
    assert_eq!(slot.load(&late), Some(Arc::new(1)));
    late.drop(&mut slot);
    let mut after = guard(&mut slot);
    assert!(!slot.look(&mut after));
    assert_eq!(slot.load(&after), None);
    after.drop(&mut slot);
    slot.shove(Arc::new(3));
    assert_eq!(slot.get(), None);
}

#[test]
fn all_results_are_the_same_pointer() {
    let mut slot: Sticky<u32> = Sticky::new();
    let first = slot.stick(Arc::new(1)).unwrap();
    for value in 2..6 {
        assert!(Arc::ptr_eq(&slot.stick(Arc::new(value)).unwrap(), &first));
        assert!(Arc::ptr_eq(&slot.get().unwrap(), &first));
    }
    slot.clear();
    assert_eq!(slot.stick(Arc::new(6)), None);
}

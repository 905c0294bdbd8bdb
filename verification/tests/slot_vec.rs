use pattern::slot_vec::{Slot, SlotVec};

fn value_at(v: &SlotVec<u32>, i: usize) -> Option<u32> {
    match v.get(i) {
        Some(Slot::Occupied(x)) => Some(*x),
        _ => None,
    }
}

#[test]
fn new_slot_vec_holds_only_empty_slots() {
    let v: SlotVec<u32> = SlotVec::new(3);
    assert_eq!(v.inner.len(), 3);
    for i in 0..3 {
        assert!(v.get(i).unwrap().is_empty());
    }
    assert!(v.get(3).is_none());
    assert!(v.flatten().is_empty());
}

#[test]
fn insert_after_fills_the_next_free_slot() {
    let mut v: SlotVec<u32> = SlotVec::new(3);
    assert!(v.insert_after(0, 7));
    assert_eq!(value_at(&v, 1), Some(7));
    assert!(!v.insert_after(0, 8));
    assert_eq!(value_at(&v, 1), Some(7));
    assert_eq!(v.inner.len(), 3);
}

#[test]
fn insert_after_past_the_end_grows_with_empty_slots() {
    let mut v: SlotVec<u32> = SlotVec::new(1);
    assert!(v.insert_after(3, 5));
    assert_eq!(v.inner.len(), 5);
    assert!(v.get(1).unwrap().is_empty());
    assert!(v.get(2).unwrap().is_empty());
    assert!(v.get(3).unwrap().is_empty());
    assert_eq!(value_at(&v, 4), Some(5));
}

#[test]
fn insert_before_fills_the_previous_free_slot() {
    let mut v: SlotVec<u32> = SlotVec::new(3);
    assert!(v.insert_before(2, 9));
    assert_eq!(value_at(&v, 1), Some(9));
    assert!(!v.insert_before(2, 1));
    assert_eq!(value_at(&v, 1), Some(9));
}

#[test]
fn remove_inside_the_vector_clears_the_slot() {
    let mut v: SlotVec<u32> = SlotVec::new(2);
    assert!(v.insert_after(0, 4));
    assert!(v.remove(1));
    assert_eq!(value_at(&v, 1), None);
    assert!(v.remove(0));
    assert_eq!(v.inner.len(), 2);
}

#[test]
fn remove_past_the_end_changes_nothing() {
    let mut v: SlotVec<u32> = SlotVec::new(2);
    assert!(v.insert_after(0, 4));
    assert!(!v.remove(2));
    assert!(!v.remove(usize::MAX));
    assert_eq!(v.inner.len(), 2);
    assert_eq!(value_at(&v, 1), Some(4));
}

#[test]
fn flatten_lists_values_in_slot_order() {
    let mut v: SlotVec<u32> = SlotVec::new(4);
    assert!(v.insert_after(2, 3));
    assert!(v.insert_after(0, 1));
    let values: Vec<u32> = v.flatten().into_iter().copied().collect();
    assert_eq!(values, vec![1, 3]);
}

#[test]
fn flatten_mut_writes_through() {
    let mut v: SlotVec<u32> = SlotVec::new(3);
    assert!(v.insert_after(0, 1));
    assert!(v.insert_after(1, 2));
    for x in v.flatten_mut() {
        *x += 10;
    }
    assert_eq!(value_at(&v, 1), Some(11));
    assert_eq!(value_at(&v, 2), Some(12));
}

#[test]
fn get_mut_past_the_end_grows_the_vector() {
    let mut v: SlotVec<u32> = SlotVec::new(1);
    {
        let slot = v.get_mut(3).unwrap();
        assert!(slot.is_empty());
        *slot = Slot::Occupied(6);
    }
    assert_eq!(v.inner.len(), 4);
    assert_eq!(value_at(&v, 3), Some(6));
}

#[test]
fn slot_accessors_reach_the_value() {
    let mut s: Slot<u32> = Slot::Occupied(1);
    assert!(!s.is_empty());
    *s.unwrap_mut() = 2;
    assert_eq!(*s.unwrap_ref(), 2);
    let e: Slot<u32> = Slot::Empty;
    assert!(e.is_empty());
}

use loadbalancer::slab::Slab;

#[test]
fn insert_uses_lowest_free_slot_from_start() {
    let mut s: Slab<u32> = Slab::new(1, 3);
    assert_eq!(s.insert(10), Ok(1));
    assert_eq!(s.insert(11), Ok(2));
    assert_eq!(s.insert(12), Ok(3));
    assert_eq!(s.len(), 3);
    assert_eq!(s.get(1), Some(&10));
    assert_eq!(s.get(2), Some(&11));
    assert_eq!(s.get(3), Some(&12));
    // slot 0 is the sentinel and never allocated
    assert_eq!(s.get(0), None);
}

#[test]
fn full_slab_hands_the_value_back() {
    let mut s: Slab<u32> = Slab::new(1, 1);
    assert_eq!(s.insert(5), Ok(1));
    assert_eq!(s.insert(6), Err(6));
    assert!(s.is_full());
}

#[test]
fn remove_frees_the_slot_for_reuse() {
    let mut s: Slab<u32> = Slab::new(1, 3);
    s.insert(10).unwrap();
    s.insert(11).unwrap();
    assert_eq!(s.remove(1), Some(10));
    assert_eq!(s.remove(1), None);
    assert_eq!(s.len(), 1);
    // the freed slot is the lowest free one again
    assert_eq!(s.peek_vacant(), Some(1));
    assert_eq!(s.insert(12), Ok(1));
}

#[test]
fn out_of_range_slots_are_empty() {
    let mut s: Slab<u32> = Slab::new(1, 2);
    assert_eq!(s.get(9), None);
    assert_eq!(s.remove(9), None);
    assert!(s.get_mut(9).is_none());
}

#[test]
fn get_mut_updates_in_place() {
    let mut s: Slab<u32> = Slab::new(1, 2);
    s.insert(10).unwrap();
    if let Some(v) = s.get_mut(1) {
        *v = 99;
    }
    assert_eq!(s.get(1), Some(&99));
    assert_eq!(s.len(), 1);
}

#[test]
fn set_at_overwrites_an_occupied_slot() {
    let mut s: Slab<u32> = Slab::new(1, 2);
    s.insert(10).unwrap();
    s.set_at(1, 20);
    assert_eq!(s.get(1), Some(&20));
    assert_eq!(s.len(), 1);
}

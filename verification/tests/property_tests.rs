use tynyptr::dynamic_table::DynamicTinyPointerTable;

/// Round-trip: freeing the pointer that an allocation just returned hands
/// the allocated value back.
#[test]
fn round_trip_single_value() {
    let mut table = DynamicTinyPointerTable::new(4);
    let ptr = table.allocate(7);
    assert_eq!(table.free(ptr), Some(7));
}

/// Idempotent invalidation: after one successful free, a second free and
/// any get or get_mut with the same pointer return nothing.
#[test]
fn double_free_and_stale_access_return_none() {
    let mut table = DynamicTinyPointerTable::new(4);
    let ptr = table.allocate(1);
    assert_eq!(table.free(ptr), Some(1));
    assert_eq!(table.free(ptr), None);
    assert_eq!(table.get(ptr), None);
    assert!(table.get_mut(ptr).is_none());
    // Still nothing on a third try.
    assert_eq!(table.free(ptr), None);
}

/// Generational isolation: with capacity 1 the freed slot must be reused,
/// and the new pointer differs from the old one; the old pointer stays
/// invalid while the new one is valid.
#[test]
fn reused_slot_gets_fresh_handle() {
    let mut table = DynamicTinyPointerTable::new(1);
    let old_ptr = table.allocate(5);
    assert_eq!(table.free(old_ptr), Some(5));
    let new_ptr = table.allocate(6);
    assert_eq!(new_ptr.index(), old_ptr.index());
    assert_ne!(new_ptr, old_ptr);
    assert_ne!(new_ptr.generation(), old_ptr.generation());
    assert_eq!(table.get(old_ptr), None);
    assert_eq!(table.get(new_ptr), Some(&6));
}

/// Monotonic capacity: the capacity never decreases across operations,
/// and a resize doubles it exactly.
#[test]
fn capacity_is_monotonic_and_doubles() {
    let mut table = DynamicTinyPointerTable::new(4);
    assert_eq!(table.capacity(), 4);
    table.resize();
    assert_eq!(table.capacity(), 8);

    let mut last_capacity = table.capacity();
    let mut pointers = Vec::new();
    for i in 0..40usize {
        pointers.push(table.allocate(i));
        assert!(table.capacity() >= last_capacity);
        last_capacity = table.capacity();
    }
    for ptr in pointers {
        table.free(ptr);
        assert_eq!(table.capacity(), last_capacity);
    }
}

/// Occupancy accounting: the allocated count tracks every allocation and
/// free one by one, never exceeds the capacity, and the load factor stays
/// within [0, 1].
#[test]
fn occupancy_accounting() {
    let mut table = DynamicTinyPointerTable::new(4);
    assert_eq!(table.allocated(), 0);
    let mut pointers = Vec::new();
    for i in 0..10usize {
        pointers.push(table.allocate(i));
        assert_eq!(table.allocated(), i + 1);
        assert!(table.allocated() <= table.capacity());
        let load_factor = table.allocated() as f64 / table.capacity() as f64;
        assert!((0.0..=1.0).contains(&load_factor));
    }
    for (n, ptr) in pointers.into_iter().enumerate() {
        assert!(table.free(ptr).is_some());
        assert_eq!(table.allocated(), 10 - n - 1);
    }
    assert_eq!(table.allocated(), 0);
}

/// Concrete scenario: a table of capacity 4 holding 10 and 20 serves both
/// values back, reports two allocated slots, and a load factor of one half.
#[test]
fn scenario_two_values_half_full() {
    let mut table = DynamicTinyPointerTable::new(4);
    let ptr_a = table.allocate(10);
    let ptr_b = table.allocate(20);
    assert_eq!(table.get(ptr_a), Some(&10));
    assert_eq!(table.get(ptr_b), Some(&20));
    assert_eq!(table.allocated(), 2);
    let load_factor = table.allocated() as f64 / table.capacity() as f64;
    assert_eq!(load_factor, 0.5);
}

/// Concrete scenario: filling a table of capacity 2 and allocating once
/// more triggers exactly one doubling, and all three handles still reach
/// their original values.
#[test]
fn scenario_overflow_triggers_one_resize() {
    let mut table = DynamicTinyPointerTable::new(2);
    let p1 = table.allocate(1);
    let p2 = table.allocate(2);
    assert_eq!(table.capacity(), 2);
    let p3 = table.allocate(3);
    assert!(table.capacity() >= 3);
    assert_eq!(table.capacity(), 4);
    assert_eq!(table.get(p1), Some(&1));
    assert_eq!(table.get(p2), Some(&2));
    assert_eq!(table.get(p3), Some(&3));
}

/// Concrete scenario: a freed pointer returns its value exactly once and
/// stays dead even after its slot may have been reused.
#[test]
fn scenario_freed_pointer_stays_dead() {
    let mut table = DynamicTinyPointerTable::new(4);
    let p = table.allocate(10);
    assert_eq!(table.free(p), Some(10));
    assert_eq!(table.get(p), None);
    let q = table.allocate(20);
    assert_eq!(table.get(q), Some(&20));
    assert_eq!(table.get(p), None);
}

/// The accessors expose the pointer's own fields: a fresh table hands out
/// generation 0, an index within the capacity, and after a free the
/// reused slot's pointer carries generation 1.
#[test]
fn pointer_accessors() {
    let mut table = DynamicTinyPointerTable::new(1);
    let p = table.allocate(3);
    assert_eq!(p.index(), 0);
    assert_eq!(p.generation(), 0);
    assert_eq!(table.free(p), Some(3));
    let q = table.allocate(4);
    assert_eq!(q.index(), 0);
    assert_eq!(q.generation(), 1);
}

/// A pointer whose index lies beyond a table's capacity is rejected, as
/// is any pointer aimed at a table whose slots are all free.
#[test]
fn foreign_pointer_is_rejected() {
    let mut big = DynamicTinyPointerTable::new(2);
    let p1 = big.allocate(1);
    let p2 = big.allocate(2);
    let mut small: DynamicTinyPointerTable<i32> = DynamicTinyPointerTable::new(1);
    // One of the two indices is out of range for `small`; both name free
    // slots there, so every lookup and free comes back empty.
    assert_eq!(small.get(p1), None);
    assert_eq!(small.get(p2), None);
    assert!(small.get_mut(p1).is_none());
    assert_eq!(small.free(p1), None);
    assert_eq!(small.free(p2), None);
    assert_eq!(small.allocated(), 0);
}

/// Rewriting a value through get_mut keeps the pointer valid and the
/// occupancy unchanged.
#[test]
fn get_mut_keeps_pointer_valid() {
    let mut table = DynamicTinyPointerTable::new(2);
    let p = table.allocate(11);
    if let Some(v) = table.get_mut(p) {
        *v = 12;
    }
    if let Some(v) = table.get_mut(p) {
        *v += 1;
    }
    assert_eq!(table.get(p), Some(&13));
    assert_eq!(table.allocated(), 1);
    assert_eq!(table.free(p), Some(13));
}

use hashtable::HashTable;
use hashtable::DEFAULT_CAPACITY;

#[test]
fn sequential() {
    let mut h = HashTable::new();
    h.set_item(1, 1);
    assert_eq!(1, h.get_item(1));
    h.set_item(2, 2);
    h.set_item(3, 33);
    assert_eq!(1, h.get_item(1));
    assert_eq!(2, h.get_item(2));
    assert_eq!(33, h.get_item(3));
}

#[test]
fn unknown_key_reads_zero() {
    let mut h = HashTable::new();
    assert_eq!(0, h.get_item(4));
    h.set_item(1, 1);
    h.set_item(2, 2);
    h.set_item(3, 33);
    assert_eq!(0, h.get_item(4));
    assert_eq!(0, h.get_item(-1));
    assert_eq!(0, h.get_item(i32::MAX));
}

#[test]
fn read_before_write_sees_zero() {
    let mut h = HashTable::with_capacity(4);
    assert_eq!(0, h.get_item(7));
    h.set_item(7, 70);
    assert_eq!(70, h.get_item(7));
}

#[test]
fn update_in_place_takes_no_second_slot() {
    let mut h = HashTable::with_capacity(2);
    h.set_item(1, 10);
    h.set_item(1, 11);
    assert_eq!(11, h.get_item(1));
    h.set_item(2, 20);
    assert_eq!(11, h.get_item(1));
    assert_eq!(20, h.get_item(2));
    h.set_item(3, 30);
    assert_eq!(0, h.get_item(3));
}

#[test]
fn latest_write_wins() {
    let mut h = HashTable::with_capacity(8);
    h.set_item(1, 1);
    h.set_item(2, 2);
    h.set_item(1, 3);
    h.set_item(2, 4);
    h.set_item(1, 5);
    assert_eq!(5, h.get_item(1));
    assert_eq!(4, h.get_item(2));
}

#[test]
fn write_leaves_other_keys_alone() {
    let mut h = HashTable::with_capacity(3);
    h.set_item(10, 100);
    h.set_item(20, 200);
    h.set_item(30, 300);
    h.set_item(20, 201);
    assert_eq!(100, h.get_item(10));
    assert_eq!(201, h.get_item(20));
    assert_eq!(300, h.get_item(30));
}

#[test]
fn capacity_boundary() {
    let mut h = HashTable::with_capacity(3);
    h.set_item(1, 11);
    h.set_item(2, 22);
    h.set_item(3, 33);
    h.set_item(4, 44);
    h.set_item(5, 55);
    assert_eq!(11, h.get_item(1));
    assert_eq!(22, h.get_item(2));
    assert_eq!(33, h.get_item(3));
    assert_eq!(0, h.get_item(4));
    assert_eq!(0, h.get_item(5));
}

#[test]
fn full_table_still_updates_held_keys() {
    let mut h = HashTable::with_capacity(2);
    h.set_item(1, 11);
    h.set_item(2, 22);
    h.set_item(3, 33);
    h.set_item(2, 23);
    h.set_item(1, 12);
    assert_eq!(12, h.get_item(1));
    assert_eq!(23, h.get_item(2));
    assert_eq!(0, h.get_item(3));
}

#[test]
fn default_capacity_is_one_thousand() {
    assert_eq!(1000, DEFAULT_CAPACITY);
    let mut h = HashTable::new();
    for i in 1..=1001 {
        h.set_item(i, i + 5);
    }
    assert_eq!(6, h.get_item(1));
    assert_eq!(505, h.get_item(500));
    assert_eq!(1005, h.get_item(1000));
    assert_eq!(0, h.get_item(1001));
}

#[test]
fn table_without_slots_drops_every_write() {
    let mut h = HashTable::with_capacity(0);
    h.set_item(1, 1);
    assert_eq!(0, h.get_item(1));
    assert_eq!(0, h.get_item(0));
}

#[test]
fn zero_key_reads_zero() {
    let mut h = HashTable::with_capacity(2);
    assert_eq!(0, h.get_item(0));
    h.set_item(5, 50);
    assert_eq!(0, h.get_item(0));
    h.set_item(6, 60);
    assert_eq!(0, h.get_item(0));
}

#[test]
fn zero_value_takes_a_slot() {
    let mut h = HashTable::with_capacity(1);
    h.set_item(5, 0);
    assert_eq!(0, h.get_item(5));
    h.set_item(6, 1);
    assert_eq!(0, h.get_item(6));
    h.set_item(5, 9);
    assert_eq!(9, h.get_item(5));
}

#[test]
fn extreme_keys_and_values() {
    let mut h = HashTable::with_capacity(4);
    h.set_item(-1, i32::MIN);
    h.set_item(i32::MAX, -7);
    h.set_item(i32::MIN, i32::MAX);
    assert_eq!(i32::MIN, h.get_item(-1));
    assert_eq!(-7, h.get_item(i32::MAX));
    assert_eq!(i32::MAX, h.get_item(i32::MIN));
    assert_eq!(0, h.get_item(1));
}

#[test]
fn writers_and_readers_in_turn() {
    let mut h = HashTable::new();
    for i in 1..1000 {
        let before = h.get_item(i);
        assert!(before == 0);
        h.set_item(i, i);
        let val = h.get_item(i);
        assert!(i == val || 0 == val);
        assert_eq!(i, val);
    }
    for i in 1..1000 {
        assert_eq!(i, h.get_item(i));
    }
}

#[test]
fn probe_order_does_not_depend_on_keys() {
    let mut up = HashTable::with_capacity(3);
    let mut down = HashTable::with_capacity(3);
    for k in [1, 2, 3, 4] {
        up.set_item(k, k * 10);
    }
    for k in [4, 3, 2, 1] {
        down.set_item(k, k * 10);
    }
    assert_eq!(10, up.get_item(1));
    assert_eq!(0, up.get_item(4));
    assert_eq!(40, down.get_item(4));
    assert_eq!(0, down.get_item(1));
}

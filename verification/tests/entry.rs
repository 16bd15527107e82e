use hashtable::Entry;
use hashtable::EMPTY;

#[test]
fn new_entry_is_unclaimed() {
    let e = Entry::new();
    assert_eq!(0, EMPTY);
    assert_eq!(EMPTY, e.load_key());
    assert_eq!(0, e.load_value());
    assert_eq!(Entry { key: 0, value: 0 }, e);
}

#[test]
fn claim_binds_an_unclaimed_entry() {
    let mut e = Entry::new();
    let seen = e.claim(7);
    assert_eq!(EMPTY, seen);
    assert_eq!(7, e.load_key());
    assert_eq!(0, e.load_value());
}

#[test]
fn claim_leaves_a_bound_entry() {
    let mut e = Entry { key: 7, value: 70 };
    let seen = e.claim(8);
    assert_eq!(7, seen);
    assert_eq!(Entry { key: 7, value: 70 }, e);
}

#[test]
fn claim_by_the_owner_reports_the_owner() {
    let mut e = Entry::new();
    assert_eq!(EMPTY, e.claim(7));
    assert_eq!(7, e.claim(7));
    assert_eq!(7, e.load_key());
}

#[test]
fn store_keeps_the_key() {
    let mut e = Entry::new();
    e.claim(3);
    e.store(33);
    assert_eq!(Entry { key: 3, value: 33 }, e);
    e.store(-4);
    assert_eq!(3, e.load_key());
    assert_eq!(-4, e.load_value());
}

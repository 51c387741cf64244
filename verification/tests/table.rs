use sda::table::{SameValue, Table};

#[derive(Clone, Debug, PartialEq)]
struct A {
    id: String,
    int: i32,
}

impl SameValue for A {
    fn same_value(&self, other: &A) -> bool {
        self == other
    }
}

const FOO: u128 = 0xf00;
const BAR: u128 = 0xba2;

fn a(id: &str, int: i32) -> A {
    A { id: id.to_string(), int }
}

#[test]
fn create() {
    let mut store: Table<A> = Table::new();
    let a12 = a("foo", 12);
    store.create(FOO, a12.clone()).unwrap();
    store.create(FOO, a12.clone()).unwrap();
    let b = a("foo", 42);
    assert!(store.create(FOO, b).is_err());
    assert_eq!(Some(&a12), store.get(FOO));
}

#[test]
fn update() {
    let mut store: Table<A> = Table::new();
    store.create(FOO, a("foo", 12)).unwrap();
    let a42 = a("foo", 42);
    store.update(FOO, a42.clone()).unwrap();
    let a_again = store.get(FOO).unwrap();
    assert_eq!(&a42, a_again);

    let b = a("bar", 42);
    assert!(store.update(BAR, b).is_err());
    assert!(store.get(BAR).is_none());
}

#[test]
fn upsert() {
    let mut store: Table<A> = Table::new();
    store.create(FOO, a("foo", 12)).unwrap();
    let a42 = a("foo", 42);
    store.upsert(FOO, a42.clone());
    let a_again = store.get(FOO).unwrap();
    assert_eq!(&a42, a_again);

    let b = a("bar", 42);
    store.upsert(BAR, b.clone());
    let b_again = store.get(BAR).unwrap();
    assert_eq!(&b, b_again);
}

#[test]
fn table_keeps_keys_in_order() {
    let mut t: Table<i32> = Table::new();
    t.upsert(30, 3);
    t.upsert(10, 1);
    t.upsert(20, 2);
    t.upsert(10, 11);
    assert_eq!(3, t.len());
    assert_eq!(10, t.key_at(0));
    assert_eq!(20, t.key_at(1));
    assert_eq!(30, t.key_at(2));
    assert_eq!(&11, t.value_at(0));
    assert!(t.contains_key(20));
    assert_eq!(Some(2), t.remove(20));
    assert!(!t.contains_key(20));
    assert_eq!(None, t.remove(20));
    assert_eq!(2, t.len());
    assert_eq!(30, t.key_at(1));
}

#[test]
fn nested_tables() {
    let mut t: Table<Table<i32>> = Table::new();
    t.upsert_in(1, 5, 50);
    t.upsert_in(1, 6, 60);
    t.upsert_in(2, 5, 7);
    assert_eq!(2, t.len_in(1));
    assert_eq!(1, t.len_in(2));
    assert_eq!(0, t.len_in(3));
    assert_eq!(Some(&60), t.get_in(1, 6));
    assert_eq!(None, t.get_in(2, 6));
    assert_eq!(Some(50), t.remove_in(1, 5));
    assert_eq!(1, t.len_in(1));
    assert_eq!(None, t.get_in(1, 5));
}

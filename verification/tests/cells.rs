//! Cells, pointers and map entries.

use std::sync::Arc;

use rusty_proxy::atomic_value::AtomicValue;
use rusty_proxy::atomic_value::AtomicValueUnchecked;
use rusty_proxy::atomic_value::Pointer;
use rusty_proxy::atomic_value::Value;
use rusty_proxy::sync_map::expunged;
use rusty_proxy::sync_map::is_expunged;
use rusty_proxy::sync_map::Entry;

fn to(v: u32) -> Pointer<u32> {
    Pointer::To(Arc::new(v))
}

fn target(p: &Pointer<u32>) -> Option<u32> {
    match p {
        Pointer::To(v) => Some(**v),
        _ => None,
    }
}

#[test]
fn value_is_loaded_as_stored() {
    let mut cell = AtomicValue::new(1);
    assert_eq!(cell.load().as_deref(), Some(&1));
    cell.store(2);
    assert_eq!(cell.load().as_deref(), Some(&2));
}

#[test]
fn loaded_value_outlives_a_store() {
    let mut cell = AtomicValueUnchecked::new("old");
    let before = cell.load();
    cell.store("new");
    assert_eq!(*before, "old");
    assert_eq!(*cell.load(), "new");
}

#[test]
fn new_value_points_to_its_value() {
    assert_eq!(target(&Value::new(5).ptr), Some(5));
    assert!(matches!(Value::<u32>::from_ptr(Pointer::Null).ptr, Pointer::Null));
}

#[test]
fn only_the_mark_is_expunged() {
    assert!(is_expunged(&expunged::<u32>()));
    assert!(!is_expunged(&Pointer::<u32>::Null));
    assert!(!is_expunged(&to(1)));
}

#[test]
fn entry_loads_only_a_value() {
    assert_eq!(Entry::from_ptr(to(3)).load().as_deref(), Some(&3));
    assert!(Entry::<u32>::from_ptr(Pointer::Null).load().is_none());
    assert!(Entry::<u32>::from_ptr(expunged()).load().is_none());
}

#[test]
fn try_store_fails_on_an_expunged_entry() {
    let mut e = Entry::from_ptr(to(1));
    assert!(e.try_store(to(2)));
    assert_eq!(e.load().as_deref(), Some(&2));
    let mut e = Entry::<u32>::from_ptr(Pointer::Null);
    assert!(e.try_store(to(2)));
    let mut e = Entry::<u32>::from_ptr(expunged());
    assert!(!e.try_store(to(2)));
    assert!(is_expunged(&e.p.ptr));
}

#[test]
fn unexpunging_leaves_a_deleted_entry() {
    let mut e = Entry::<u32>::from_ptr(expunged());
    assert!(e.unexpunge_locked());
    assert!(matches!(e.p.ptr, Pointer::Null));
    assert!(!e.unexpunge_locked());
    e.store_locked(to(4));
    assert!(!e.unexpunge_locked());
    assert_eq!(e.load().as_deref(), Some(&4));
}

#[test]
fn only_an_entry_without_a_value_is_expunged() {
    let mut e = Entry::from_ptr(to(1));
    assert!(!e.try_expunge_locked());
    assert_eq!(e.load().as_deref(), Some(&1));
    let mut e = Entry::<u32>::from_ptr(Pointer::Null);
    assert!(e.try_expunge_locked());
    assert!(is_expunged(&e.p.ptr));
    assert!(e.try_expunge_locked());
}

#[test]
fn entry_is_loaded_or_stored() {
    let mut e = Entry::from_ptr(to(1));
    let (v, ok) = e.try_load_or_store(to(2));
    assert_eq!((v.as_deref(), ok), (Some(&1), true));
    let mut e = Entry::<u32>::from_ptr(Pointer::Null);
    let (v, ok) = e.try_load_or_store(to(2));
    assert_eq!((v.as_deref(), ok), (None, true));
    assert_eq!(e.load().as_deref(), Some(&2));
    let mut e = Entry::<u32>::from_ptr(expunged());
    let (v, ok) = e.try_load_or_store(to(2));
    assert_eq!((v.as_deref(), ok), (None, false));
    assert!(is_expunged(&e.p.ptr));
}

#[test]
fn entry_is_deleted_once() {
    let mut e = Entry::from_ptr(to(1));
    assert_eq!(e.delete().as_deref(), Some(&1));
    assert!(matches!(e.p.ptr, Pointer::Null));
    assert!(e.delete().is_none());
    let mut e = Entry::<u32>::from_ptr(expunged());
    assert!(e.delete().is_none());
    assert!(is_expunged(&e.p.ptr));
}

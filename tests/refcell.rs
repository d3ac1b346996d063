use smart_pointers::rc::{Heap, Rc};
use smart_pointers::refcell::{BorrowError, BorrowState, RefCell};
use std::collections::HashMap;

#[test]
fn create_refcell() {
    let rf = RefCell::new(42);

    println!("{:?}", rf);
    assert_eq!(rf.state(), BorrowState::Unused);
    assert_eq!(rf.into_inner(), 42);
}

#[test]
fn borrow_many_times() {
    let mut rc = RefCell::new(42);
    let rc_ref1 = rc.borrow();
    let rc_ref2 = rc.borrow();

    assert_eq!(rc.state(), BorrowState::Shared(2));
    assert_eq!(*rc.value(&rc_ref1), 42);
    rc.release(rc_ref1);
    rc.release(rc_ref2);
    assert_eq!(rc.state(), BorrowState::Unused);
}

#[test]
fn borrow_mut_once() {
    let mut rc = RefCell::new(42);
    let rc_refmut = rc.borrow_mut();

    assert_eq!(rc.state(), BorrowState::Exclusive);
    rc.release_mut(rc_refmut);
}

#[test]
fn borrow_mut_after_all_borrows_expires() {
    let mut rc = RefCell::new(42);
    {
        let rc_ref1 = rc.borrow();
        let rc_ref2 = rc.borrow();
        rc.release(rc_ref1);
        rc.release(rc_ref2);
    }
    let ref_mut = rc.borrow_mut();

    assert_eq!(rc.state(), BorrowState::Exclusive);
    rc.release_mut(ref_mut);
}

#[test]
fn borrow_mut() {
    let mut c = RefCell::new("hello".to_owned());

    let g = c.borrow_mut();
    *c.value_mut(&g) = "bonjour".to_owned();
    c.release_mut(g);

    let r = c.borrow();
    assert_eq!(c.value(&r), "bonjour");
    c.release(r);
}

#[test]
fn refcell_demo() {
    let mut heap = Heap::new();
    let shared_map = Rc::new(&mut heap, RefCell::new(HashMap::new()));
    {
        let cell = shared_map.deref_mut(&mut heap);
        let g = cell.borrow_mut();
        let map = cell.value_mut(&g);
        map.insert("africa", 92388);
        map.insert("kyoto", 11837);
        map.insert("piccadilly", 11826);
        map.insert("marbles", 38);
        cell.release_mut(g);
    }

    let cell = shared_map.deref_mut(&mut heap);
    let r = cell.borrow();
    let total: i32 = cell.value(&r).values().sum();
    println!("{total}");
    assert_eq!(total, 116089);
    cell.release(r);
}

#[test]
fn second_borrow_mut_is_refused() {
    let mut c = RefCell::new(42);
    let first = c.borrow_mut();
    assert!(matches!(c.try_borrow_mut(), Err(BorrowError::AlreadyBorrowed)));
    assert_eq!(c.state(), BorrowState::Exclusive);
    c.release_mut(first);
}

#[test]
fn shared_borrow_while_exclusive_is_refused() {
    let mut c = RefCell::new(1);
    let g = c.borrow_mut();
    assert!(matches!(
        c.try_borrow(),
        Err(BorrowError::AlreadyExclusivelyBorrowed)
    ));
    c.release_mut(g);
    assert!(c.try_borrow().is_ok());
}

#[test]
fn borrow_mut_while_shared_is_refused() {
    let mut c = RefCell::new(1);
    let r = c.borrow();
    assert!(matches!(c.try_borrow_mut(), Err(BorrowError::AlreadyBorrowed)));
    assert_eq!(c.state(), BorrowState::Shared(1));
    c.release(r);
    let g = c.try_borrow_mut();
    assert!(g.is_ok());
    assert_eq!(c.state(), BorrowState::Exclusive);
}

#[test]
fn borrow_episode_counts_down() {
    let mut c = RefCell::new(0u8);
    let mut guards = Vec::new();
    for n in 1..=5usize {
        guards.push(c.borrow());
        assert_eq!(c.state(), BorrowState::Shared(n));
    }
    while let Some(g) = guards.pop() {
        c.release(g);
        match c.state() {
            BorrowState::Shared(n) => assert_eq!(n, guards.len()),
            BorrowState::Unused => assert!(guards.is_empty()),
            BorrowState::Exclusive => panic!("no exclusive borrow was taken"),
        }
    }
    let g = c.borrow_mut();
    *c.value_mut(&g) = 3;
    c.release_mut(g);
    assert_eq!(c.into_inner(), 3);
}

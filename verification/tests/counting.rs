use atomic_lend_cell::atomic_counting::AtomicLendCell;

#[test]
fn test_lambda_borrow() {
    let mut x = AtomicLendCell::new(4);
    let xr = x.borrow();
    let y = xr.as_ref(&x);
    assert_eq!(*y, 4);
    let xr2 = x.borrow();
    let y2 = xr2.as_ref(&x);
    assert_eq!(*y2, 4);
    xr.release(&mut x);
    xr2.release(&mut x);
    assert_eq!(x.refcount(), 0);
}

#[test]
fn counting_new_keeps_value() {
    let x = AtomicLendCell::new(0u64);
    assert_eq!(*x.as_ref(), 0);
    let y = AtomicLendCell::new(String::from("lent"));
    assert_eq!(x.refcount(), 0);
    assert_eq!(y.as_ref(), "lent");
    let z = AtomicLendCell::new(-17i32);
    assert_eq!(*z.as_ref(), -17);
}

#[test]
fn counting_zero_borrows_teardown() {
    let x = AtomicLendCell::new(11u8);
    assert_eq!(x.into_inner(), 11);
}

#[test]
fn counting_balanced_borrows_teardown() {
    let mut x = AtomicLendCell::new(7i64);
    let a = x.borrow();
    let b = x.borrow();
    let c = x.borrow();
    assert_eq!(x.refcount(), 3);
    b.release(&mut x);
    a.release(&mut x);
    c.release(&mut x);
    assert_eq!(x.refcount(), 0);
    assert_eq!(x.try_into_inner().ok(), Some(7));
}

#[test]
fn counting_teardown_violation_detected() {
    let mut x = AtomicLendCell::new(7u32);
    let b = x.borrow();
    let mut x = match x.try_into_inner() {
        Err(cell) => cell,
        Ok(_) => panic!("teardown must be refused while a borrow is outstanding"),
    };
    assert_eq!(*b.as_ref(&x), 7);
    b.release(&mut x);
    assert_eq!(x.try_into_inner().ok(), Some(7));
}

#[test]
fn counting_stress_cycles() {
    let mut x = AtomicLendCell::new(99u64);
    for _ in 0..8 {
        let mut held = Vec::new();
        for _ in 0..1000 {
            held.push(x.borrow());
        }
        assert_eq!(x.refcount(), 1000);
        for b in held {
            b.release(&mut x);
        }
        assert_eq!(x.refcount(), 0);
    }
    assert_eq!(x.into_inner(), 99);
}

#[test]
fn counting_duplicates_release_clean() {
    let mut x = AtomicLendCell::new(5u16);
    let b = x.borrow();
    let c1 = b.duplicate(&mut x);
    let c2 = c1.duplicate(&mut x);
    assert_eq!(x.refcount(), 3);
    assert_eq!(*c2.as_ref(&x), 5);
    b.release(&mut x);
    c1.release(&mut x);
    c2.release(&mut x);
    assert_eq!(x.refcount(), 0);
    assert_eq!(x.into_inner(), 5);
}

#[test]
fn counting_borrow_of_referenced_value() {
    let v: u32 = 10;
    let mut x = AtomicLendCell::new(&v);
    let b = x.borrow_deref();
    assert_eq!(x.refcount(), 1);
    assert_eq!(*b.as_ref_deref(&x), 10);
    b.release(&mut x);
    assert_eq!(x.refcount(), 0);
}

#[test]
fn counting_end_to_end_scenario() {
    let mut lender = AtomicLendCell::new(4i32);
    let b1 = lender.borrow();
    assert_eq!(*b1.as_ref(&lender), 4);
    let b2 = lender.borrow();
    assert_eq!(*b2.as_ref(&lender), 4);
    b1.release(&mut lender);
    b2.release(&mut lender);
    assert_eq!(lender.try_into_inner().ok(), Some(4));
}

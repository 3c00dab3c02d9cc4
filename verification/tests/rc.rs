use agb::rc::{Rc, RefCount};

#[test]
fn test_rc() {
    let r = Rc::new(10);
    assert_eq!(*r.get(), 10);
    {
        let b = r.clone();
        assert_eq!(*r.get(), 10);
        assert_eq!(b.strong_count(), 2);
        assert_eq!(r.strong_count(), 2);
    }
    assert_eq!(r.strong_count(), 1);
}

#[test]
fn ref_count_counts_its_clones() {
    let r = RefCount::new(String::from("shared"));
    assert_eq!(RefCount::count(&r), 1);
    let a = r.clone();
    let b = a.clone();
    assert_eq!(RefCount::count(&r), 3);
    assert_eq!(b.get(), "shared");
    drop(a);
    assert_eq!(RefCount::count(&b), 2);
}

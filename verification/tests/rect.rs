use tern::rect::{Rect, Size};

#[test]
fn rect_geometry() {
    let r = Rect::new(1, 2, 3, 4);
    assert_eq!(r.area(), 12);
    assert_eq!(r.right(), 4);
    assert_eq!(r.bottom(), 6);
    assert!(r.contains(1, 2));
    assert!(r.contains(3, 5));
    assert!(!r.contains(4, 2));
    assert!(!r.contains(0, 0));
    assert_eq!(r.offset(1, -1), Rect::new(2, 1, 3, 4));
    assert_eq!(Rect::zero(), Rect::new(0, 0, 0, 0));
}

#[test]
fn rect_intersection() {
    let a = Rect::new(0, 0, 4, 4);
    let b = Rect::new(2, 2, 4, 4);
    assert_eq!(a.intersection(&b), Some(Rect::new(2, 2, 2, 2)));
    let c = Rect::new(5, 5, 1, 1);
    assert_eq!(a.intersection(&c), None);
    let d = Rect::new(4, 0, 1, 4);
    assert_eq!(a.intersection(&d), None);
}

#[test]
fn intersection_is_symmetric_and_contained() {
    let a = Rect::new(-3, 1, 10, 2);
    let b = Rect::new(0, 0, 4, 8);
    let i = a.intersection(&b);
    assert_eq!(i, b.intersection(&a));
    assert_eq!(i, Some(Rect::new(0, 1, 4, 2)));
}

#[test]
fn empty_rect_contains_nothing() {
    let r = Rect::new(5, 5, 0, 3);
    assert_eq!(r.area(), 0);
    assert!(!r.contains(5, 5));
}

#[test]
fn size_holds_its_dimensions() {
    let s = Size::new(80, 24);
    assert_eq!((s.width, s.height), (80, 24));
}

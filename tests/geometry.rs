use rasterizer::rect::Rect;

#[test]
fn rect_edges_are_inclusive() {
    let r = Rect::new(2, 3, 4, 5);
    assert_eq!(r.right(), 5);
    assert_eq!(r.bottom(), 7);
    assert!(!r.is_empty());
}

#[test]
fn rect_with_zero_span_is_empty() {
    assert!(Rect::new(0, 0, 0, 5).is_empty());
    assert!(Rect::new(0, 0, 5, 0).is_empty());
}

#[test]
fn rect_right_edge_beyond_i32() {
    let r = Rect::new(i32::MAX, 0, u32::MAX, 1);
    assert_eq!(r.right(), i32::MAX as i64 + u32::MAX as i64 - 1);
}

#[test]
fn intersect_overlapping() {
    let a = Rect::new(0, 0, 10, 10);
    let b = Rect::new(5, -3, 10, 6);
    assert_eq!(a.intersect(&b), Rect::new(5, 0, 5, 3));
}

#[test]
fn intersect_is_commutative() {
    let a = Rect::new(-4, 7, 20, 3);
    let b = Rect::new(1, 2, 6, 30);
    assert_eq!(a.intersect(&b), b.intersect(&a));
}

#[test]
fn intersect_disjoint_is_empty() {
    let a = Rect::new(0, 0, 4, 4);
    let b = Rect::new(10, 10, 4, 4);
    assert!(a.intersect(&b).is_empty());
    assert!(b.intersect(&a).is_empty());
    let c = Rect::new(4, 0, 4, 4);
    assert!(a.intersect(&c).is_empty());
}

#[test]
fn rect_edges_of_a_flat_rect() {
    let r = Rect::new(3, 4, 2, 0);
    assert_eq!(r.right(), 4);
    assert_eq!(r.bottom(), 3);
}

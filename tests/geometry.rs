use bdf_parser::geometry::{BoundingBox, Coord};

fn bbox(x: i32, y: i32, w: i32, h: i32) -> BoundingBox {
    BoundingBox::new(Coord::new(x, y), Coord::new(w, h))
}

#[test]
fn union_with_an_empty_box_is_the_other_box() {
    let a = bbox(-1, 2, 3, 4);
    for empty in [bbox(0, 0, 0, 0), bbox(7, 7, 0, 5), bbox(-3, 9, 5, 0)] {
        assert_eq!(a.union(&empty), a);
        assert_eq!(empty.union(&a), a);
    }
}

#[test]
fn union_spans_both_boxes() {
    assert_eq!(bbox(0, 0, 2, 2).union(&bbox(3, 3, 2, 2)), bbox(0, 0, 5, 5));
    assert_eq!(bbox(-2, 1, 1, 1).union(&bbox(0, -3, 4, 2)), bbox(-2, -3, 6, 5));
    assert_eq!(bbox(0, 0, 10, 10).union(&bbox(2, 2, 3, 3)), bbox(0, 0, 10, 10));
}

#[test]
fn union_contains_both_operands() {
    let a = bbox(-5, 4, 3, 2);
    let b = bbox(6, -1, 2, 7);
    let u = a.union(&b);
    for r in [a, b] {
        assert!(u.offset.x <= r.offset.x && u.offset.y <= r.offset.y);
        assert!(u.offset.x + u.size.x >= r.offset.x + r.size.x);
        assert!(u.offset.y + u.size.y >= r.offset.y + r.size.y);
    }
}

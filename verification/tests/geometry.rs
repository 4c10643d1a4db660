use arcade_games::geometry::{Rect, SCREEN_HEIGHT, SCREEN_WIDTH, UNITS_PER_PIXEL};

#[test]
fn window_is_800_by_600_pixels() {
    assert_eq!(SCREEN_WIDTH, 800 * UNITS_PER_PIXEL);
    assert_eq!(SCREEN_HEIGHT, 600 * UNITS_PER_PIXEL);
}

#[test]
fn contains_includes_the_border() {
    let r = Rect::new(10, 20, 30, 40);
    assert!(r.contains(10, 20));
    assert!(r.contains(40, 60));
    assert!(r.contains(25, 35));
    assert!(!r.contains(9, 20));
    assert!(!r.contains(41, 60));
    assert!(!r.contains(10, 19));
    assert!(!r.contains(10, 61));
}

#[test]
fn contains_strictly_excludes_the_border() {
    let r = Rect::new(10, 20, 30, 40);
    assert!(r.contains_strictly(11, 21));
    assert!(r.contains_strictly(39, 59));
    assert!(!r.contains_strictly(10, 30));
    assert!(!r.contains_strictly(40, 30));
    assert!(!r.contains_strictly(20, 20));
    assert!(!r.contains_strictly(20, 60));
}

#[test]
fn overlaps_counts_touching_edges() {
    let a = Rect::new(0, 0, 10, 10);
    assert!(a.overlaps(&Rect::new(10, 10, 5, 5)));
    assert!(a.overlaps(&Rect::new(-5, -5, 5, 5)));
    assert!(a.overlaps(&Rect::new(3, 3, 2, 2)));
    assert!(a.overlaps(&a));
    assert!(!a.overlaps(&Rect::new(11, 0, 5, 5)));
    assert!(!a.overlaps(&Rect::new(0, 11, 5, 5)));
    assert!(!a.overlaps(&Rect::new(-6, 0, 5, 5)));
    assert!(!a.overlaps(&Rect::new(0, -6, 5, 5)));
}

#[test]
fn overlaps_is_symmetric() {
    let rects = [
        Rect::new(0, 0, 10, 10),
        Rect::new(10, 0, 10, 10),
        Rect::new(5, 5, 1, 1),
        Rect::new(-20, -20, 5, 50),
        Rect::new(i32::MAX - 5, i32::MAX - 5, 5, 5),
        Rect::new(i32::MIN, i32::MIN, i32::MAX, i32::MAX),
    ];
    for a in &rects {
        for b in &rects {
            assert_eq!(a.overlaps(b), b.overlaps(a));
        }
    }
}

#[test]
fn edges_at_the_end_of_the_coordinate_range() {
    let r = Rect::new(i32::MAX, i32::MAX, i32::MAX, i32::MAX);
    assert!(r.contains(i32::MAX, i32::MAX));
    assert!(!r.contains(0, 0));
    let l = Rect::new(i32::MIN, i32::MIN, 1, 1);
    assert!(l.contains(i32::MIN, i32::MIN));
    assert!(!l.overlaps(&r));
}

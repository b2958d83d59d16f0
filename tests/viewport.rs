use pyrite::viewport::Viewport;

#[test]
fn new_clamps_sides_and_scale() {
    let v = Viewport::new(0, 5000, -4);
    assert_eq!(v.get_dimensions(), (3, 1024));
    assert_eq!(v.get_scale(), 1);
    let v = Viewport::new(10, 12, 3);
    assert_eq!(v.get_dimensions(), (10, 12));
    assert_eq!(v.get_dimensions_u32(), (10, 12));
    assert_eq!(v.get_scale(), 3);
}

#[test]
fn contains_is_membership() {
    let v = Viewport::new(10, 5, 1);
    assert!(v.contains(0, 0));
    assert!(v.contains(9, 4));
    assert!(!v.contains(10, 4));
    assert!(!v.contains(9, 5));
    assert!(!v.contains(-1, 0));
}

#[test]
fn set_reclamps() {
    let mut v = Viewport::new(10, 10, 2);
    v.set(2, 2000, 0);
    assert_eq!(v.get_dimensions(), (3, 1024));
    assert_eq!(v.get_scale(), 1);
}

#[test]
fn framebuffer_size_multiplies() {
    let v = Viewport::new(10, 8, 3);
    assert_eq!(v.get_framebuffer_size((16, 12)), Some((480, 288)));
    let big = Viewport::new(1024, 1024, 1 << 20);
    assert_eq!(big.get_framebuffer_size((16, 16)), None);
}

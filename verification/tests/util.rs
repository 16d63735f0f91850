use rustmatica::util::{UVec3, Vec3};

#[test]
fn vector_arithmetic() {
    let v = Vec3::new(-3, 0, 7);
    assert_eq!(v.abs(), UVec3::new(3, 0, 7));
    assert_eq!(v.signum(), Vec3::new(-1, 0, 1));
    assert_eq!(v.volume(), 0);
    assert_eq!(Vec3::new(-2, 3, -4).volume(), 24);
    assert_eq!(UVec3::new(2, 3, 4).volume(), 24);
    assert_eq!(UVec3::new(5, 0, 9).volume(), 0);
}

#[test]
fn box_extents_from_corners() {
    let a = Vec3::new(0, 0, 0);
    let b = Vec3::new(2, 2, 2);
    assert_eq!(a.size_to(&b), UVec3::new(3, 3, 3));
    assert_eq!(b.size_to(&a), UVec3::new(3, 3, 3));
    assert_eq!(a.volume_to(&b), 27);
    let c = Vec3::new(-1, -1, -1);
    let d = Vec3::new(1, 1, 1);
    assert_eq!(c.size_to(&d), UVec3::new(3, 3, 3));
    assert_eq!(c.volume_to(&d), 27);
    // a degenerate box still holds one cell per axis
    assert_eq!(a.size_to(&a), UVec3::new(1, 1, 1));
    assert_eq!(a.volume_to(&a), 1);
    // extremes of the signed range
    assert_eq!(
        Vec3::new(i32::MIN, 0, 0).abs(),
        UVec3::new(2147483648, 0, 0)
    );
}

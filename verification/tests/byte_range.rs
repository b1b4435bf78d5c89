use astchunk::byte_range::{to_u32, ByteRange};

#[test]
fn test_byte_range_contains() {
    let outer = ByteRange::new(0, 10);
    let inner = ByteRange::new(2, 8);
    let partial = ByteRange::new(5, 15);
    let same = ByteRange::new(0, 10);

    assert!(outer.contains_range(inner));
    assert!(!outer.contains_range(partial));
    assert!(outer.contains_range(same));
    assert!(!inner.contains_range(outer));
}

#[test]
fn test_byte_range_overlaps() {
    let a = ByteRange::new(0, 10);
    let b = ByteRange::new(5, 15);
    let c = ByteRange::new(10, 20);
    let d = ByteRange::new(0, 0);

    assert!(a.overlaps(b));
    assert!(b.overlaps(a));
    assert!(!a.overlaps(c)); // [0,10) and [10,20) don't overlap
    assert!(!a.overlaps(d)); // empty range
}

#[test]
fn test_byte_range_new() {
    let range = ByteRange::new(5, 10);
    assert_eq!(range.start, 5);
    assert_eq!(range.end, 10);
}

#[test]
fn overlap_is_symmetric_on_samples() {
    let ranges = [
        ByteRange::new(0, 3),
        ByteRange::new(2, 5),
        ByteRange::new(5, 5),
        ByteRange::new(4, 9),
    ];
    for a in ranges {
        for b in ranges {
            assert_eq!(a.overlaps(b), b.overlaps(a));
        }
    }
}

#[test]
fn to_u32_keeps_value() {
    assert_eq!(to_u32(0), 0);
    assert_eq!(to_u32(4_294_967_295), u32::MAX);
}

use vm_library::conversions::{to_i64, to_u64};

#[test]
fn example() {
    let max = u64::MAX;
    let conved = max as i64;
    assert_eq!(max, conved as u64);
    assert_eq!(to_i64(max).unwrap(), conved);
    assert_eq!(max, to_u64(to_i64(max).unwrap()));
}

#[test]
fn to_i64_keeps_small_handles() {
    assert_eq!(to_i64(0).unwrap(), 0);
    assert_eq!(to_i64(4294967297).unwrap(), 4294967297);
    assert_eq!(to_i64(0x7FFF_FFFF_FFFF_FFFF).unwrap(), i64::MAX);
}

#[test]
fn to_i64_wraps_large_handles() {
    assert_eq!(to_i64(0x8000_0000_0000_0000).unwrap(), i64::MIN);
    assert_eq!(to_i64(u64::MAX).unwrap(), -1);
    assert_eq!(to_u64(-1), u64::MAX);
    assert_eq!(to_u64(i64::MIN), 0x8000_0000_0000_0000);
}

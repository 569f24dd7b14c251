use pathrs_renderer::simd::{pack_lanes, i32x8, Bitmask};

#[test]
fn splat_fills_every_lane() {
    assert_eq!(i32x8::splat(7).lanes, [7; 8]);
}

#[test]
fn from_array_keeps_lanes() {
    let a = [1, 2, 3, 4, 5, 6, 7, 8];
    assert_eq!(i32x8::from_array(a).lanes, a);
    assert_eq!(i32x8::from_array(a).lane(3), 4);
}

#[test]
fn select_takes_second_where_mask_set() {
    let a = i32x8::splat(0);
    let b = i32x8::from_array([1, 2, 3, 4, 5, 6, 7, 8]);
    let m = Bitmask { lanes: [true, false, true, false, false, false, false, true] };
    assert_eq!(i32x8::select(a, b, m).lanes, [1, 0, 3, 0, 0, 0, 0, 8]);
}

#[test]
fn add_wraps() {
    let r = i32x8::splat(i32::MAX).add(i32x8::splat(1));
    assert_eq!(r.lanes, [i32::MIN; 8]);
}

#[test]
fn movemask_sets_bit_per_lane() {
    let m = Bitmask { lanes: [true, false, false, true, false, false, false, true] };
    assert_eq!(m.movemask(), 0b1000_1001);
    assert_eq!(Bitmask { lanes: [false; 8] }.movemask(), 0);
    assert_eq!(Bitmask { lanes: [true; 8] }.movemask(), 255);
}

#[test]
fn first_lane_is_lowest_index() {
    let m = Bitmask { lanes: [false, false, true, false, true, false, false, false] };
    assert_eq!(m.first_lane(), Some(2));
    assert_eq!(Bitmask { lanes: [false; 8] }.first_lane(), None);
}

#[test]
fn and_or_are_lane_wise() {
    let a = Bitmask { lanes: [true, true, false, false, true, false, true, false] };
    let b = Bitmask { lanes: [true, false, true, false, true, true, false, false] };
    assert_eq!(a.and(b).lanes, [true, false, false, false, true, false, false, false]);
    assert_eq!(a.or(b).lanes, [true, true, true, false, true, true, true, false]);
}

#[test]
fn pack_pads_trailing_group() {
    let v: Vec<u32> = (1..=10).collect();
    let p = pack_lanes(&v, 0);
    assert_eq!(p, vec![[1, 2, 3, 4, 5, 6, 7, 8], [9, 10, 0, 0, 0, 0, 0, 0]]);
    assert!(pack_lanes::<u32>(&[], 0).is_empty());
    let eight: Vec<u32> = (0..8).collect();
    assert_eq!(pack_lanes(&eight, 99).len(), 1);
}

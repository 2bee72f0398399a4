use fractal_core::float_bits::Float32;
use fractal_core::key_frame::{InterpolationSpan, KeyFrameList};
use fractal_core::key_time::KeyTime;

fn t(x: f32) -> KeyTime {
    KeyTime(Float32(x.to_bits()))
}

#[test]
fn key_time_order_is_total() {
    assert!(t(-1.0).is_before(&t(0.0)));
    assert!(t(-0.0).is_before(&t(0.0)));
    assert!(t(1.0).is_before(&t(f32::INFINITY)));
    assert!(t(f32::INFINITY).is_before(&t(f32::NAN)));
    assert!(t(2.0).is_same_time(&t(2.0)));
    assert!(!t(0.0).is_same_time(&t(-0.0)));
    assert!(t(2.0) == t(2.0));
    assert!(t(0.0) != t(-0.0));
    assert!(t(f32::NAN) == t(f32::NAN));
}

#[test]
fn new_list_closes_to_the_seed() {
    let list = KeyFrameList::new(7u32);
    let closed = list.into_closed();
    assert_eq!(closed.len(), 1);
    assert_eq!(f32::from_bits(closed.max_time().0 .0), 0.0);
    match closed.get_interpolation_span(t(3.0)) {
        InterpolationSpan::Single(v) => assert_eq!(v, 7),
        _ => panic!("expected a single value"),
    }
}

#[test]
fn frames_are_sorted_and_last_write_wins() {
    let mut list = KeyFrameList::new(0u32);
    list.add_key_frame(t(3.0), 30);
    list.add_key_frame(t(1.0), 10);
    list.add_key_frame(t(2.0), 20);
    list.add_key_frame(t(1.0), 11);
    list.add_key_frame(t(0.0), 5);
    let closed = list.into_closed();
    assert_eq!(closed.len(), 4);
    assert_eq!(f32::from_bits(closed.max_time().0 .0), 3.0);
    // exactly on a key frame (not the first): the span ends at that frame
    match closed.get_interpolation_span(t(1.0)) {
        InterpolationSpan::Between(a, b) => {
            assert_eq!((f32::from_bits(a.time.0 .0), a.value), (0.0, 5));
            assert_eq!((f32::from_bits(b.time.0 .0), b.value), (1.0, 11));
        }
        _ => panic!("expected a span"),
    }
    match closed.get_interpolation_span(t(2.5)) {
        InterpolationSpan::Between(a, b) => {
            assert_eq!(a.value, 20);
            assert_eq!(b.value, 30);
        }
        _ => panic!("expected a span"),
    }
    match closed.get_interpolation_span(t(0.0)) {
        InterpolationSpan::Single(v) => assert_eq!(v, 5),
        _ => panic!("expected the first value"),
    }
    match closed.get_interpolation_span(t(-4.0)) {
        InterpolationSpan::Single(v) => assert_eq!(v, 5),
        _ => panic!("expected the first value"),
    }
    match closed.get_interpolation_span(t(9.0)) {
        InterpolationSpan::Single(v) => assert_eq!(v, 30),
        _ => panic!("expected the last value"),
    }
}

#[test]
fn order_of_distinct_times_does_not_matter() {
    let mut a = KeyFrameList::new(1u16);
    a.add_key_frame(t(2.0), 4);
    a.add_key_frame(t(1.0), 2);
    let mut b = KeyFrameList::new(1u16);
    b.add_key_frame(t(1.0), 2);
    b.add_key_frame(t(2.0), 4);
    let (a, b) = (a.into_closed(), b.into_closed());
    for probe in [-1.0f32, 0.0, 0.5, 1.0, 1.5, 2.0, 3.0] {
        let sa = a.get_interpolation_span(t(probe));
        let sb = b.get_interpolation_span(t(probe));
        assert_eq!(format!("{sa:?}"), format!("{sb:?}"));
    }
}

#[test]
fn nan_and_negative_times_sort_deterministically() {
    let mut list = KeyFrameList::new(0u32);
    list.add_key_frame(t(f32::NAN), 99);
    list.add_key_frame(t(-1.0), 1);
    let closed = list.into_closed();
    assert_eq!(closed.len(), 3);
    assert_eq!(f32::from_bits(closed.max_time().0 .0), 0.0);
    match closed.get_interpolation_span(t(-2.0)) {
        InterpolationSpan::Single(v) => assert_eq!(v, 1),
        _ => panic!("expected the first value"),
    }
    match closed.get_interpolation_span(t(f32::INFINITY)) {
        InterpolationSpan::Between(a, b) => {
            assert_eq!(a.value, 0);
            assert_eq!(b.value, 99);
        }
        _ => panic!("expected a span"),
    }
}

#[test]
fn max_time_passes_over_nan_times() {
    let mut list = KeyFrameList::new(1u32);
    list.add_key_frame(t(2.0), 3);
    list.add_key_frame(t(f32::NAN), 4);
    let closed = list.into_closed();
    assert_eq!(closed.len(), 3);
    let end = f32::from_bits(closed.max_time().0 .0);
    assert_eq!(end, 2.0);
    assert!(end >= 0.0);
}

#[test]
fn max_time_is_zero_when_every_added_time_is_negative() {
    let mut list = KeyFrameList::new(1u32);
    list.add_key_frame(t(-2.0), 3);
    list.add_key_frame(t(-0.0), 4);
    let closed = list.into_closed();
    assert_eq!(closed.max_time().0 .0, 0u32);
}

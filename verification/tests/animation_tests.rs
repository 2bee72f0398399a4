use fractal_core::animation::{
    AnimationRecorder, AnimationStartConfiguration, EXPONENT_ERROR, EXTENSION_ERROR,
};
use fractal_core::float_bits::{Float32, Float64};
use fractal_core::key_frame::InterpolationSpan;
use fractal_core::key_time::KeyTime;

fn t(x: f32) -> KeyTime {
    KeyTime(Float32(x.to_bits()))
}

fn f(x: f64) -> Float64 {
    Float64(x.to_bits())
}

#[test]
fn default_configuration_mirrors_field_defaults() {
    let c = AnimationStartConfiguration::default();
    assert_eq!(c.exponent, 2);
    assert_eq!(f64::from_bits(c.extension.0), 1.5);
    assert_eq!(c.max_iterations, 1000);
    assert_eq!(f32::from_bits(c.log_strength.0), 0.0);
    assert_eq!(f64::from_bits(c.seed_real.0), 0.0);
    assert_eq!(f64::from_bits(c.center_point_imag.0), 0.0);
}

#[test]
fn exponent_below_two_is_rejected() {
    let mut r = AnimationRecorder::new(AnimationStartConfiguration::default());
    assert_eq!(r.set_keyframe_exponent(t(1.0), 1), Err(EXPONENT_ERROR));
    assert_eq!(r.set_keyframe_exponent(t(1.0), 0), Err(EXPONENT_ERROR));
    assert_eq!(r.set_keyframe_exponent(t(2.0), 5), Ok(()));
    let p = r.into_player();
    assert_eq!(f32::from_bits(p.max_time().0), 2.0);
    match p.exponent().get_interpolation_span(t(1.0)) {
        InterpolationSpan::Between(a, b) => assert_eq!((a.value, b.value), (2, 5)),
        _ => panic!("expected a span"),
    }
}

#[test]
fn extension_must_be_positive_and_finite() {
    let mut r = AnimationRecorder::default();
    for bad in [0.0, -0.0, -1.0, f64::INFINITY, f64::NEG_INFINITY, f64::NAN] {
        assert_eq!(r.set_keyframe_extension(t(1.0), f(bad)), Err(EXTENSION_ERROR));
    }
    assert_eq!(r.set_keyframe_extension(t(6.0), f(1e-4)), Ok(()));
    let p = r.into_player();
    assert_eq!(p.extension().len(), 2);
    assert_eq!(f32::from_bits(p.max_time().0), 6.0);
}

#[test]
fn max_time_is_the_latest_key_frame_across_tracks() {
    let mut r = AnimationRecorder::new(AnimationStartConfiguration::default());
    r.set_keyframe_fractal_seed_value(t(3.0), f(-0.8), f(0.156));
    r.set_keyframe_render_center_point(t(7.5), f(0.1), f(0.2));
    r.set_keyframe_max_iterations(t(1.0), 300);
    r.set_keyframe_log_strength(t(2.0), Float32(2.0f32.to_bits()));
    let p = r.into_player();
    assert_eq!(f32::from_bits(p.max_time().0), 7.5);
    match p.render_center_point().get_interpolation_span(t(10.0)) {
        InterpolationSpan::Single(v) => {
            assert_eq!(f64::from_bits(v.real.0), 0.1);
            assert_eq!(f64::from_bits(v.imag.0), 0.2);
        }
        _ => panic!("expected the last value"),
    }
}

#[test]
fn max_time_matches_f32_max_fold_and_skips_nan() {
    let mut r = AnimationRecorder::new(AnimationStartConfiguration::default());
    r.set_keyframe_max_iterations(t(f32::NAN), 10);
    r.set_keyframe_log_strength(t(4.0), Float32(1.0f32.to_bits()));
    let p = r.into_player();
    let expected = [0.0f32, f32::NAN, 4.0].into_iter().fold(0.0f32, f32::max);
    assert_eq!(f32::from_bits(p.max_time().0), expected);
    assert_eq!(expected, 4.0);

    let empty = AnimationRecorder::new(AnimationStartConfiguration::default()).into_player();
    assert_eq!(f32::from_bits(empty.max_time().0), 0.0);
}

#[test]
fn negative_times_do_not_lower_max_time() {
    let mut r = AnimationRecorder::new(AnimationStartConfiguration::default());
    r.set_keyframe_max_iterations(t(-3.0), 10);
    let p = r.into_player();
    assert_eq!(f32::from_bits(p.max_time().0), 0.0);
}

#[test]
fn unconfigured_player_holds_the_start_configuration() {
    let p = AnimationRecorder::default().into_player();
    for probe in [-1.0f32, 0.0, 3.0] {
        match p.exponent().get_interpolation_span(t(probe)) {
            InterpolationSpan::Single(v) => assert_eq!(v, 2),
            _ => panic!("expected a single value"),
        }
        match p.max_iterations().get_interpolation_span(t(probe)) {
            InterpolationSpan::Single(v) => assert_eq!(v, 1000),
            _ => panic!("expected a single value"),
        }
        match p.extension().get_interpolation_span(t(probe)) {
            InterpolationSpan::Single(v) => assert_eq!(f64::from_bits(v.0 .0), 1.5),
            _ => panic!("expected a single value"),
        }
        match p.log_strength_for_color().get_interpolation_span(t(probe)) {
            InterpolationSpan::Single(v) => assert_eq!(f32::from_bits(v.0), 0.0),
            _ => panic!("expected a single value"),
        }
        match p.fractal_seed_value().get_interpolation_span(t(probe)) {
            InterpolationSpan::Single(v) => assert_eq!(f64::from_bits(v.real.0), 0.0),
            _ => panic!("expected a single value"),
        }
    }
}

#[test]
fn rejected_key_frames_leave_the_tracks_unchanged() {
    let mut r = AnimationRecorder::default();
    let _ = r.set_keyframe_exponent(t(5.0), 1);
    let _ = r.set_keyframe_extension(t(5.0), f(-2.0));
    let p = r.into_player();
    assert_eq!(p.exponent().len(), 1);
    assert_eq!(p.extension().len(), 1);
    assert_eq!(f32::from_bits(p.max_time().0), 0.0);
}

#[test]
fn a_nan_key_frame_does_not_hide_a_track_end() {
    let mut r = AnimationRecorder::default();
    r.set_keyframe_max_iterations(t(5.0), 10);
    r.set_keyframe_max_iterations(t(f32::NAN), 20);
    r.set_keyframe_log_strength(t(3.0), Float32(1.0f32.to_bits()));
    let p = r.into_player();
    assert_eq!(f32::from_bits(p.max_iterations().max_time().0 .0), 5.0);
    assert_eq!(f32::from_bits(p.max_time().0), 5.0);
}

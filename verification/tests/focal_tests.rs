use fractal_core::float_bits::Float64;
use fractal_core::focal_point::{index_of_first_minimum, take_nearest, FocalPoint, FocalPointCollection};
use fractal_core::focal_system::{validate_search_radii, FocalSystemInterface, PathGenerationCriterion};
use fractal_core::fractal_config::{FractalConfig, FractalType};
use fractal_core::interpol_value::PseudoComplex;

fn f(x: f64) -> Float64 {
    Float64(x.to_bits())
}

fn fp(real: f64, eval: f64) -> FocalPoint {
    FocalPoint { point: PseudoComplex::new(f(real), f(0.0)), evaluation: f(eval) }
}

fn evals<'a>(points: impl IntoIterator<Item = &'a FocalPoint>) -> Vec<f64> {
    points.into_iter().map(|p| f64::from_bits(p.evaluation.0)).collect()
}

#[test]
fn collection_keeps_the_best_points() {
    let mut c = FocalPointCollection::new(3);
    let slice: Vec<FocalPoint> =
        [0.5, 0.1, 0.9, 0.3, 0.7, 0.2].iter().enumerate().map(|(i, &e)| fp(i as f64, e)).collect();
    c.append(&slice);
    let mut kept = evals(c.get_iterator());
    kept.sort_by(|a, b| a.total_cmp(b));
    assert_eq!(kept, vec![0.5, 0.7, 0.9]);
}

#[test]
fn collection_fills_up_to_capacity() {
    let mut c = FocalPointCollection::new(5);
    c.append(&[fp(0.0, 0.2), fp(1.0, 0.1)]);
    assert_eq!(evals(c.get_iterator()), vec![0.2, 0.1]);
    c.append(&[fp(2.0, 0.4)]);
    assert_eq!(c.get_iterator().count(), 3);
}

#[test]
fn equal_evaluation_does_not_replace() {
    let mut c = FocalPointCollection::new(1);
    c.append(&[fp(1.0, 0.5), fp(2.0, 0.5)]);
    assert_eq!(f64::from_bits(c.get_iterator().next().unwrap().point.real.0), 1.0);
    c.append(&[fp(3.0, 0.6)]);
    assert_eq!(f64::from_bits(c.get_iterator().next().unwrap().point.real.0), 3.0);
}

#[test]
fn empty_collection_accepts_empty_slice() {
    let mut c = FocalPointCollection::new(0);
    c.append(&[]);
    assert_eq!(c.get_iterator().count(), 0);
    assert!(c.get_descending_path().is_empty());
}

#[test]
fn descending_path_orders_by_evaluation() {
    let mut c = FocalPointCollection::new(4);
    c.append(&[fp(0.0, 0.3), fp(1.0, 0.8), fp(2.0, 0.1), fp(3.0, 0.5)]);
    let path = c.get_descending_path();
    assert_eq!(evals(&path), vec![0.8, 0.5, 0.3, 0.1]);
}

#[test]
fn first_minimum_is_the_first_of_equals() {
    let v = vec![f(3.0), f(1.0), f(2.0), f(1.0)];
    assert_eq!(index_of_first_minimum(&v), 1);
    let w = vec![f(0.0), f(-0.0)];
    assert_eq!(index_of_first_minimum(&w), 1);
    assert_eq!(index_of_first_minimum(&vec![f(5.0)]), 0);
}

#[test]
fn search_radii_are_validated() {
    assert!(validate_search_radii(f(0.0), f(1.5)).is_ok());
    assert!(validate_search_radii(f(-0.0), f(1.5)).is_ok());
    let e = validate_search_radii(f(2.0), f(1.5)).unwrap_err();
    assert_eq!(f64::from_bits(e.extension_min.0), 2.0);
    assert_eq!(f64::from_bits(e.extension.0), 1.5);
    assert!(validate_search_radii(f(1.5), f(1.5)).is_err());
    assert!(validate_search_radii(f(-0.1), f(1.5)).is_err());
    assert!(validate_search_radii(f(f64::NAN), f(1.5)).is_err());
    assert!(validate_search_radii(f(0.0), f(f64::NAN)).is_err());
}

#[test]
fn focal_interface_keeps_the_radius_invariant() {
    let mut s = FocalSystemInterface::default();
    assert!(s.set_extension(f(2.0)).is_ok());
    assert!(s.set_extension_min(f(0.5)).is_ok());
    assert!(s.set_extension(f(0.5)).is_err());
    assert!(s.set_extension_min(f(2.0)).is_err());
    let (min, max) = s.get_search_radii();
    assert_eq!((f64::from_bits(min.0), f64::from_bits(max.0)), (0.5, 2.0));
    s.set_evaluation_extension(f(1e-4));
    assert_eq!(f64::from_bits(s.get_evaluation_extension().0), 1e-4);
}

#[test]
fn focal_interface_defaults() {
    let s = FocalSystemInterface::default();
    let (min, max) = s.get_search_radii();
    assert_eq!((f64::from_bits(min.0), f64::from_bits(max.0)), (0.0, 1.5));
    assert_eq!(f64::from_bits(s.get_evaluation_extension().0), 1.5);
    assert_eq!(s.get_maximum_iterations(), 1000);
    let c = s.get_fractal_config();
    assert_eq!(c.fractal_type, FractalType::Mandelbrot);
    assert_eq!(c.exponent, 2);
}

#[test]
fn focal_interface_setters() {
    let mut s = FocalSystemInterface::default();
    s.set_fractal_type(FractalType::Julia);
    s.set_fractal_exponent(3);
    s.set_fractal_seed_value(f(-0.8), f(0.156));
    s.set_maximum_iterations(300);
    s.set_center_point(f(-0.75), f(0.1));
    let c = s.get_fractal_config();
    assert_eq!(c.fractal_type, FractalType::Julia);
    assert_eq!(c.exponent, 3);
    assert_eq!(f64::from_bits(c.seed_real.0), -0.8);
    assert_eq!(f64::from_bits(c.seed_imag.0), 0.156);
    assert_eq!(s.get_maximum_iterations(), 300);
    assert_eq!(f64::from_bits(s.get_center_point().real.0), -0.75);
}

#[test]
fn fractal_config_default() {
    let c = FractalConfig::default();
    assert_eq!(c.fractal_type, FractalType::Mandelbrot);
    assert_eq!(FractalType::default(), FractalType::Mandelbrot);
    assert_eq!(c.exponent, 2);
    assert_eq!(f64::from_bits(c.seed_real.0), 0.0);
    assert_ne!(PathGenerationCriterion::ShortPath, PathGenerationCriterion::DescendingValuePath);
}

fn lcg_values(n: usize, mut state: u64) -> Vec<f64> {
    let mut out = Vec::with_capacity(n);
    for _ in 0..n {
        state = state.wrapping_mul(6364136223846793005).wrapping_add(1442695040888963407);
        out.push(((state >> 33) % 1000) as f64 / 1000.0);
    }
    out
}

#[test]
fn kept_points_are_the_top_evaluations() {
    for (n, cap, seed) in [(50usize, 7usize, 1u64), (10, 10, 2), (5, 9, 3), (200, 1, 4), (64, 13, 5)] {
        let values = lcg_values(n, seed);
        let slice: Vec<FocalPoint> = values.iter().enumerate().map(|(i, &e)| fp(i as f64, e)).collect();
        let mut c = FocalPointCollection::new(cap);
        // offered in two batches
        let (first, second) = slice.split_at(n / 3);
        c.append(first);
        c.append(second);
        let mut kept = evals(c.get_iterator());
        kept.sort_by(|a, b| b.total_cmp(a));
        let mut expected = values.clone();
        expected.sort_by(|a, b| b.total_cmp(a));
        expected.truncate(cap.min(n));
        assert_eq!(kept, expected);
        let path = c.get_descending_path();
        assert_eq!(evals(&path), expected);
    }
}

#[test]
fn take_nearest_removes_the_first_nearest_point() {
    let mut todo = vec![fp(1.0, 0.1), fp(2.0, 0.2), fp(3.0, 0.3), fp(4.0, 0.4)];
    let distances = vec![f(9.0), f(1.0), f(1.0), f(4.0)];
    let taken = take_nearest(&mut todo, &distances);
    assert_eq!(f64::from_bits(taken.point.real.0), 2.0);
    // the last point fills the freed place
    let reals: Vec<f64> = todo.iter().map(|p| f64::from_bits(p.point.real.0)).collect();
    assert_eq!(reals, vec![1.0, 4.0, 3.0]);
    let mut single = vec![fp(7.0, 0.7)];
    let last = take_nearest(&mut single, &vec![f(0.0)]);
    assert_eq!(f64::from_bits(last.point.real.0), 7.0);
    assert!(single.is_empty());
}

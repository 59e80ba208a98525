use lrgb_merge::compose::{check_planes, compose_i32, compose_u32, planar_from_triples};
use lrgb_merge::plane::{Composite, CompositeData, Encoding, Error, ImagePlane, PlaneData};
use lrgb_merge::select::{find_mono_index, is_grayscale_shape};

fn plane_i32(shape: Vec<usize>, data: Vec<Option<i32>>) -> ImagePlane {
    ImagePlane { shape, data: PlaneData::I32(data) }
}

#[test]
fn grayscale_shapes() {
    assert!(is_grayscale_shape(&vec![10, 20]));
    assert!(is_grayscale_shape(&vec![10, 20, 1]));
    assert!(!is_grayscale_shape(&vec![10, 20, 3]));
    assert!(!is_grayscale_shape(&vec![10]));
    assert!(!is_grayscale_shape(&vec![]));
    assert!(!is_grayscale_shape(&vec![10, 20, 1, 1]));
}

#[test]
fn selector_single_candidate() {
    let shapes = vec![None, Some(vec![10usize, 20usize]), Some(vec![10usize, 20usize, 3usize])];
    assert_eq!(find_mono_index(&shapes), Ok(1));
}

#[test]
fn selector_trailing_singleton() {
    let shapes = vec![Some(vec![4usize, 5usize, 1usize])];
    assert_eq!(find_mono_index(&shapes), Ok(0));
}

#[test]
fn selector_ambiguous() {
    let shapes = vec![Some(vec![4usize, 5usize]), Some(vec![4usize, 5usize, 1usize])];
    assert_eq!(find_mono_index(&shapes), Err(Error::AmbiguousGrayscale));
}

#[test]
fn selector_not_found() {
    assert_eq!(find_mono_index(&vec![]), Err(Error::GrayscaleNotFound));
    let shapes = vec![None, Some(vec![4usize, 5usize, 3usize])];
    assert_eq!(find_mono_index(&shapes), Err(Error::GrayscaleNotFound));
}

#[test]
fn selector_skips_unrecognized_encodings() {
    // extensions of unrecognized encodings never count and never trigger ambiguity
    let shapes = vec![None, Some(vec![2usize, 2usize]), None];
    assert_eq!(find_mono_index(&shapes), Ok(1));
}

#[test]
fn compose_ratios_i32() {
    // L=9, R=1, G=2, B=3: exact rationals 1.5, 3, 4.5 truncate toward zero
    let l = vec![Some(9)];
    let r = vec![Some(1)];
    let g = vec![Some(2)];
    let b = vec![Some(3)];
    assert_eq!(compose_i32(1, 1, &l, &r, &g, &b), vec![1, 3, 4]);
}

#[test]
fn compose_ratios_u32() {
    let l = vec![Some(9u32)];
    let r = vec![Some(1u32)];
    let g = vec![Some(2u32)];
    let b = vec![Some(3u32)];
    assert_eq!(compose_u32(1, 1, &l, &r, &g, &b), vec![1, 3, 4]);
}

#[test]
fn compose_negative_truncates_toward_zero() {
    let l = vec![Some(-9)];
    let r = vec![Some(1)];
    let g = vec![Some(2)];
    let b = vec![Some(3)];
    assert_eq!(compose_i32(1, 1, &l, &r, &g, &b), vec![-1, -3, -4]);
}

#[test]
fn compose_zero_sum_is_black() {
    let l = vec![Some(10), Some(7)];
    let r = vec![Some(0), Some(1)];
    let g = vec![Some(0), Some(1)];
    let b = vec![Some(0), Some(2)];
    // pixel 0 has chrominance sum zero: black there, computed elsewhere
    assert_eq!(compose_i32(2, 1, &l, &r, &g, &b), vec![0, 1, 0, 1, 0, 3]);
}

#[test]
fn compose_zero_sum_cancelling_is_black() {
    // a sum that cancels to zero from nonzero samples is also black
    let l = vec![Some(10)];
    let r = vec![Some(5)];
    let g = vec![Some(-3)];
    let b = vec![Some(-2)];
    assert_eq!(compose_i32(1, 1, &l, &r, &g, &b), vec![0, 0, 0]);
}

#[test]
fn compose_missing_sample_is_black() {
    // a no-data marker on any of the four inputs blacks the pixel out
    let l = vec![None, Some(9)];
    let r = vec![Some(1), Some(1)];
    let g = vec![Some(2), Some(2)];
    let b = vec![Some(3), Some(3)];
    assert_eq!(compose_i32(2, 1, &l, &r, &g, &b), vec![0, 1, 0, 3, 0, 4]);

    let l2 = vec![Some(9u32)];
    let r2 = vec![Some(1u32)];
    let g2 = vec![None];
    let b2 = vec![Some(3u32)];
    assert_eq!(compose_u32(1, 1, &l2, &r2, &g2, &b2), vec![0, 0, 0]);
}

#[test]
fn compose_clamps_to_encoding_range() {
    // red's exact quotient is 2^31, one past i32::MAX: clamped;
    // blue's is 2147483647 / -2147483647 == -1
    let l = vec![Some(i32::MAX)];
    let r = vec![Some(i32::MIN)];
    let g = vec![Some(0)];
    let b = vec![Some(1)];
    assert_eq!(compose_i32(1, 1, &l, &r, &g, &b), vec![i32::MAX, 0, -1]);
}

#[test]
fn compose_empty_planes() {
    let none: Vec<Option<i32>> = vec![];
    assert_eq!(compose_i32(0, 0, &none, &none, &none, &none), Vec::<i32>::new());
}

#[test]
fn compose_is_deterministic() {
    let l = vec![Some(100), None, Some(-50), Some(0)];
    let r = vec![Some(3), Some(1), Some(-7), Some(2)];
    let g = vec![Some(0), Some(1), Some(11), Some(2)];
    let b = vec![Some(9), Some(1), Some(13), Some(2)];
    let once = compose_i32(2, 2, &l, &r, &g, &b);
    let twice = compose_i32(2, 2, &l, &r, &g, &b);
    assert_eq!(once, twice);
}

#[test]
fn check_planes_accepts_conformant() {
    let l = plane_i32(vec![2, 2], vec![Some(1); 4]);
    let r = plane_i32(vec![2, 2], vec![Some(2); 4]);
    let g = plane_i32(vec![2, 2], vec![Some(3); 4]);
    let b = plane_i32(vec![2, 2], vec![Some(4); 4]);
    assert_eq!(check_planes(&l, &r, &g, &b), Ok((2, 2)));
}

#[test]
fn check_planes_encoding_mismatch() {
    let l = ImagePlane { shape: vec![2, 2], data: PlaneData::F32(vec![0; 4]) };
    let r = plane_i32(vec![2, 2], vec![Some(2); 4]);
    let g = plane_i32(vec![2, 2], vec![Some(3); 4]);
    let b = plane_i32(vec![2, 2], vec![Some(4); 4]);
    assert_eq!(check_planes(&l, &r, &g, &b), Err(Error::EncodingMismatch));
}

#[test]
fn check_planes_shape_mismatch() {
    let l = plane_i32(vec![2, 2], vec![Some(1); 4]);
    let r = plane_i32(vec![2, 2], vec![Some(2); 4]);
    let g = plane_i32(vec![3, 1], vec![Some(3); 3]);
    let b = plane_i32(vec![2, 2], vec![Some(4); 4]);
    assert_eq!(check_planes(&l, &r, &g, &b), Err(Error::ShapeMismatch));
}

#[test]
fn check_planes_malformed_luminance_shape() {
    let l = plane_i32(vec![4], vec![Some(1); 4]);
    let r = plane_i32(vec![4], vec![Some(2); 4]);
    let g = plane_i32(vec![4], vec![Some(3); 4]);
    let b = plane_i32(vec![4], vec![Some(4); 4]);
    assert_eq!(check_planes(&l, &r, &g, &b), Err(Error::ShapeMismatch));
}

#[test]
fn composite_shape_is_width_height_three() {
    let c = Composite::new(2, 2, CompositeData::U32(vec![0u32; 12]));
    assert_eq!(c.shape(), vec![2, 2, 3]);
}

#[test]
fn composite_from_composed_planes() {
    let l = vec![Some(9u32), Some(8u32)];
    let r = vec![Some(1u32), Some(0u32)];
    let g = vec![Some(2u32), Some(4u32)];
    let b = vec![Some(3u32), Some(4u32)];
    let out = compose_u32(2, 1, &l, &r, &g, &b);
    assert_eq!(out.len(), 6);
    let c = Composite::new(2, 1, CompositeData::U32(out));
    assert_eq!(c.shape(), vec![2, 1, 3]);
}

#[test]
fn planar_layout() {
    let triples = vec![(1, 2, 3), (4, 5, 6)];
    assert_eq!(planar_from_triples(&triples), vec![1, 4, 2, 5, 3, 6]);
}

#[test]
fn planar_layout_floats() {
    let triples = vec![(2.5f64, 2.5f64, 5.0f64)];
    assert_eq!(planar_from_triples(&triples), vec![2.5, 2.5, 5.0]);
}

#[test]
fn encodings_compare() {
    assert_eq!(Encoding::I32, Encoding::I32);
    assert_ne!(Encoding::F32, Encoding::F64);
}

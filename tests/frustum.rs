use frustum_query::frustum::{CLIP_LIMIT, SCALAR_LIMIT};
use frustum_query::Frustum;

fn identity() -> [i64; 16] {
    [1, 0, 0, 0, 0, 1, 0, 0, 0, 0, 1, 0, 0, 0, 0, 1]
}

fn identity_rows() -> [[i64; 4]; 4] {
    [[1, 0, 0, 0], [0, 1, 0, 0], [0, 0, 1, 0], [0, 0, 0, 1]]
}

#[test]
fn identity_modelview_and_projection() {
    let frustum = Frustum::from_modelview_and_projection(&identity(), &identity());
    assert!(frustum.sphere_intersecting(&0, &0, &0, &0));
    assert!(frustum.point_intersecting(&0, &0, &0));
    assert!(!frustum.sphere_intersecting(&100, &100, &100, &0));
    assert!(!frustum.point_intersecting(&100, &100, &100));
}

#[test]
fn identity_rows_match_flat_matrices() {
    let flat = Frustum::from_modelview_and_projection(&identity(), &identity());
    let rows = Frustum::from_modelview_and_projection_2d(&identity_rows(), &identity_rows());
    for x in -2..=2 {
        for r in 0..=2 {
            assert_eq!(flat.sphere_intersecting(&x, &0, &0, &r), rows.sphere_intersecting(&x, &0, &0, &r));
            assert_eq!(flat.point_intersecting(&0, &x, &0), rows.point_intersecting(&0, &x, &0));
        }
    }
}

#[test]
fn product_order_is_modelview_rows_against_projection_columns() {
    // Translation by +3 along x in the last row, as a row-major product
    // with the modelview on the left moves the visible box to x in (2, 4).
    let modl: [i64; 16] = [1, 0, 0, 0, 0, 1, 0, 0, 0, 0, 1, 0, -3, 0, 0, 1];
    let frustum = Frustum::from_modelview_and_projection(&modl, &identity());
    assert!(frustum.point_intersecting(&3, &0, &0));
    assert!(!frustum.point_intersecting(&0, &0, &0));
    let rows_modl: [[i64; 4]; 4] = [[1, 0, 0, 0], [0, 1, 0, 0], [0, 0, 1, 0], [-3, 0, 0, 1]];
    let rows = Frustum::from_modelview_and_projection_2d(&rows_modl, &identity_rows());
    assert!(rows.point_intersecting(&3, &0, &0));
    assert!(!rows.point_intersecting(&0, &0, &0));
}

#[test]
fn point_on_plane_counts_as_outside() {
    let frustum = Frustum::from_modelview_projection(&identity());
    assert!(!frustum.point_intersecting(&1, &0, &0));
    assert!(!frustum.point_intersecting(&0, &-1, &0));
    assert!(frustum.point_intersecting(&0, &0, &0));
}

#[test]
fn zero_radius_sphere_is_point() {
    let frustum = Frustum::from_modelview_projection(&identity());
    for x in -3..=3 {
        for y in -3..=3 {
            assert_eq!(frustum.sphere_intersecting(&x, &y, &0, &0), frustum.point_intersecting(&x, &y, &0));
        }
    }
}

#[test]
fn straddling_sphere_is_visible() {
    let frustum = Frustum::from_modelview_projection(&identity());
    // distance of (2, 0, 0) to the right plane is -1
    assert!(frustum.sphere_intersecting(&2, &0, &0, &2));
    assert!(!frustum.sphere_intersecting(&2, &0, &0, &1));
    assert!(!frustum.sphere_intersecting(&2, &0, &0, &0));
}

#[test]
fn growing_radius_keeps_visible() {
    let frustum = Frustum::from_modelview_projection(&identity());
    let mut seen = false;
    for r in 0..10 {
        let v = frustum.sphere_intersecting(&5, &0, &0, &r);
        assert!(!seen || v);
        seen = v;
    }
    assert!(seen);
    assert!(!frustum.sphere_intersecting(&5, &0, &0, &4));
    assert!(frustum.sphere_intersecting(&5, &0, &0, &5));
}

#[test]
fn scaled_transform_tests_like_unit_planes() {
    // every plane of twice the identity has a normal of length 2
    let double: [i64; 16] = [2, 0, 0, 0, 0, 2, 0, 0, 0, 0, 2, 0, 0, 0, 0, 2];
    let scaled = Frustum::from_modelview_projection(&double);
    let unit = Frustum::from_modelview_projection(&identity());
    for x in -4..=4 {
        for r in -1..=4 {
            assert_eq!(scaled.sphere_intersecting(&x, &0, &0, &r), unit.sphere_intersecting(&x, &0, &0, &r));
        }
    }
    assert!(!scaled.sphere_intersecting(&2, &0, &0, &1));
    assert!(scaled.sphere_intersecting(&2, &0, &0, &2));
}

#[test]
fn irrational_normal_length_is_compared_exactly() {
    // right plane of this transform is (-1, 2, 0, 1): normal length sqrt(5)
    let clip: [i64; 16] = [1, 0, 0, 0, 0, 1, 0, 2, 0, 0, 1, 0, 0, 0, 0, 1];
    let frustum = Frustum::from_modelview_projection(&clip);
    // distance of (4, 0, 0) to it is -3 / sqrt(5) = -1.34...
    assert!(!frustum.sphere_intersecting(&4, &0, &0, &1));
    assert!(frustum.sphere_intersecting(&4, &0, &0, &2));
    assert!(!frustum.point_intersecting(&4, &0, &0));
}

#[test]
fn negative_radius_needs_depth() {
    let frustum = Frustum::from_modelview_projection(&identity());
    assert!(!frustum.sphere_intersecting(&0, &0, &0, &-1));
    let wide: [i64; 16] = [1, 0, 0, 0, 0, 1, 0, 0, 0, 0, 1, 0, 0, 0, 0, 10];
    let frustum = Frustum::from_modelview_projection(&wide);
    assert!(frustum.sphere_intersecting(&0, &0, &0, &-9));
    assert!(!frustum.sphere_intersecting(&0, &0, &0, &-10));
}

#[test]
fn extreme_values_fit() {
    let big: [i64; 16] = [
        CLIP_LIMIT, 0, 0, 0, 0, CLIP_LIMIT, 0, 0, 0, 0, CLIP_LIMIT, 0, 0, 0, 0, CLIP_LIMIT,
    ];
    let frustum = Frustum::from_modelview_projection(&big);
    let m = SCALAR_LIMIT;
    assert!(!frustum.point_intersecting(&m, &m, &m));
    assert!(frustum.sphere_intersecting(&m, &m, &-m, &m));
    assert!(!frustum.sphere_intersecting(&m, &0, &0, &(m - 2)));
    let rows: [[i64; 4]; 4] = [[m, 0, 0, 0], [0, m, 0, 0], [0, 0, m, 0], [0, 0, 0, m]];
    let from_rows = Frustum::from_modelview_and_projection_2d(&rows, &rows);
    assert!(from_rows.point_intersecting(&0, &0, &0));
    assert!(!from_rows.point_intersecting(&-m, &0, &0));
}

#[test]
fn degenerate_transform_is_refused() {
    assert!(Frustum::try_from_modelview_projection(&[0; 16]).is_none());
    // the top plane's normal is (0, 1 - 1, 0): zero
    let flat_top: [i64; 16] = [1, 0, 0, 0, 0, 1, 0, 1, 0, 0, 1, 0, 0, 0, 0, 1];
    assert!(Frustum::try_from_modelview_projection(&flat_top).is_none());
}

#[test]
fn out_of_range_transform_is_refused() {
    let mut clip = identity();
    clip[15] = CLIP_LIMIT + 1;
    assert!(Frustum::try_from_modelview_projection(&clip).is_none());
    clip[15] = -CLIP_LIMIT - 1;
    assert!(Frustum::try_from_modelview_projection(&clip).is_none());
    clip[15] = CLIP_LIMIT;
    assert!(Frustum::try_from_modelview_projection(&clip).is_some());
}

#[test]
fn checked_constructor_builds_same_frustum() {
    let checked = Frustum::try_from_modelview_projection(&identity()).unwrap();
    assert!(checked.sphere_intersecting(&0, &0, &0, &0));
    assert!(!checked.sphere_intersecting(&100, &100, &100, &0));
    assert!(checked.sphere_intersecting(&2, &0, &0, &2));
    assert!(!checked.sphere_intersecting(&2, &0, &0, &1));
}

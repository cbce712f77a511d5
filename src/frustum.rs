use vstd::prelude::*;

verus! {

/// Largest magnitude of an entry of a model-view or projection matrix, and of
/// a query object's coordinates and radius.
pub const SCALAR_LIMIT: i64 = 524288;

/// Largest magnitude of an entry of a combined transform.
pub const CLIP_LIMIT: i64 = 1099511627776;

/// Largest magnitude of a plane coefficient: each is a sum or a difference of
/// two entries of the combined transform.
pub const COEFF_LIMIT: i64 = 2199023255552;

pub open spec fn in_range(v: int, limit: int) -> bool {
    -limit <= v <= limit
}

/// Every entry of a 4x4 matrix, flattened row-major, lies within `limit`.
pub open spec fn matrix_in_range(m: Seq<i64>, limit: int) -> bool {
    m.len() == 16 && forall|i: int| 0 <= i < 16 ==> in_range(#[trigger] m[i] as int, limit)
}

/// Plane coefficients `(a, b, c, d)`: the value `a*x + b*y + c*z + d` is the
/// signed distance of `(x, y, z)` scaled by the length of `(a, b, c)`;
/// positive on the visible side.
pub type PlaneCoefficients = (int, int, int, int);

/// The column of the transform that plane `p` combines with column 3.
/// Planes come in the order right, left, bottom, top, far, near.
pub open spec fn plane_column(p: int) -> int {
    p / 2
}

/// Whether plane `p` subtracts (right, top, far) or adds (left, bottom, near)
/// its column to column 3.
pub open spec fn plane_sign(p: int) -> int {
    if p == 0 || p == 3 || p == 4 {
        -1
    } else {
        1
    }
}

/// Coefficient `k` of plane `p` of the row-major combined transform `clip`.
pub open spec fn plane_coefficient(clip: Seq<i64>, p: int, k: int) -> int {
    clip[4 * k + 3] + plane_sign(p) * clip[4 * k + plane_column(p)]
}

pub open spec fn extracted_plane(clip: Seq<i64>, p: int) -> PlaneCoefficients {
    (
        plane_coefficient(clip, p, 0),
        plane_coefficient(clip, p, 1),
        plane_coefficient(clip, p, 2),
        plane_coefficient(clip, p, 3),
    )
}

/// The six raw planes of a combined transform: right, left, bottom, top, far, near.
pub open spec fn extracted_planes(clip: Seq<i64>) -> Seq<PlaneCoefficients> {
    Seq::new(6, |p: int| extracted_plane(clip, p))
}

/// Squared Euclidean length of a plane's normal `(a, b, c)`.
pub open spec fn normal_len_sq(pl: PlaneCoefficients) -> int {
    pl.0 * pl.0 + pl.1 * pl.1 + pl.2 * pl.2
}

/// No plane of the transform has a zero normal, so every plane can be normalised.
pub open spec fn non_degenerate(clip: Seq<i64>) -> bool {
    forall|p: int| 0 <= p < 6 ==> normal_len_sq(#[trigger] extracted_plane(clip, p)) > 0
}

/// Planes that a frustum may hold: six, each with a nonzero normal, so that
/// dividing by the normal's length gives a unit normal.
pub open spec fn planes_valid(planes: Seq<PlaneCoefficients>) -> bool {
    &&& planes.len() == 6
    &&& forall|p: int| 0 <= p < 6 ==> normal_len_sq(#[trigger] planes[p]) > 0
}

/// `a*x + b*y + c*z + d`: the signed distance of a point to the plane, times
/// the length of the plane's normal.
pub open spec fn scaled_distance(pl: PlaneCoefficients, x: int, y: int, z: int) -> int {
    pl.0 * x + pl.1 * y + pl.2 * z + pl.3
}

/// With `n` the squared length of a plane's normal and `s` a scaled distance,
/// whether the true distance `s / sqrt(n)` is greater than `-r`, that is
/// whether `s + r * sqrt(n) > 0`, decided by comparing squares.
pub open spec fn exceeds_neg_radius(s: int, r: int, n: int) -> bool {
    if r >= 0 {
        s > 0 || s * s < r * r * n
    } else {
        s > 0 && s * s > r * r * n
    }
}

/// The point lies strictly on the visible side of every plane.
pub open spec fn point_inside(planes: Seq<PlaneCoefficients>, x: int, y: int, z: int) -> bool {
    forall|p: int| 0 <= p < 6 ==> scaled_distance(#[trigger] planes[p], x, y, z) > 0
}

/// No plane's distance to the center falls to `-r` or below.
pub open spec fn sphere_inside(
    planes: Seq<PlaneCoefficients>,
    x: int,
    y: int,
    z: int,
    r: int,
) -> bool {
    forall|p: int|
        0 <= p < 6 ==> exceeds_neg_radius(
            scaled_distance(#[trigger] planes[p], x, y, z),
            r,
            normal_len_sq(planes[p]),
        )
}

struct Plane {
    a: i64,
    b: i64,
    c: i64,
    d: i64,
    norm_sq: i128,
}

impl Plane {
    spec fn coefficients(&self) -> PlaneCoefficients {
        (self.a as int, self.b as int, self.c as int, self.d as int)
    }

    spec fn wf(&self) -> bool {
        &&& in_range(self.a as int, COEFF_LIMIT as int)
        &&& in_range(self.b as int, COEFF_LIMIT as int)
        &&& in_range(self.c as int, COEFF_LIMIT as int)
        &&& in_range(self.d as int, COEFF_LIMIT as int)
        &&& self.norm_sq == normal_len_sq(self.coefficients())
        &&& self.norm_sq > 0
    }
}

/// The six bounding planes of a camera's visible volume, in the order right,
/// left, bottom, top, far, near.
///
/// A plane is kept as integer coefficients together with the squared length
/// of its normal. The point and sphere tests divide by that length exactly,
/// so they give the answer that unit-length planes give, without rounding.
pub struct Frustum {
    planes: [Plane; 6],
}

impl View for Frustum {
    type V = Seq<PlaneCoefficients>;

    closed spec fn view(&self) -> Seq<PlaneCoefficients> {
        Seq::new(6, |p: int| self.planes@[p].coefficients())
    }
}

impl Frustum {
    pub closed spec fn wf(&self) -> bool {
        forall|p: int| 0 <= p < 6 ==> (#[trigger] self.planes@[p]).wf()
    }
}

proof fn lemma_square_bound(a: int, limit: int)
    requires
        in_range(a, limit),
    ensures
        0 <= a * a <= limit * limit,
{
    assert(0 <= a * a <= limit * limit) by (nonlinear_arith)
        requires
            -limit <= a <= limit,
    ;
}

fn make_plane(a: i64, b: i64, c: i64, d: i64) -> (pl: Plane)
    requires
        in_range(a as int, COEFF_LIMIT as int),
        in_range(b as int, COEFF_LIMIT as int),
        in_range(c as int, COEFF_LIMIT as int),
        in_range(d as int, COEFF_LIMIT as int),
        normal_len_sq((a as int, b as int, c as int, d as int)) > 0,
    ensures
        pl.wf(),
        pl.coefficients() == (a as int, b as int, c as int, d as int),
{
    proof {
        lemma_square_bound(a as int, COEFF_LIMIT as int);
        lemma_square_bound(b as int, COEFF_LIMIT as int);
        lemma_square_bound(c as int, COEFF_LIMIT as int);
    }
    let norm_sq = (a as i128) * (a as i128) + (b as i128) * (b as i128) + (c as i128) * (c as i128);
    Plane { a, b, c, d, norm_sq }
}

fn extract_plane(clip: &[i64; 16], p: usize) -> (pl: Plane)
    requires
        p < 6,
        matrix_in_range(clip@, CLIP_LIMIT as int),
        normal_len_sq(extracted_plane(clip@, p as int)) > 0,
    ensures
        pl.wf(),
        pl.coefficients() == extracted_plane(clip@, p as int),
{
    let col: usize = p / 2;
    let subtract = p == 0 || p == 3 || p == 4;
    assert(in_range(clip@[3] as int, CLIP_LIMIT as int));
    assert(in_range(clip@[7] as int, CLIP_LIMIT as int));
    assert(in_range(clip@[11] as int, CLIP_LIMIT as int));
    assert(in_range(clip@[15] as int, CLIP_LIMIT as int));
    assert(in_range(clip@[col as int] as int, CLIP_LIMIT as int));
    assert(in_range(clip@[4 + col as int] as int, CLIP_LIMIT as int));
    assert(in_range(clip@[8 + col as int] as int, CLIP_LIMIT as int));
    assert(in_range(clip@[12 + col as int] as int, CLIP_LIMIT as int));
    if subtract {
        make_plane(clip[3] - clip[col], clip[7] - clip[4 + col], clip[11] - clip[8 + col], clip[15] - clip[12 + col])
    } else {
        make_plane(clip[3] + clip[col], clip[7] + clip[4 + col], clip[11] + clip[8 + col], clip[15] + clip[12 + col])
    }
}

impl Frustum {
    /// Builds the frustum of a combined model-view-projection transform,
    /// flattened row-major.
    pub fn from_modelview_projection(clip: &[i64; 16]) -> (r: Frustum)
        requires
            matrix_in_range(clip@, CLIP_LIMIT as int),
            non_degenerate(clip@),
        ensures
            r.wf(),
            r@ == extracted_planes(clip@),
            planes_valid(r@),
    {
        assert(normal_len_sq(extracted_plane(clip@, 0)) > 0);
        assert(normal_len_sq(extracted_plane(clip@, 1)) > 0);
        assert(normal_len_sq(extracted_plane(clip@, 2)) > 0);
        assert(normal_len_sq(extracted_plane(clip@, 3)) > 0);
        assert(normal_len_sq(extracted_plane(clip@, 4)) > 0);
        assert(normal_len_sq(extracted_plane(clip@, 5)) > 0);
        let planes = [
            extract_plane(clip, 0),
            extract_plane(clip, 1),
            extract_plane(clip, 2),
            extract_plane(clip, 3),
            extract_plane(clip, 4),
            extract_plane(clip, 5),
        ];
        let r = Frustum { planes };
        assert(r@ =~= extracted_planes(clip@));
        r
    }
}

proof fn lemma_product_bound(a: int, x: int, la: int, lx: int)
    requires
        in_range(a, la),
        in_range(x, lx),
    ensures
        in_range(a * x, la * lx),
{
    assert(in_range(a * x, la * lx)) by (nonlinear_arith)
        requires
            -la <= a <= la,
            -lx <= x <= lx,
    ;
}

impl Plane {
    /// `a*x + b*y + c*z + d`, exactly.
    fn scaled_distance(&self, x: i64, y: i64, z: i64) -> (s: i128)
        requires
            self.wf(),
            in_range(x as int, SCALAR_LIMIT as int),
            in_range(y as int, SCALAR_LIMIT as int),
            in_range(z as int, SCALAR_LIMIT as int),
        ensures
            s == scaled_distance(self.coefficients(), x as int, y as int, z as int),
            in_range(s as int, 4 * COEFF_LIMIT * SCALAR_LIMIT),
    {
        proof {
            lemma_product_bound(self.a as int, x as int, COEFF_LIMIT as int, SCALAR_LIMIT as int);
            lemma_product_bound(self.b as int, y as int, COEFF_LIMIT as int, SCALAR_LIMIT as int);
            lemma_product_bound(self.c as int, z as int, COEFF_LIMIT as int, SCALAR_LIMIT as int);
        }
        (self.a as i128) * (x as i128) + (self.b as i128) * (y as i128) + (self.c as i128) * (
        z as i128) + (self.d as i128)
    }

    /// Whether the distance of `(x, y, z)` to the plane exceeds `-r`.
    fn admits_sphere(&self, x: i64, y: i64, z: i64, r: i64) -> (ok: bool)
        requires
            self.wf(),
            in_range(x as int, SCALAR_LIMIT as int),
            in_range(y as int, SCALAR_LIMIT as int),
            in_range(z as int, SCALAR_LIMIT as int),
            in_range(r as int, SCALAR_LIMIT as int),
        ensures
            ok == exceeds_neg_radius(
                scaled_distance(self.coefficients(), x as int, y as int, z as int),
                r as int,
                normal_len_sq(self.coefficients()),
            ),
    {
        let s = self.scaled_distance(x, y, z);
        let r = r as i128;
        proof {
            lemma_square_bound(s as int, 4 * COEFF_LIMIT * SCALAR_LIMIT);
            lemma_square_bound(r as int, SCALAR_LIMIT as int);
            lemma_square_bound(self.a as int, COEFF_LIMIT as int);
            lemma_square_bound(self.b as int, COEFF_LIMIT as int);
            lemma_square_bound(self.c as int, COEFF_LIMIT as int);
            assert((r * r) * self.norm_sq <= (SCALAR_LIMIT * SCALAR_LIMIT) * (3 * COEFF_LIMIT
                * COEFF_LIMIT)) by (nonlinear_arith)
                requires
                    0 <= r * r <= SCALAR_LIMIT * SCALAR_LIMIT,
                    0 < self.norm_sq <= 3 * COEFF_LIMIT * COEFF_LIMIT,
            ;
            assert(0 <= (r * r) * self.norm_sq) by (nonlinear_arith)
                requires
                    0 <= r * r,
                    0 < self.norm_sq,
            ;
        }
        let s_sq = s * s;
        let bound_sq = r * r * self.norm_sq;
        if r >= 0 {
            s > 0 || s_sq < bound_sq
        } else {
            s > 0 && s_sq > bound_sq
        }
    }
}

impl Frustum {
    /// Whether the point `(x, y, z)` lies strictly inside every plane; a point
    /// on a plane counts as outside.
    pub fn point_intersecting(&self, x: &i64, y: &i64, z: &i64) -> (r: bool)
        requires
            self.wf(),
            in_range(*x as int, SCALAR_LIMIT as int),
            in_range(*y as int, SCALAR_LIMIT as int),
            in_range(*z as int, SCALAR_LIMIT as int),
        ensures
            r == point_inside(self@, *x as int, *y as int, *z as int),
    {
        for p in 0..6
            invariant
                self.wf(),
                in_range(*x as int, SCALAR_LIMIT as int),
                in_range(*y as int, SCALAR_LIMIT as int),
                in_range(*z as int, SCALAR_LIMIT as int),
                forall|q: int|
                    0 <= q < p ==> scaled_distance(#[trigger] self@[q], *x as int, *y as int, *z as int)
                        > 0,
        {
            assert(self.planes@[p as int].wf());
            if self.planes[p].scaled_distance(*x, *y, *z) <= 0 {
                assert(!(scaled_distance(self@[p as int], *x as int, *y as int, *z as int) > 0));
                return false;
            }
        }
        true
    }

    /// Whether a sphere of center `(x, y, z)` and radius `r` may be visible:
    /// no plane's distance to the center is `-r` or less, so a sphere that
    /// straddles a plane counts as visible.
    pub fn sphere_intersecting(&self, x: &i64, y: &i64, z: &i64, r: &i64) -> (res: bool)
        requires
            self.wf(),
            in_range(*x as int, SCALAR_LIMIT as int),
            in_range(*y as int, SCALAR_LIMIT as int),
            in_range(*z as int, SCALAR_LIMIT as int),
            in_range(*r as int, SCALAR_LIMIT as int),
        ensures
            res == sphere_inside(self@, *x as int, *y as int, *z as int, *r as int),
    {
        for p in 0..6
            invariant
                self.wf(),
                in_range(*x as int, SCALAR_LIMIT as int),
                in_range(*y as int, SCALAR_LIMIT as int),
                in_range(*z as int, SCALAR_LIMIT as int),
                in_range(*r as int, SCALAR_LIMIT as int),
                forall|q: int|
                    0 <= q < p ==> exceeds_neg_radius(
                        scaled_distance(#[trigger] self@[q], *x as int, *y as int, *z as int),
                        *r as int,
                        normal_len_sq(self@[q]),
                    ),
        {
            assert(self.planes@[p as int].wf());
            if !self.planes[p].admits_sphere(*x, *y, *z, *r) {
                assert(!exceeds_neg_radius(
                    scaled_distance(self@[p as int], *x as int, *y as int, *z as int),
                    *r as int,
                    normal_len_sq(self@[p as int]),
                ));
                return false;
            }
        }
        true
    }
}

/// Entry `(i, j)` of the product `modl * proj` of two row-major 4x4 matrices:
/// row `i` of `modl` against column `j` of `proj`.
pub open spec fn product_entry(modl: Seq<i64>, proj: Seq<i64>, i: int, j: int) -> int {
    modl[4 * i] * proj[j] + modl[4 * i + 1] * proj[4 + j] + modl[4 * i + 2] * proj[8 + j]
        + modl[4 * i + 3] * proj[12 + j]
}

/// The row-major product `modl * proj` of two row-major 4x4 matrices.
pub open spec fn matrix_product(modl: Seq<i64>, proj: Seq<i64>) -> Seq<int> {
    Seq::new(16, |e: int| product_entry(modl, proj, e / 4, e % 4))
}

/// A matrix of integers read as a matrix of `i64`, where every entry fits.
pub open spec fn as_i64_matrix(m: Seq<int>) -> Seq<i64> {
    Seq::new(m.len(), |e: int| m[e] as i64)
}

/// The rows of a 4x4 matrix laid end to end.
pub open spec fn flatten(m: Seq<[i64; 4]>) -> Seq<i64> {
    Seq::new(16, |e: int| m[e / 4]@[e % 4])
}

fn multiply_entry(modl: &[i64; 16], proj: &[i64; 16], i: usize, j: usize) -> (v: i64)
    requires
        i < 4,
        j < 4,
        matrix_in_range(modl@, SCALAR_LIMIT as int),
        matrix_in_range(proj@, SCALAR_LIMIT as int),
    ensures
        v == product_entry(modl@, proj@, i as int, j as int),
        in_range(v as int, CLIP_LIMIT as int),
{
    let row: usize = 4 * i;
    proof {
        let l = SCALAR_LIMIT as int;
        assert(in_range(modl@[row as int] as int, l));
        assert(in_range(modl@[row + 1] as int, l));
        assert(in_range(modl@[row + 2] as int, l));
        assert(in_range(modl@[row + 3] as int, l));
        assert(in_range(proj@[j as int] as int, l));
        assert(in_range(proj@[4 + j] as int, l));
        assert(in_range(proj@[8 + j] as int, l));
        assert(in_range(proj@[12 + j] as int, l));
        lemma_product_bound(modl@[row as int] as int, proj@[j as int] as int, l, l);
        lemma_product_bound(modl@[row + 1] as int, proj@[4 + j] as int, l, l);
        lemma_product_bound(modl@[row + 2] as int, proj@[8 + j] as int, l, l);
        lemma_product_bound(modl@[row + 3] as int, proj@[12 + j] as int, l, l);
    }
    modl[row] * proj[j] + modl[row + 1] * proj[4 + j] + modl[row + 2] * proj[8 + j] + modl[row
        + 3] * proj[12 + j]
}

impl Frustum {
    /// Builds the frustum of the combined transform `modl * proj`, both
    /// matrices flattened row-major: row `i` of the combined transform is row
    /// `i` of `modl` against the columns of `proj`.
    pub fn from_modelview_and_projection(modl: &[i64; 16], proj: &[i64; 16]) -> (r: Frustum)
        requires
            matrix_in_range(modl@, SCALAR_LIMIT as int),
            matrix_in_range(proj@, SCALAR_LIMIT as int),
            non_degenerate(as_i64_matrix(matrix_product(modl@, proj@))),
        ensures
            r.wf(),
            r@ == extracted_planes(as_i64_matrix(matrix_product(modl@, proj@))),
            planes_valid(r@),
    {
        let clip: [i64; 16] = [
            multiply_entry(modl, proj, 0, 0),
            multiply_entry(modl, proj, 0, 1),
            multiply_entry(modl, proj, 0, 2),
            multiply_entry(modl, proj, 0, 3),
            multiply_entry(modl, proj, 1, 0),
            multiply_entry(modl, proj, 1, 1),
            multiply_entry(modl, proj, 1, 2),
            multiply_entry(modl, proj, 1, 3),
            multiply_entry(modl, proj, 2, 0),
            multiply_entry(modl, proj, 2, 1),
            multiply_entry(modl, proj, 2, 2),
            multiply_entry(modl, proj, 2, 3),
            multiply_entry(modl, proj, 3, 0),
            multiply_entry(modl, proj, 3, 1),
            multiply_entry(modl, proj, 3, 2),
            multiply_entry(modl, proj, 3, 3),
        ];
        assert(clip@ =~= as_i64_matrix(matrix_product(modl@, proj@)));
        Frustum::from_modelview_projection(&clip)
    }

    /// Builds the frustum of `modl * proj`, each matrix given as four rows.
    pub fn from_modelview_and_projection_2d(modl: &[[i64; 4]; 4], proj: &[[i64; 4]; 4]) -> (r:
        Frustum)
        requires
            matrix_in_range(flatten(modl@), SCALAR_LIMIT as int),
            matrix_in_range(flatten(proj@), SCALAR_LIMIT as int),
            non_degenerate(as_i64_matrix(matrix_product(flatten(modl@), flatten(proj@)))),
        ensures
            r.wf(),
            r@ == extracted_planes(as_i64_matrix(matrix_product(flatten(modl@), flatten(proj@)))),
            planes_valid(r@),
    {
        let modl_1d = flatten_matrix(modl);
        let proj_1d = flatten_matrix(proj);
        Frustum::from_modelview_and_projection(&modl_1d, &proj_1d)
    }
}

fn flatten_matrix(m: &[[i64; 4]; 4]) -> (r: [i64; 16])
    ensures
        r@ == flatten(m@),
{
    let r = [
        m[0][0],
        m[0][1],
        m[0][2],
        m[0][3],
        m[1][0],
        m[1][1],
        m[1][2],
        m[1][3],
        m[2][0],
        m[2][1],
        m[2][2],
        m[2][3],
        m[3][0],
        m[3][1],
        m[3][2],
        m[3][3],
    ];
    assert(r@ =~= flatten(m@));
    r
}

/// Where the normal's squared length is a perfect square `m * m`, the sphere
/// condition is the plain inequality on the normalised distance:
/// `s / m > -r`, that is `s + r * m > 0`.
pub proof fn lemma_radius_test_exact(s: int, r: int, m: int)
    requires
        m > 0,
    ensures
        exceeds_neg_radius(s, r, m * m) == (s + r * m > 0),
{
    assert(r * r * (m * m) == (r * m) * (r * m)) by (nonlinear_arith);
    let t = r * m;
    if r >= 0 {
        assert(t >= 0) by (nonlinear_arith)
            requires
                r >= 0,
                m > 0,
                t == r * m,
        ;
        assert((s <= 0 && s * s < t * t) == (s <= 0 && -s < t)) by (nonlinear_arith)
            requires
                t >= 0,
        ;
    } else {
        assert(t < 0) by (nonlinear_arith)
            requires
                r < 0,
                m > 0,
                t == r * m,
        ;
        assert((s > 0 && s * s > t * t) == (s > 0 && s > -t)) by (nonlinear_arith)
            requires
                t < 0,
        ;
    }
}

/// A sphere of radius zero is visible exactly when its center is.
pub proof fn lemma_point_is_zero_sphere(planes: Seq<PlaneCoefficients>, x: int, y: int, z: int)
    requires
        planes.len() == 6,
    ensures
        sphere_inside(planes, x, y, z, 0) == point_inside(planes, x, y, z),
{
    assert forall|p: int| 0 <= p < 6 implies exceeds_neg_radius(
        scaled_distance(#[trigger] planes[p], x, y, z),
        0,
        normal_len_sq(planes[p]),
    ) == (scaled_distance(planes[p], x, y, z) > 0) by {
        let s = scaled_distance(planes[p], x, y, z);
        let n = normal_len_sq(planes[p]);
        assert(0 * 0 * n == 0 && s * s >= 0) by (nonlinear_arith);
    }
}

proof fn lemma_exceeds_grows(s: int, r1: int, r2: int, n: int)
    requires
        n >= 0,
        r1 <= r2,
        exceeds_neg_radius(s, r1, n),
    ensures
        exceeds_neg_radius(s, r2, n),
{
    if r1 >= 0 {
        assert(r1 * r1 * n <= r2 * r2 * n) by (nonlinear_arith)
            requires
                0 <= r1 <= r2,
                n >= 0,
        ;
    } else if r2 < 0 {
        assert(r2 * r2 * n <= r1 * r1 * n) by (nonlinear_arith)
            requires
                r1 <= r2 < 0,
                n >= 0,
        ;
    }
}

/// Growing a visible sphere keeps it visible: the test is monotone in the
/// radius.
pub proof fn lemma_radius_monotone(
    planes: Seq<PlaneCoefficients>,
    x: int,
    y: int,
    z: int,
    r1: int,
    r2: int,
)
    requires
        planes.len() == 6,
        r1 <= r2,
        sphere_inside(planes, x, y, z, r1),
    ensures
        sphere_inside(planes, x, y, z, r2),
{
    assert forall|p: int| 0 <= p < 6 implies exceeds_neg_radius(
        scaled_distance(#[trigger] planes[p], x, y, z),
        r2,
        normal_len_sq(planes[p]),
    ) by {
        let pl = planes[p];
        assert(normal_len_sq(pl) >= 0) by (nonlinear_arith)
            requires
                normal_len_sq(pl) == pl.0 * pl.0 + pl.1 * pl.1 + pl.2 * pl.2,
        ;
        lemma_exceeds_grows(scaled_distance(pl, x, y, z), r1, r2, normal_len_sq(pl));
    }
}

/// A sphere whose center is inside the frustum stays visible at every
/// radius that is not negative, however small.
pub proof fn lemma_center_inside_sphere_visible(
    planes: Seq<PlaneCoefficients>,
    x: int,
    y: int,
    z: int,
    r: int,
)
    requires
        planes.len() == 6,
        point_inside(planes, x, y, z),
        r >= 0,
    ensures
        sphere_inside(planes, x, y, z, r),
{
    lemma_point_is_zero_sphere(planes, x, y, z);
    lemma_radius_monotone(planes, x, y, z, 0, r);
}

/// `order` lists each of the six plane indices: a permutation of `0..6`.
pub open spec fn is_plane_order(order: Seq<int>) -> bool {
    &&& order.len() == 6
    &&& forall|k: int| 0 <= k < 6 ==> 0 <= #[trigger] order[k] < 6
    &&& forall|p: int| 0 <= p < 6 ==> order.contains(p)
}

/// Testing the planes in any order gives the same answer, for points and for
/// spheres.
pub proof fn lemma_plane_order_irrelevant(
    planes: Seq<PlaneCoefficients>,
    order: Seq<int>,
    x: int,
    y: int,
    z: int,
    r: int,
)
    requires
        planes.len() == 6,
        is_plane_order(order),
    ensures
        point_inside(planes, x, y, z) == (forall|k: int|
            0 <= k < 6 ==> scaled_distance(planes[#[trigger] order[k]], x, y, z) > 0),
        sphere_inside(planes, x, y, z, r) == (forall|k: int|
            0 <= k < 6 ==> exceeds_neg_radius(
                scaled_distance(planes[#[trigger] order[k]], x, y, z),
                r,
                normal_len_sq(planes[order[k]]),
            )),
{
    if forall|k: int|
        0 <= k < 6 ==> scaled_distance(planes[#[trigger] order[k]], x, y, z) > 0 {
        assert forall|p: int| 0 <= p < 6 implies scaled_distance(#[trigger] planes[p], x, y, z)
            > 0 by {
            assert(order.contains(p));
            let k = choose|k: int| 0 <= k < order.len() && order[k] == p;
        }
    }
    if forall|k: int|
        0 <= k < 6 ==> exceeds_neg_radius(
            scaled_distance(planes[#[trigger] order[k]], x, y, z),
            r,
            normal_len_sq(planes[order[k]]),
        ) {
        assert forall|p: int| 0 <= p < 6 implies exceeds_neg_radius(
            scaled_distance(#[trigger] planes[p], x, y, z),
            r,
            normal_len_sq(planes[p]),
        ) by {
            assert(order.contains(p));
            let k = choose|k: int| 0 <= k < order.len() && order[k] == p;
        }
    }
}

/// Whether the normal of plane `p` of `clip` is nonzero.
fn plane_normal_nonzero(clip: &[i64; 16], p: usize) -> (ok: bool)
    requires
        p < 6,
        matrix_in_range(clip@, CLIP_LIMIT as int),
    ensures
        ok == (normal_len_sq(extracted_plane(clip@, p as int)) > 0),
{
    let col: usize = p / 2;
    let subtract = p == 0 || p == 3 || p == 4;
    assert(in_range(clip@[3] as int, CLIP_LIMIT as int));
    assert(in_range(clip@[7] as int, CLIP_LIMIT as int));
    assert(in_range(clip@[11] as int, CLIP_LIMIT as int));
    assert(in_range(clip@[col as int] as int, CLIP_LIMIT as int));
    assert(in_range(clip@[4 + col as int] as int, CLIP_LIMIT as int));
    assert(in_range(clip@[8 + col as int] as int, CLIP_LIMIT as int));
    let (a, b, c) = if subtract {
        (clip[3] - clip[col], clip[7] - clip[4 + col], clip[11] - clip[8 + col])
    } else {
        (clip[3] + clip[col], clip[7] + clip[4 + col], clip[11] + clip[8 + col])
    };
    proof {
        lemma_square_bound(a as int, COEFF_LIMIT as int);
        lemma_square_bound(b as int, COEFF_LIMIT as int);
        lemma_square_bound(c as int, COEFF_LIMIT as int);
    }
    (a as i128) * (a as i128) + (b as i128) * (b as i128) + (c as i128) * (c as i128) > 0
}

impl Frustum {
    /// Builds the frustum of a combined transform like
    /// `from_modelview_projection`, or returns `None` where an entry lies
    /// beyond `CLIP_LIMIT` or a plane's normal is zero.
    pub fn try_from_modelview_projection(clip: &[i64; 16]) -> (r: Option<Frustum>)
        ensures
            r.is_some() == (matrix_in_range(clip@, CLIP_LIMIT as int) && non_degenerate(clip@)),
            r matches Some(f) ==> f.wf() && f@ == extracted_planes(clip@) && planes_valid(f@),
    {
        for i in 0..16
            invariant
                clip@.len() == 16,
                forall|j: int| 0 <= j < i ==> in_range(#[trigger] clip@[j] as int, CLIP_LIMIT as int),
        {
            if clip[i] < -CLIP_LIMIT || clip[i] > CLIP_LIMIT {
                return None;
            }
        }
        for p in 0..6
            invariant
                matrix_in_range(clip@, CLIP_LIMIT as int),
                forall|q: int| 0 <= q < p ==> normal_len_sq(#[trigger] extracted_plane(clip@, q)) > 0,
        {
            if !plane_normal_nonzero(clip, p) {
                return None;
            }
        }
        Some(Frustum::from_modelview_projection(clip))
    }
}

} // verus!

use crate::frustum::{in_range, sphere_inside, Frustum, PlaneCoefficients, SCALAR_LIMIT};
use rayon::iter::{IntoParallelRefIterator, ParallelIterator};
use vstd::prelude::*;

verus! {

/// An object's center and bounding radius; a radius of zero tests the center
/// as a point.
#[derive(Clone, Copy, Debug)]
pub struct FrustumQueryObject {
    pub x: i64,
    pub y: i64,
    pub z: i64,
    pub r: i64,
}

/// The object's coordinates and radius lie within `SCALAR_LIMIT`.
pub open spec fn object_in_range(o: FrustumQueryObject) -> bool {
    &&& in_range(o.x as int, SCALAR_LIMIT as int)
    &&& in_range(o.y as int, SCALAR_LIMIT as int)
    &&& in_range(o.z as int, SCALAR_LIMIT as int)
    &&& in_range(o.r as int, SCALAR_LIMIT as int)
}

pub open spec fn objects_in_range(objects: Seq<FrustumQueryObject>) -> bool {
    forall|i: int| 0 <= i < objects.len() ==> object_in_range(#[trigger] objects[i])
}

/// The object's bounding sphere may be visible in the frustum of `planes`.
pub open spec fn object_visible(planes: Seq<PlaneCoefficients>, o: FrustumQueryObject) -> bool {
    sphere_inside(planes, o.x as int, o.y as int, o.z as int, o.r as int)
}

/// `after` is the result buffer `before` with position `i` set, for each
/// object `i` of the batch, to whether that object is visible; positions past
/// the batch keep their value.
pub open spec fn classified(
    objects: Seq<FrustumQueryObject>,
    planes: Seq<PlaneCoefficients>,
    before: Seq<bool>,
    after: Seq<bool>,
) -> bool {
    &&& after.len() == before.len()
    &&& forall|i: int| 0 <= i < objects.len() ==> after[i] == object_visible(planes, #[trigger] objects[i])
    &&& forall|i: int| objects.len() <= i < before.len() ==> after[i] == #[trigger] before[i]
}

/// A fixed, ordered batch of query objects, classified against any frustum.
pub struct FrustumQuery {
    objects: Vec<FrustumQueryObject>,
}

impl View for FrustumQuery {
    type V = Seq<FrustumQueryObject>;

    closed spec fn view(&self) -> Seq<FrustumQueryObject> {
        self.objects@
    }
}

/// Relies on rayon's `par_iter`, `map` and `collect` over a `Vec`: the
/// collected vector holds the image of each object, in the order of the
/// objects.
#[verifier::external_body]
fn visibility_in_parallel(frustum: &Frustum, objects: &Vec<FrustumQueryObject>) -> (r: Vec<bool>)
    requires
        frustum.wf(),
        objects_in_range(objects@),
    ensures
        r@.len() == objects@.len(),
        forall|i: int| 0 <= i < objects@.len() ==> r@[i] == object_visible(frustum@, #[trigger] objects@[i]),
{
    objects.par_iter().map(|o| frustum.sphere_intersecting(&o.x, &o.y, &o.z, &o.r)).collect()
}

impl FrustumQuery {
    /// Takes ownership of a batch; result index `i` will stand for object `i`.
    pub fn new(objects: Vec<FrustumQueryObject>) -> (q: FrustumQuery)
        requires
            objects_in_range(objects@),
        ensures
            q@ == objects@,
            objects_in_range(q@),
    {
        FrustumQuery { objects }
    }

    /// Writes, in index order, whether each object of the batch may be
    /// visible in `frustum` to the matching position of `result`.
    pub fn execute(&self, frustum: &Frustum, result: &mut Vec<bool>)
        requires
            frustum.wf(),
            objects_in_range(self@),
            old(result)@.len() >= self@.len(),
        ensures
            classified(self@, frustum@, old(result)@, final(result)@),
    {
        let n = self.objects.len();
        for i in 0..n
            invariant
                n == self@.len(),
                frustum.wf(),
                objects_in_range(self@),
                result@.len() == old(result)@.len(),
                old(result)@.len() >= n,
                forall|j: int| 0 <= j < i ==> result@[j] == object_visible(frustum@, #[trigger] self@[j]),
                forall|j: int| i <= j < result@.len() ==> result@[j] == #[trigger] old(result)@[j],
        {
            let o = &self.objects[i];
            assert(object_in_range(self@[i as int]));
            let v = frustum.sphere_intersecting(&o.x, &o.y, &o.z, &o.r);
            result.set(i, v);
        }
    }

    /// Classifies the batch like `execute`, with the per-object tests spread
    /// over rayon's worker threads; returns once every position is written.
    pub fn execute_parallel_rayon(&self, frustum: &Frustum, result: &mut Vec<bool>)
        requires
            frustum.wf(),
            objects_in_range(self@),
            old(result)@.len() >= self@.len(),
        ensures
            classified(self@, frustum@, old(result)@, final(result)@),
    {
        let visible = visibility_in_parallel(frustum, &self.objects);
        let n = visible.len();
        for i in 0..n
            invariant
                n == self@.len(),
                visible@.len() == n,
                forall|j: int| 0 <= j < n ==> visible@[j] == object_visible(frustum@, #[trigger] self@[j]),
                result@.len() == old(result)@.len(),
                old(result)@.len() >= n,
                forall|j: int| 0 <= j < i ==> result@[j] == object_visible(frustum@, #[trigger] self@[j]),
                forall|j: int| i <= j < result@.len() ==> result@[j] == #[trigger] old(result)@[j],
        {
            result.set(i, visible[i]);
        }
    }
}

/// Two classifications of one batch against one frustum, from one result
/// buffer, are equal element for element; so `execute` and
/// `execute_parallel_rayon` leave identical results.
pub proof fn lemma_classification_unique(
    objects: Seq<FrustumQueryObject>,
    planes: Seq<PlaneCoefficients>,
    before: Seq<bool>,
    after1: Seq<bool>,
    after2: Seq<bool>,
)
    requires
        classified(objects, planes, before, after1),
        classified(objects, planes, before, after2),
    ensures
        after1 == after2,
{
    assert forall|i: int| 0 <= i < after1.len() implies after1[i] == after2[i] by {
        if i < objects.len() {
            assert(after1[i] == object_visible(planes, objects[i]));
            assert(after2[i] == object_visible(planes, objects[i]));
        } else {
            assert(after1[i] == before[i]);
            assert(after2[i] == before[i]);
        }
    }
    assert(after1 =~= after2);
}

} // verus!

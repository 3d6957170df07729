use crate::aabb::AABB;
use crate::interval::Interval;
use vstd::prelude::*;

verus! {

/// What the aggregates know of a thing that a ray can hit: the handle under
/// which the renderer keeps it, and a box that bounds it.
#[derive(Clone, Copy, Debug, PartialEq, Eq, Structural)]
pub struct Object {
    pub handle: usize,
    pub bbox: AABB,
}

/// A hit: the ray parameter at which it occurred and the handle of the
/// object that was hit.
#[derive(Clone, Copy, Debug, PartialEq, Eq, Structural)]
pub struct HitRecord {
    pub t: i64,
    pub object: usize,
}

impl HitRecord {
    pub fn new(t: i64, object: usize) -> (r: HitRecord)
        ensures
            r == (HitRecord { t, object }),
    {
        HitRecord { t, object }
    }
}

impl Default for HitRecord {
    fn default() -> (r: HitRecord)
        ensures
            r == (HitRecord { t: 0, object: 0 }),
    {
        HitRecord { t: 0, object: 0 }
    }
}

/// What a test of one object against a ray answers, as a function of the
/// object's handle and of the range of ray parameters that is asked about:
/// the parameter of the hit, if there is one in the range.
pub type Probe = spec_fn(usize, Interval) -> Option<i64>;

/// What a test of a bounding box against a ray answers, as a function of the
/// box and of the range asked about: whether the ray may pass through the
/// box within the range.
pub type Cull = spec_fn(AABB, Interval) -> bool;

/// `probe` answers as `model` tells: whatever a call of it returns is what
/// `model` gives for the same handle and range.
pub open spec fn probe_follows<F: Fn(usize, Interval) -> Option<i64>>(probe: F, model: Probe) -> bool {
    forall|handle: usize, range: Interval, t: Option<i64>| #[trigger]
        call_ensures(probe, (handle, range), t) ==> t == model(handle, range)
}

/// `cull` answers as `model` tells: whatever a call of it returns is what
/// `model` gives for the same box and range.
pub open spec fn cull_follows<G: Fn(AABB, Interval) -> bool>(cull: G, model: Cull) -> bool {
    forall|bbox: AABB, range: Interval, b: bool| #[trigger]
        call_ensures(cull, (bbox, range), b) ==> b == model(bbox, range)
}

/// The probe of objects each of which the ray meets at most once past the
/// start of the range: `entry` gives that parameter, and the probe reports it
/// where the range surrounds it.
pub open spec fn entry_probe(entry: spec_fn(usize) -> Option<i64>) -> Probe {
    |handle: usize, range: Interval|
        match entry(handle) {
            Some(t) => if range.spec_surrounds(t) {
                Some(t)
            } else {
                None
            },
            None => None,
        }
}

/// The parameter of a hit, if there is one.
pub open spec fn hit_parameter(hit: Option<HitRecord>) -> Option<i64> {
    match hit {
        Some(h) => Some(h.t),
        None => None,
    }
}

/// `out` is the least parameter within `ray_t` at which `entry` has an
/// object of `objects` met, or `None` where it has none met within the
/// range.
pub open spec fn is_closest(
    objects: Seq<Object>,
    entry: spec_fn(usize) -> Option<i64>,
    ray_t: Interval,
    out: Option<i64>,
) -> bool {
    match out {
        Some(t) => {
            &&& ray_t.spec_surrounds(t)
            &&& exists|o: Object| #[trigger] objects.contains(o) && entry(o.handle) == Some(t)
            &&& forall|o: Object| #[trigger]
                objects.contains(o) ==> match entry(o.handle) {
                    Some(u) => ray_t.spec_surrounds(u) ==> t <= u,
                    None => true,
                }
        },
        None => forall|o: Object| #[trigger]
            objects.contains(o) ==> match entry(o.handle) {
                Some(u) => !ray_t.spec_surrounds(u),
                None => true,
            },
    }
}

/// `handle` is the handle of an object of `objects`.
pub open spec fn holds_handle(objects: Seq<Object>, handle: usize) -> bool {
    exists|o: Object| #[trigger] objects.contains(o) && o.handle == handle
}

/// The box test never turns a ray away from a box around an object that the
/// ray meets within the range asked about.
pub open spec fn cull_admits(
    cull: Cull,
    entry: spec_fn(usize) -> Option<i64>,
    objects: Seq<Object>,
) -> bool {
    forall|bbox: AABB, range: Interval, o: Object|
        #![trigger objects.contains(o), cull(bbox, range)]
        objects.contains(o) && bbox.encloses(o.bbox) && (match entry(o.handle) {
            Some(t) => range.spec_surrounds(t),
            None => false,
        }) ==> cull(bbox, range)
}

/// A box test that is admissible for some objects is admissible for any
/// part of them.
pub proof fn lemma_cull_admits_part(
    cull: Cull,
    entry: spec_fn(usize) -> Option<i64>,
    objects: Seq<Object>,
    part: Seq<Object>,
)
    requires
        cull_admits(cull, entry, objects),
        forall|o: Object| part.contains(o) ==> objects.contains(o),
    ensures
        cull_admits(cull, entry, part),
{
    assert forall|bbox: AABB, range: Interval, o: Object|
        #![trigger part.contains(o), cull(bbox, range)]
        part.contains(o) && bbox.encloses(o.bbox) && (match entry(o.handle) {
            Some(t) => range.spec_surrounds(t),
            None => false,
        }) implies cull(bbox, range) by {
        assert(objects.contains(o));
    }
}

/// There is only one least parameter.
pub proof fn lemma_closest_is_unique(
    objects: Seq<Object>,
    entry: spec_fn(usize) -> Option<i64>,
    ray_t: Interval,
    a: Option<i64>,
    b: Option<i64>,
)
    requires
        is_closest(objects, entry, ray_t, a),
        is_closest(objects, entry, ray_t, b),
    ensures
        a == b,
{
}

} // verus!

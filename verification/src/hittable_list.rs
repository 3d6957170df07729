use crate::aabb::AABB;
use crate::hittable::{
    entry_probe, hit_parameter, holds_handle, is_closest, probe_follows, HitRecord, Object,
    Probe,
};
use crate::interval::Interval;
use crate::utility::random_int_range;
use vstd::prelude::*;

verus! {

/// A flat collection of objects, searched one by one.
pub struct HittableList {
    pub(crate) objects: Vec<Object>,
    pub(crate) bbox: AABB,
}

impl View for HittableList {
    type V = Seq<Object>;

    /// The objects of the list, in the order in which they were added.
    closed spec fn view(&self) -> Seq<Object> {
        self.objects@
    }
}

/// The union of the boxes of `objects`.
pub open spec fn bounds(objects: Seq<Object>) -> AABB
    decreases objects.len(),
{
    if objects.len() == 0 {
        AABB::spec_empty()
    } else {
        bounds(objects.drop_last()).union(objects.last().bbox)
    }
}

/// What a linear search of `objects` finds: each object in turn is asked for
/// a hit nearer than the nearest found so far, and the last hit found is the
/// result.
pub open spec fn scan(objects: Seq<Object>, probe: Probe, ray_t: Interval) -> Option<HitRecord>
    decreases objects.len(),
{
    if objects.len() == 0 {
        None
    } else {
        let before = scan(objects.drop_last(), probe, ray_t);
        let closest_so_far = match before {
            Some(h) => h.t,
            None => ray_t.max,
        };
        match probe(objects.last().handle, Interval { min: ray_t.min, max: closest_so_far }) {
            Some(t) => Some(HitRecord { t, object: objects.last().handle }),
            None => before,
        }
    }
}

/// The view and the reported box of a list are its two fields.
pub(crate) proof fn lemma_list_fields(list: HittableList)
    ensures
        list@ == list.objects@,
        list.spec_bounding_box() == list.bbox,
{
}

impl HittableList {
    /// The box that the list reports.
    pub closed spec fn spec_bounding_box(&self) -> AABB {
        self.bbox
    }

    /// The reported box is exactly the union of the objects' boxes.
    pub open spec fn is_tight(&self) -> bool {
        self.spec_bounding_box() == bounds(self@)
    }

    /// `handle` is the handle of an object of the list.
    pub open spec fn holds(&self, handle: usize) -> bool {
        holds_handle(self@, handle)
    }

    pub fn new() -> (r: HittableList)
        ensures
            r@.len() == 0,
            r.spec_bounding_box() == AABB::spec_empty(),
            r.is_tight(),
    {
        HittableList { objects: Vec::new(), bbox: AABB::empty() }
    }

    /// Appends `object` and widens the reported box by its box.
    pub fn add(&mut self, object: Object)
        ensures
            final(self)@ == old(self)@.push(object),
            final(self).spec_bounding_box() == old(self).spec_bounding_box().union(object.bbox),
            old(self).is_tight() ==> final(self).is_tight(),
    {
        self.bbox = AABB::new_aabb(&self.bbox, &object.bbox);
        self.objects.push(object);
        proof {
            assert(self.objects@.drop_last() == old(self).objects@);
        }
    }

    /// Removes every object. The reported box stays as it was.
    pub fn clear(&mut self)
        ensures
            final(self)@.len() == 0,
            final(self).spec_bounding_box() == old(self).spec_bounding_box(),
    {
        self.objects.clear()
    }

    #[verifier::when_used_as_spec(spec_bounding_box)]
    pub fn bounding_box(&self) -> (r: AABB)
        ensures
            r == self.spec_bounding_box(),
    {
        self.bbox
    }

    /// Searches the list for the nearest hit within `ray_t`. `probe` tests one
    /// object, named by its handle, within a range. On a hit `rec` holds it;
    /// on a miss `rec` is left alone. Where `probe` answers as some function
    /// of handle and range tells, the outcome is that of `scan` with that
    /// function.
    pub fn hit<F: Fn(usize, Interval) -> Option<i64>>(
        &self,
        ray_t: &Interval,
        rec: &mut HitRecord,
        probe: &F,
    ) -> (hit_anything: bool)
        requires
            forall|handle: usize, range: Interval|
                self.holds(handle) ==> #[trigger] call_requires(*probe, (handle, range)),
        ensures
            !hit_anything ==> *final(rec) == *old(rec),
            hit_anything ==> self.holds(final(rec).object),
            forall|model: Probe| #[trigger]
                probe_follows(*probe, model) ==> match scan(self@, model, *ray_t) {
                    Some(h) => hit_anything && *final(rec) == h,
                    None => !hit_anything,
                },
    {
        let mut hit_anything = false;
        let mut closest_so_far = ray_t.max;
        let mut i: usize = 0;
        while i < self.objects.len()
            invariant
                i <= self.objects@.len(),
                forall|handle: usize, range: Interval|
                    self.holds(handle) ==> #[trigger] call_requires(*probe, (handle, range)),
                !hit_anything ==> *rec == *old(rec) && closest_so_far == ray_t.max,
                hit_anything ==> self.holds(rec.object) && closest_so_far == rec.t,
                forall|model: Probe| #[trigger]
                    probe_follows(*probe, model) ==> match scan(
                        self.objects@.take(i as int),
                        model,
                        *ray_t,
                    ) {
                        Some(h) => hit_anything && *rec == h,
                        None => !hit_anything,
                    },
            decreases self.objects@.len() - i,
        {
            let object = self.objects[i];
            proof {
                assert(self.objects@.take(i + 1).drop_last() == self.objects@.take(i as int));
                assert(self.objects@.take(i + 1).last() == object);
                assert(self@[i as int] == object);
                assert(self@.contains(object));
            }
            match probe(object.handle, Interval::new(ray_t.min, closest_so_far)) {
                Some(t) => {
                    hit_anything = true;
                    closest_so_far = t;
                    *rec = HitRecord::new(t, object.handle);
                },
                None => {},
            }
            i += 1;
        }
        proof {
            assert(self.objects@.take(i as int) == self.objects@);
        }
        hit_anything
    }

    /// The number of objects in the list.
    pub fn len(&self) -> (n: usize)
        ensures
            n == self@.len(),
    {
        self.objects.len()
    }

    /// The object at position `i`.
    pub fn object(&self, i: usize) -> (o: Object)
        requires
            i < self@.len(),
        ensures
            o == self@[i as int],
    {
        self.objects[i]
    }

    /// The handle of an object of the list, drawn at random.
    pub fn random(&self) -> (handle: usize)
        requires
            0 < self@.len() <= i32::MAX,
        ensures
            self.holds(handle),
    {
        let last: i32 = (self.objects.len() - 1) as i32;
        let k = random_int_range(0, last);
        proof {
            assert(self@.contains(self@[k as int]));
        }
        self.objects[k as usize].handle
    }
}

/// The union of the boxes of a sequence with one more object put in at any
/// place is the union of the boxes of the sequence, widened by the box of
/// the object.
pub proof fn lemma_bounds_insert(objects: Seq<Object>, at: int, o: Object)
    requires
        0 <= at <= objects.len(),
    ensures
        bounds(objects.insert(at, o)) == bounds(objects).union(o.bbox),
    decreases objects.len() - at,
{
    let grown = objects.insert(at, o);
    if at == objects.len() {
        assert(grown.drop_last() == objects);
    } else {
        assert(grown.drop_last() == objects.drop_last().insert(at, o));
        assert(grown.last() == objects.last());
        lemma_bounds_insert(objects.drop_last(), at, o);
    }
}

/// The union of the boxes of two sequences put together is the union of
/// their two unions.
pub proof fn lemma_bounds_concat(first: Seq<Object>, second: Seq<Object>)
    ensures
        bounds(first + second) == bounds(first).union(bounds(second)),
    decreases second.len(),
{
    if second.len() == 0 {
        assert(first + second == first);
    } else {
        assert((first + second).drop_last() == first + second.drop_last());
        lemma_bounds_concat(first, second.drop_last());
    }
}

/// The union of the boxes of a sequence encloses the box of each member.
pub proof fn lemma_bounds_encloses(objects: Seq<Object>, o: Object)
    requires
        objects.contains(o),
    ensures
        bounds(objects).encloses(o.bbox),
    decreases objects.len(),
{
    if objects.len() > 0 {
        if objects.last() != o {
            let k = choose|k: int| 0 <= k < objects.len() && objects[k] == o;
            assert(objects.drop_last()[k] == o);
            lemma_bounds_encloses(objects.drop_last(), o);
        }
    }
}

/// A linear search finds the least parameter: where every object is met at
/// most once, as `entry` tells, `scan` returns the least parameter within
/// `ray_t` at which any object is met, together with an object that is met
/// there.
pub proof fn lemma_scan_finds_closest(
    objects: Seq<Object>,
    entry: spec_fn(usize) -> Option<i64>,
    ray_t: Interval,
)
    ensures
        is_closest(objects, entry, ray_t, hit_parameter(scan(objects, entry_probe(entry), ray_t))),
        match scan(objects, entry_probe(entry), ray_t) {
            Some(h) => entry(h.object) == Some(h.t) && holds_handle(objects, h.object),
            None => true,
        },
    decreases objects.len(),
{
    if objects.len() > 0 {
        let init = objects.drop_last();
        let last = objects.last();
        lemma_scan_finds_closest(init, entry, ray_t);
        let before = scan(init, entry_probe(entry), ray_t);
        let after = scan(objects, entry_probe(entry), ray_t);
        assert(objects.contains(last)) by {
            assert(objects[objects.len() - 1] == last);
        }
        assert forall|o: Object| init.contains(o) implies objects.contains(o) by {
            let k = choose|k: int| 0 <= k < init.len() && init[k] == o;
            assert(objects[k] == o);
        }
        assert forall|o: Object| objects.contains(o) implies init.contains(o) || o == last by {
            let k = choose|k: int| 0 <= k < objects.len() && objects[k] == o;
            if k < init.len() {
                assert(init[k] == o);
            }
        }
        match after {
            Some(h) => {
                if before is Some && before->0.t == h.t && entry(last.handle) != Some(h.t) {
                    let w = choose|o: Object| init.contains(o) && entry(o.handle) == Some(h.t);
                    assert(objects.contains(w));
                }
            },
            None => {},
        }
    }
}

} // verus!

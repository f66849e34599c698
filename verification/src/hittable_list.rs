//! A scene: a list of surfaces, hit as one.
use crate::fixed::Scalar;
use crate::hittable::{hit_view, HitRecord, Hittable, SurfaceHit};
use crate::material::MaterialType;
use crate::ray::Ray;
use crate::vec3::V3;
use std::rc::Rc;
use vstd::prelude::*;

verus! {

/// An ordered collection of shared surfaces.
pub struct HittableList<T> {
    pub objects: Vec<Rc<T>>,
}

/// What the member `i` returns when it is asked alone.
pub open spec fn member_hit<T: Hittable>(
    objects: Seq<Rc<T>>,
    i: int,
    origin: V3,
    dir: V3,
    t_min: int,
    t_max: int,
) -> Option<SurfaceHit> {
    objects[i].hit_model(origin, dir, t_min, t_max)
}

/// The upper bound that is left after a hit: the parameter of the hit, or
/// `t_max` where there is none yet.
pub open spec fn bound_after(hit: Option<SurfaceHit>, t_max: int) -> int {
    match hit {
        Some(h) => h.0.t,
        None => t_max,
    }
}

/// The hit that is kept after the first `n` members were asked in turn,
/// each within the bound that the ones before it left.
pub open spec fn closest_hit<T: Hittable>(
    objects: Seq<Rc<T>>,
    n: int,
    origin: V3,
    dir: V3,
    t_min: int,
    t_max: int,
) -> Option<SurfaceHit>
    decreases n,
{
    if n <= 0 {
        None
    } else {
        let before = closest_hit(objects, n - 1, origin, dir, t_min, t_max);
        match objects[n - 1].hit_model(origin, dir, t_min, bound_after(before, t_max)) {
            Some(h) => Some(h),
            None => before,
        }
    }
}

/// Whether `h` is the hit of the member `k` asked alone, and no member
/// asked alone hits nearer, nor a later one as near.
pub open spec fn is_nearest<T: Hittable>(
    objects: Seq<Rc<T>>,
    n: int,
    k: int,
    h: SurfaceHit,
    origin: V3,
    dir: V3,
    t_min: int,
    t_max: int,
) -> bool {
    &&& 0 <= k < n
    &&& member_hit(objects, k, origin, dir, t_min, t_max) == Some(h)
    &&& forall|j: int|
        0 <= j < n ==> (#[trigger] member_hit(objects, j, origin, dir, t_min, t_max) matches Some(
            other,
        ) ==> h.0.t <= other.0.t && (j > k ==> h.0.t < other.0.t))
}

/// Whether none of the first `n` members, asked alone, is hit.
pub open spec fn none_hit<T: Hittable>(
    objects: Seq<Rc<T>>,
    n: int,
    origin: V3,
    dir: V3,
    t_min: int,
    t_max: int,
) -> bool {
    forall|j: int|
        0 <= j < n ==> #[trigger] member_hit(objects, j, origin, dir, t_min, t_max) is None
}

/// The list returns the hit of the nearest member asked alone; among
/// members hit at the same distance, that of the last. It returns none
/// exactly where no member is hit.
pub proof fn lemma_closest_is_nearest<T: Hittable>(
    objects: Seq<Rc<T>>,
    n: int,
    origin: V3,
    dir: V3,
    t_min: int,
    t_max: int,
)
    requires
        0 <= n <= objects.len(),
    ensures
        match closest_hit(objects, n, origin, dir, t_min, t_max) {
            Some(h) => exists|k: int|
                #[trigger] is_nearest(objects, n, k, h, origin, dir, t_min, t_max),
            None => none_hit(objects, n, origin, dir, t_min, t_max),
        },
        closest_hit(objects, n, origin, dir, t_min, t_max) matches Some(h) ==> t_min < h.0.t
            <= t_max,
    decreases n,
{
    if n > 0 {
        lemma_closest_is_nearest(objects, n - 1, origin, dir, t_min, t_max);
        let before = closest_hit(objects, n - 1, origin, dir, t_min, t_max);
        let bound = bound_after(before, t_max);
        let last = objects[n - 1];
        let alone = member_hit(objects, n - 1, origin, dir, t_min, t_max);
        last.lemma_hit_window(origin, dir, t_min, bound, t_max);
        last.lemma_hit_in_range(origin, dir, t_min, t_max);
        last.lemma_hit_in_range(origin, dir, t_min, bound);
        let now = closest_hit(objects, n, origin, dir, t_min, t_max);
        match before {
            Some(hb) => {
                let m = n - 1;
                let kb = choose|k: int|
                    #[trigger] is_nearest(objects, m, k, hb, origin, dir, t_min, t_max);
                match last.hit_model(origin, dir, t_min, bound) {
                    Some(h) => {
                        assert(alone == Some(h));
                        assert(is_nearest(objects, n, n - 1, h, origin, dir, t_min, t_max)) by {
                            assert forall|j: int| 0 <= j < n implies (#[trigger] member_hit(
                                objects,
                                j,
                                origin,
                                dir,
                                t_min,
                                t_max,
                            ) matches Some(other) ==> h.0.t <= other.0.t && (j > n - 1 ==> h.0.t
                                < other.0.t)) by {
                                if j < n - 1 {
                                    assert(member_hit(objects, j, origin, dir, t_min, t_max)
                                        matches Some(other) ==> hb.0.t <= other.0.t);
                                }
                            }
                        }
                    },
                    None => {
                        assert(now == before);
                        assert(is_nearest(objects, n, kb, hb, origin, dir, t_min, t_max)) by {
                            assert forall|j: int| 0 <= j < n implies (#[trigger] member_hit(
                                objects,
                                j,
                                origin,
                                dir,
                                t_min,
                                t_max,
                            ) matches Some(other) ==> hb.0.t <= other.0.t && (j > kb ==> hb.0.t
                                < other.0.t)) by {
                                if j < n - 1 {
                                    assert(member_hit(objects, j, origin, dir, t_min, t_max)
                                        matches Some(other) ==> hb.0.t <= other.0.t && (j > kb
                                        ==> hb.0.t < other.0.t));
                                }
                            }
                        }
                    },
                }
            },
            None => {
                assert(bound == t_max);
                match alone {
                    Some(h) => {
                        assert(is_nearest(objects, n, n - 1, h, origin, dir, t_min, t_max)) by {
                            assert forall|j: int| 0 <= j < n implies (#[trigger] member_hit(
                                objects,
                                j,
                                origin,
                                dir,
                                t_min,
                                t_max,
                            ) matches Some(other) ==> h.0.t <= other.0.t && (j > n - 1 ==> h.0.t
                                < other.0.t)) by {
                                if j < n - 1 {
                                    assert(member_hit(objects, j, origin, dir, t_min, t_max)
                                        is None);
                                }
                            }
                        }
                    },
                    None => {
                        assert forall|j: int| 0 <= j < n implies #[trigger] member_hit(
                            objects,
                            j,
                            origin,
                            dir,
                            t_min,
                            t_max,
                        ) is None by {
                            if j < n - 1 {
                                assert(member_hit(objects, j, origin, dir, t_min, t_max) is None);
                            }
                        }
                    },
                }
            },
        }
    }
}

/// Where exactly one member is hit, the list returns that member's hit.
pub proof fn lemma_single_hit<T: Hittable>(
    objects: Seq<Rc<T>>,
    k: int,
    origin: V3,
    dir: V3,
    t_min: int,
    t_max: int,
)
    requires
        0 <= k < objects.len(),
        member_hit(objects, k, origin, dir, t_min, t_max) is Some,
        forall|j: int|
            0 <= j < objects.len() && j != k ==> #[trigger] member_hit(
                objects,
                j,
                origin,
                dir,
                t_min,
                t_max,
            ) is None,
    ensures
        closest_hit(objects, objects.len() as int, origin, dir, t_min, t_max) == member_hit(
            objects,
            k,
            origin,
            dir,
            t_min,
            t_max,
        ),
{
    let n = objects.len() as int;
    lemma_closest_is_nearest(objects, n, origin, dir, t_min, t_max);
    match closest_hit(objects, n, origin, dir, t_min, t_max) {
        Some(h) => {
            let w = choose|w: int|
                #[trigger] is_nearest(objects, n, w, h, origin, dir, t_min, t_max);
            assert(member_hit(objects, w, origin, dir, t_min, t_max) == Some(h));
            assert(w == k);
        },
        None => {
            assert(member_hit(objects, k, origin, dir, t_min, t_max) is None);
        },
    }
}

impl<T> HittableList<T> {
    /// The empty list.
    pub fn new() -> (list: Self)
        ensures
            list.objects@ == Seq::<Rc<T>>::empty(),
    {
        Self { objects: Vec::new() }
    }

    /// Removes every surface.
    pub fn clear(&mut self)
        ensures
            final(self).objects@ == Seq::<Rc<T>>::empty(),
    {
        self.objects.clear();
    }

    /// Adds a surface at the end.
    pub fn add(&mut self, object: Rc<T>)
        ensures
            final(self).objects@ == old(self).objects@.push(object),
    {
        self.objects.push(object);
    }
}

impl<T: Hittable> Hittable for HittableList<T> {
    open spec fn hit_model(&self, origin: V3, dir: V3, t_min: int, t_max: int) -> Option<
        SurfaceHit,
    > {
        closest_hit(self.objects@, self.objects@.len() as int, origin, dir, t_min, t_max)
    }

    proof fn lemma_hit_in_range(&self, origin: V3, dir: V3, t_min: int, t_max: int) {
        lemma_closest_is_nearest(
            self.objects@,
            self.objects@.len() as int,
            origin,
            dir,
            t_min,
            t_max,
        );
    }

    proof fn lemma_hit_faces_ray(&self, origin: V3, dir: V3, t_min: int, t_max: int) {
        let n = self.objects@.len() as int;
        lemma_closest_is_nearest(self.objects@, n, origin, dir, t_min, t_max);
        match closest_hit(self.objects@, n, origin, dir, t_min, t_max) {
            Some(h) => {
                let k = choose|k: int| #[trigger]
                    is_nearest(self.objects@, n, k, h, origin, dir, t_min, t_max);
                self.objects@[k].lemma_hit_faces_ray(origin, dir, t_min, t_max);
            },
            None => {},
        }
    }

    proof fn lemma_hit_window(&self, origin: V3, dir: V3, t_min: int, bound: int, t_max: int) {
        lemma_closest_window(
            self.objects@,
            self.objects@.len() as int,
            origin,
            dir,
            t_min,
            bound,
            t_max,
        );
    }

    fn hit(&self, r: &Ray, t_min: Scalar, t_max: Scalar) -> (res: Option<
        (HitRecord, Rc<MaterialType>),
    >)
        ensures
            match hit_view(res) {
                Some(h) => t_min@ < h.0.t <= t_max@ && exists|k: int| #[trigger]
                    is_nearest(
                        self.objects@,
                        self.objects@.len() as int,
                        k,
                        h,
                        r.origin@,
                        r.dir@,
                        t_min@,
                        t_max@,
                    ),
                None => none_hit(
                    self.objects@,
                    self.objects@.len() as int,
                    r.origin@,
                    r.dir@,
                    t_min@,
                    t_max@,
                ),
            },
    {
        proof {
            lemma_closest_is_nearest(
                self.objects@,
                self.objects@.len() as int,
                r.origin@,
                r.dir@,
                t_min@,
                t_max@,
            );
        }
        let mut found: Option<(HitRecord, Rc<MaterialType>)> = None;
        let mut closest_so_far: Scalar = t_max;
        let mut i: usize = 0;
        while i < self.objects.len()
            invariant
                0 <= i <= self.objects@.len(),
                hit_view(found) == closest_hit(
                    self.objects@,
                    i as int,
                    r.origin@,
                    r.dir@,
                    t_min@,
                    t_max@,
                ),
                closest_so_far@ == bound_after(hit_view(found), t_max@),
            decreases self.objects@.len() - i,
        {
            match self.objects[i].hit(r, t_min, closest_so_far) {
                Some((rec, m)) => {
                    closest_so_far = rec.t;
                    found = Some((rec, m));
                },
                None => {},
            }
            i += 1;
        }
        found
    }
}

/// Lowering the upper bound of a list keeps its hit where the hit still
/// lies within the bound, and leaves none where it does not.
pub proof fn lemma_closest_window<T: Hittable>(
    objects: Seq<Rc<T>>,
    n: int,
    origin: V3,
    dir: V3,
    t_min: int,
    bound: int,
    t_max: int,
)
    requires
        0 <= n <= objects.len(),
        bound <= t_max,
    ensures
        closest_hit(objects, n, origin, dir, t_min, bound) == match closest_hit(
            objects,
            n,
            origin,
            dir,
            t_min,
            t_max,
        ) {
            Some(h) => if h.0.t <= bound {
                Some(h)
            } else {
                None
            },
            None => None,
        },
    decreases n,
{
    if n > 0 {
        lemma_closest_window(objects, n - 1, origin, dir, t_min, bound, t_max);
        lemma_closest_is_nearest(objects, n - 1, origin, dir, t_min, t_max);
        lemma_closest_is_nearest(objects, n - 1, origin, dir, t_min, bound);
        let wide = closest_hit(objects, n - 1, origin, dir, t_min, t_max);
        let narrow = closest_hit(objects, n - 1, origin, dir, t_min, bound);
        let last = objects[n - 1];
        let wide_bound = bound_after(wide, t_max);
        let narrow_bound = bound_after(narrow, bound);
        last.lemma_hit_window(origin, dir, t_min, wide_bound, t_max);
        last.lemma_hit_window(origin, dir, t_min, narrow_bound, t_max);
        last.lemma_hit_in_range(origin, dir, t_min, t_max);
    }
}

} // verus!

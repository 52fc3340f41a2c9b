//! An aggregate of spheres and the nearest-hit traversal.
//!
//! The traversal narrows the search interval as it goes: each member is
//! queried up to the closest parameter found so far, and a later member
//! replaces the best record only when its strike is strictly closer. Ties
//! therefore stay with the earlier member.

use vstd::prelude::*;
use crate::hittable::{HitRecord, Hittable};
use crate::ray::{Ray, T_MAX};
use crate::sphere::{
    lemma_normal_faces_ray, lemma_sphere_hit_narrow, lemma_sphere_hit_range, lemma_sphere_hit_wf,
    lemma_sphere_root_bounds, record_wf, sphere_hit_spec, sphere_record, sphere_root1,
    sphere_root2, Sphere,
};

verus! {

/// The far end of the interval a member is queried on: the best parameter
/// found so far, or the full interval's end before any strike.
pub open spec fn cur_max_of(best: Option<HitRecord>, t_max: i64) -> i64 {
    match best {
        Some(b) => b.t,
        None => t_max,
    }
}

/// An ordered collection of spheres, each owned by the list.
pub struct HittableList {
    pub objects: Vec<Sphere>,
}

/// The traversal over the members of `objs` still to visit, carrying the
/// best record found among the members already visited (`None` before any
/// strike). Each member is queried on the interval narrowed to the best
/// parameter so far, and replaces the best record only on a strictly closer
/// strike.
pub open spec fn list_hit_from(
    objs: Seq<Sphere>,
    ray: Ray,
    t_min: i64,
    t_max: i64,
    best: Option<HitRecord>,
) -> Option<HitRecord>
    decreases objs.len(),
{
    if objs.len() == 0 {
        best
    } else {
        let cur_max = cur_max_of(best, t_max);
        let next = match sphere_hit_spec(objs[0], ray, t_min, cur_max) {
            Some(rec) => if best is Some && rec.t >= cur_max {
                best
            } else {
                Some(rec)
            },
            None => best,
        };
        list_hit_from(objs.drop_first(), ray, t_min, t_max, next)
    }
}

/// With a best record already in hand, the traversal always returns one,
/// and never a farther one.
pub proof fn lemma_list_hit_from_monotone(
    objs: Seq<Sphere>,
    ray: Ray,
    t_min: i64,
    t_max: i64,
    b: HitRecord,
)
    ensures
        match list_hit_from(objs, ray, t_min, t_max, Some(b)) {
            Some(r) => r.t <= b.t,
            None => false,
        },
    decreases objs.len(),
{
    if objs.len() > 0 {
        match sphere_hit_spec(objs[0], ray, t_min, b.t) {
            Some(rec) => {
                if rec.t >= b.t {
                    lemma_list_hit_from_monotone(objs.drop_first(), ray, t_min, t_max, b);
                } else {
                    lemma_list_hit_from_monotone(objs.drop_first(), ray, t_min, t_max, rec);
                }
            },
            None => {
                lemma_list_hit_from_monotone(objs.drop_first(), ray, t_min, t_max, b);
            },
        }
    }
}

/// Whatever the traversal returns lies in the query interval, is bounded,
/// and its normal does not point along the ray.
pub proof fn lemma_list_hit_from_wf(
    objs: Seq<Sphere>,
    ray: Ray,
    t_min: i64,
    t_max: i64,
    best: Option<HitRecord>,
)
    requires
        forall|i: int| 0 <= i < objs.len() ==> (#[trigger] objs[i]).wf(),
        ray.wf(),
        0 <= t_min,
        t_max <= T_MAX,
        match best {
            Some(b) => t_min <= b.t <= t_max && record_wf(b) && ray.direction.dot_spec(b.normal)
                <= 0,
            None => true,
        },
    ensures
        match list_hit_from(objs, ray, t_min, t_max, best) {
            Some(rec) => t_min <= rec.t <= t_max && record_wf(rec) && ray.direction.dot_spec(
                rec.normal,
            ) <= 0,
            None => true,
        },
    decreases objs.len(),
{
    if objs.len() > 0 {
        let cur = cur_max_of(best, t_max);
        let found = sphere_hit_spec(objs[0], ray, t_min, cur);
        match found {
            Some(rec) => {
                lemma_sphere_hit_wf(objs[0], ray, t_min, cur);
                lemma_normal_faces_ray(objs[0], ray, t_min, cur, rec);
            },
            None => {},
        }
        let next = match found {
            Some(rec) => if best is Some && rec.t >= cur {
                best
            } else {
                Some(rec)
            },
            None => best,
        };
        assert forall|j: int| 0 <= j < objs.drop_first().len() implies (#[trigger] objs.drop_first()[j]).wf() by {
            assert(objs.drop_first()[j] == objs[j + 1]);
        }
        lemma_list_hit_from_wf(objs.drop_first(), ray, t_min, t_max, next);
    }
}

/// `r` is member `j`'s strike record at its stored parameter, which is one
/// of that member's two quadratic roots.
pub open spec fn from_member(objs: Seq<Sphere>, ray: Ray, r: HitRecord, j: int) -> bool {
    &&& 0 <= j < objs.len()
    &&& r == sphere_record(objs[j], ray, r.t as int)
    &&& (r.t as int == sphere_root1(objs[j], ray) || r.t as int == sphere_root2(objs[j], ray))
}

/// The traversal's record, when there is one, is some member's strike
/// record at one of that member's roots (or the record it started from).
pub proof fn lemma_list_hit_from_member(
    objs: Seq<Sphere>,
    ray: Ray,
    t_min: i64,
    t_max: i64,
    best: Option<HitRecord>,
)
    ensures
        match list_hit_from(objs, ray, t_min, t_max, best) {
            Some(r) => best == Some(r) || exists|j: int| #[trigger] from_member(objs, ray, r, j),
            None => true,
        },
    decreases objs.len(),
{
    if objs.len() > 0 {
        let cur = cur_max_of(best, t_max);
        let found = sphere_hit_spec(objs[0], ray, t_min, cur);
        let next = match found {
            Some(rec) => if best is Some && rec.t >= cur {
                best
            } else {
                Some(rec)
            },
            None => best,
        };
        lemma_list_hit_from_member(objs.drop_first(), ray, t_min, t_max, next);
        match list_hit_from(objs, ray, t_min, t_max, best) {
            Some(r) => {
                if next == Some(r) && best != Some(r) {
                    lemma_sphere_hit_range(objs[0], ray, t_min, cur, r);
                    assert(from_member(objs, ray, r, 0));
                } else if next != Some(r) && best != Some(r) {
                    let j = choose|j: int| #[trigger] from_member(objs.drop_first(), ray, r, j);
                    assert(objs.drop_first()[j] == objs[j + 1]);
                    assert(from_member(objs, ray, r, j + 1));
                }
            },
            None => {},
        }
    }
}

/// The traversal's record is at least as close as any member's strike on the
/// interval it is queried with.
pub proof fn lemma_list_hit_from_nearest(
    objs: Seq<Sphere>,
    ray: Ray,
    t_min: i64,
    t_max: i64,
    best: Option<HitRecord>,
    i: int,
    ri: HitRecord,
)
    requires
        0 <= i < objs.len(),
        cur_max_of(best, t_max) <= t_max,
        sphere_hit_spec(objs[i], ray, t_min, cur_max_of(best, t_max)) == Some(ri),
    ensures
        match list_hit_from(objs, ray, t_min, t_max, best) {
            Some(r) => r.t <= ri.t,
            None => false,
        },
    decreases objs.len(),
{
    let cur = cur_max_of(best, t_max);
    let found = sphere_hit_spec(objs[0], ray, t_min, cur);
    let next = match found {
        Some(rec) => if best is Some && rec.t >= cur {
            best
        } else {
            Some(rec)
        },
        None => best,
    };
    if i == 0 {
        lemma_sphere_hit_range(objs[0], ray, t_min, cur, ri);
        match next {
            Some(nb) => {
                assert(nb.t <= ri.t);
                lemma_list_hit_from_monotone(objs.drop_first(), ray, t_min, t_max, nb);
            },
            None => {
                assert(false);
            },
        }
    } else {
        let cur2 = cur_max_of(next, t_max);
        lemma_sphere_hit_range(objs[i], ray, t_min, cur, ri);
        match found {
            Some(rec) => {
                lemma_sphere_hit_range(objs[0], ray, t_min, cur, rec);
            },
            None => {},
        }
        assert(cur2 <= cur);
        assert(objs.drop_first()[i - 1] == objs[i]);
        if ri.t <= cur2 {
            lemma_sphere_hit_narrow(objs[i], ray, t_min, cur, cur2, ri);
            lemma_list_hit_from_nearest(objs.drop_first(), ray, t_min, t_max, next, i - 1, ri);
        } else {
            match next {
                Some(nb) => {
                    lemma_list_hit_from_monotone(objs.drop_first(), ray, t_min, t_max, nb);
                },
                None => {
                    assert(false);
                },
            }
        }
    }
}

/// Nearest-hit correctness: the record the traversal returns is at least as
/// close as every member's strike within the full interval, and it is some
/// member's strike record.
pub proof fn lemma_list_hit_nearest(
    list: &HittableList,
    ray: Ray,
    t_min: i64,
    t_max: i64,
    i: int,
    ri: HitRecord,
)
    requires
        0 <= i < list.objects@.len(),
        sphere_hit_spec(list.objects@[i], ray, t_min, t_max) == Some(ri),
    ensures
        match list.hit_spec(ray, t_min, t_max) {
            Some(r) => r.t <= ri.t && exists|j: int| #[trigger] from_member(
                list.objects@,
                ray,
                r,
                j,
            ),
            None => false,
        },
{
    lemma_list_hit_from_nearest(list.objects@, ray, t_min, t_max, None, i, ri);
    lemma_list_hit_from_member(list.objects@, ray, t_min, t_max, None);
}

/// Nearest-hit for a two-member scene, exactly: when both spheres are
/// struck within the interval, the traversal's parameter is the smaller of
/// the two strike parameters.
pub proof fn lemma_two_sphere_minimum(
    list: &HittableList,
    ray: Ray,
    t_min: i64,
    t_max: i64,
    r0: HitRecord,
    r1: HitRecord,
)
    requires
        list.wf(),
        ray.wf(),
        0 <= t_min,
        t_max <= T_MAX,
        list.objects@.len() == 2,
        sphere_hit_spec(list.objects@[0], ray, t_min, t_max) == Some(r0),
        sphere_hit_spec(list.objects@[1], ray, t_min, t_max) == Some(r1),
    ensures
        match list.hit_spec(ray, t_min, t_max) {
            Some(r) => r.t == if r0.t <= r1.t {
                r0.t
            } else {
                r1.t
            },
            None => false,
        },
{
    let objs = list.objects@;
    lemma_list_hit_nearest(list, ray, t_min, t_max, 0, r0);
    lemma_list_hit_nearest(list, ray, t_min, t_max, 1, r1);
    lemma_list_hit_wf(list, ray, t_min, t_max);
    lemma_sphere_hit_range(objs[0], ray, t_min, t_max, r0);
    lemma_sphere_hit_range(objs[1], ray, t_min, t_max, r1);
    match list.hit_spec(ray, t_min, t_max) {
        Some(r) => {
            let j = choose|j: int| #[trigger] from_member(objs, ray, r, j);
            assert(from_member(objs, ray, r, j));
            assert(objs[j].wf());
            lemma_sphere_root_bounds(objs[j], ray);
            // The record's parameter is one of member j's roots and lies in
            // the interval, so member j's own accepted root is no farther;
            // the traversal in turn is no farther than that root.
            if j == 0 {
                assert(r0.t <= r.t);
            } else {
                assert(r1.t <= r.t);
            }
        },
        None => {},
    }
}

/// Tie-break: when two members strike at the same parameter, the first in
/// iteration order provides the record.
pub proof fn lemma_list_hit_tie_break(
    list: &HittableList,
    ray: Ray,
    t_min: i64,
    t_max: i64,
    r0: HitRecord,
    r1: HitRecord,
)
    requires
        list.objects@.len() == 2,
        sphere_hit_spec(list.objects@[0], ray, t_min, t_max) == Some(r0),
        sphere_hit_spec(list.objects@[1], ray, t_min, t_max) == Some(r1),
        r0.t == r1.t,
    ensures
        list.hit_spec(ray, t_min, t_max) == Some(r0),
{
    let objs = list.objects@;
    lemma_sphere_hit_range(objs[0], ray, t_min, t_max, r0);
    lemma_sphere_hit_range(objs[1], ray, t_min, t_max, r1);
    let d1 = objs.drop_first();
    assert(d1[0] == objs[1]);
    lemma_sphere_hit_narrow(objs[1], ray, t_min, t_max, r0.t, r1);
    assert(list_hit_from(objs, ray, t_min, t_max, None) == list_hit_from(
        d1,
        ray,
        t_min,
        t_max,
        Some(r0),
    ));
    assert(list_hit_from(d1, ray, t_min, t_max, Some(r0)) == list_hit_from(
        d1.drop_first(),
        ray,
        t_min,
        t_max,
        Some(r0),
    ));
    assert(d1.drop_first() =~= Seq::<Sphere>::empty());
    assert(list_hit_from(d1.drop_first(), ray, t_min, t_max, Some(r0)) == Some(r0));
}

/// What the whole scene's traversal returns: in the interval, bounded, with
/// a normal that faces against the ray.
pub proof fn lemma_list_hit_wf(list: &HittableList, ray: Ray, t_min: i64, t_max: i64)
    requires
        list.wf(),
        ray.wf(),
        0 <= t_min,
        t_max <= T_MAX,
    ensures
        match list.hit_spec(ray, t_min, t_max) {
            Some(rec) => t_min <= rec.t <= t_max && record_wf(rec) && ray.direction.dot_spec(
                rec.normal,
            ) <= 0,
            None => true,
        },
{
    lemma_list_hit_from_wf(list.objects@, ray, t_min, t_max, None);
}

impl HittableList {
    /// An empty scene.
    pub fn new() -> (r: HittableList)
        ensures
            r.objects@.len() == 0,
    {
        HittableList { objects: Vec::new() }
    }

    /// Append one sphere; it is visited after every member already present.
    pub fn add(&mut self, s: Sphere)
        ensures
            final(self).objects@ == old(self).objects@.push(s),
    {
        self.objects.push(s);
    }
}

impl Hittable for HittableList {
    /// A well-formed list holds only well-formed spheres.
    open spec fn wf(&self) -> bool {
        forall|i: int| 0 <= i < self.objects@.len() ==> (#[trigger] self.objects@[i]).wf()
    }

    open spec fn hit_spec(&self, ray: Ray, t_min: i64, t_max: i64) -> Option<HitRecord> {
        list_hit_from(self.objects@, ray, t_min, t_max, None)
    }

    fn hit(&self, ray: &Ray, t_min: i64, t_max: i64) -> (r: Option<HitRecord>) {
        let mut best: Option<HitRecord> = None;
        let n = self.objects.len();
        let mut i: usize = 0;
        proof {
            assert(self.objects@.skip(0) =~= self.objects@);
        }
        while i < n
            invariant
                0 <= i <= n,
                n == self.objects@.len(),
                self.wf(),
                ray.wf(),
                0 <= t_min,
                t_max <= T_MAX,
                match best {
                    Some(b) => t_min <= b.t <= t_max,
                    None => true,
                },
                list_hit_from(self.objects@.skip(i as int), *ray, t_min, t_max, best)
                    == list_hit_from(self.objects@, *ray, t_min, t_max, None),
            decreases n - i,
        {
            let cur_max = match &best {
                Some(b) => b.t,
                None => t_max,
            };
            let found = self.objects[i].hit(ray, t_min, cur_max);
            proof {
                let rest = self.objects@.skip(i as int);
                assert(rest[0] == self.objects@[i as int]);
                assert(rest.drop_first() =~= self.objects@.skip(i as int + 1));
            }
            match found {
                Some(rec) => {
                    if best.is_none() || rec.t < cur_max {
                        best = Some(rec);
                    }
                },
                None => {},
            }
            i = i + 1;
        }
        proof {
            assert(self.objects@.skip(n as int) =~= Seq::<Sphere>::empty());
        }
        best
    }
}

} // verus!

//! Hit records and the composite scene container.

use vstd::prelude::*;

use crate::fixed::{DIR_BOUND, NORM_BOUND, POS_BOUND};
use crate::material::{mat_wf, Material};
use crate::ray::Ray;
use crate::sphere::{
    cand_normal, cand_point, cand_rec, discriminant, hit_t, sphere_hit_g, sphere_wf, Sphere,
};
use crate::vec3::{vbounded, Vec3, Vec3g};

verus! {

/// Result of a successful ray/surface intersection: distance along the
/// ray, world-space point, surface normal and the struck material
/// (materials are small copyable values, so the record carries its own).
#[derive(Clone, Copy, Debug)]
pub struct HitRecord {
    pub t: i64,
    pub p: Vec3,
    pub normal: Vec3,
    pub material: Material,
}

/// Mathematical model of a hit record.
pub struct HitG {
    pub t: int,
    pub p: Vec3g,
    pub normal: Vec3g,
    pub material: Material,
}

pub open spec fn hitg_of(h: HitRecord) -> HitG {
    HitG { t: h.t as int, p: h.p@, normal: h.normal@, material: h.material }
}

/// Well-formedness of a hit record: point and normal within the numeric
/// budget, material valid.
pub open spec fn rec_wf(rec: HitRecord) -> bool {
    &&& vbounded(rec.p@, POS_BOUND as int)
    &&& vbounded(rec.normal@, NORM_BOUND as int)
    &&& mat_wf(rec.material)
}

/// An ordered collection of spheres; intersection resolves the nearest
/// hit among all members.
pub struct Hitables {
    pub list: Vec<Sphere>,
}

impl View for Hitables {
    type V = Seq<Sphere>;

    open spec fn view(&self) -> Seq<Sphere> {
        self.list@
    }
}

pub open spec fn scene_wf(s: Seq<Sphere>) -> bool {
    forall|i: int| 0 <= i < s.len() ==> sphere_wf(#[trigger] s[i])
}

/// Walk the members in order, keeping the closest hit so far: each later
/// member is tested against the shrunken window, so it can only replace
/// the record with a strictly closer hit (first seen wins exact ties).
pub open spec fn scene_hit_from(
    list: Seq<Sphere>,
    r: Ray,
    t_min: int,
    t_max: int,
    acc: Option<HitG>,
) -> Option<HitG>
    decreases list.len(),
{
    if list.len() == 0 {
        acc
    } else {
        match sphere_hit_g(list[0], r, t_min, t_max) {
            Some(h) => scene_hit_from(list.skip(1), r, t_min, h.t, Some(h)),
            None => scene_hit_from(list.skip(1), r, t_min, t_max, acc),
        }
    }
}

/// The closest hit of the whole scene inside `(t_min, t_max)`.
pub open spec fn scene_hit(list: Seq<Sphere>, r: Ray, t_min: int, t_max: int) -> Option<HitG> {
    scene_hit_from(list, r, t_min, t_max, None)
}

impl Hitables {
    pub fn new(list: Vec<Sphere>) -> (h: Hitables)
        ensures
            h@ == list@,
    {
        Hitables { list }
    }

    /// Nearest hit among all members strictly inside `(t_min, t_max)`.
    pub fn hit(&self, r: &Ray, t_min: i64, t_max: i64) -> (res: Option<HitRecord>)
        requires
            scene_wf(self@),
            vbounded(r.a@, POS_BOUND as int),
            vbounded(r.b@, DIR_BOUND as int),
        ensures
            ({
                let g = scene_hit(self@, *r, t_min as int, t_max as int);
                match res {
                    Some(h) => g == Some(hitg_of(h)) && rec_wf(h) && t_min < h.t < t_max,
                    None => g.is_none(),
                }
            }),
    {
        let mut closest: i64 = t_max;
        let mut best: Option<HitRecord> = None;
        let mut i: usize = 0;
        proof {
            assert(self@.skip(0) =~= self@);
        }
        while i < self.list.len()
            invariant
                scene_wf(self@),
                vbounded(r.a@, POS_BOUND as int),
                vbounded(r.b@, DIR_BOUND as int),
                i <= self@.len(),
                scene_hit(self@, *r, t_min as int, t_max as int) == scene_hit_from(
                    self@.skip(i as int),
                    *r,
                    t_min as int,
                    closest as int,
                    match best {
                        Some(h) => Some(hitg_of(h)),
                        None => None,
                    },
                ),
                match best {
                    Some(h) => rec_wf(h) && t_min < h.t < t_max && h.t == closest,
                    None => closest == t_max,
                },
            decreases self@.len() - i,
        {
            proof {
                assert(self@.skip(i as int)[0] == self@[i as int]);
                assert(self@.skip(i as int).skip(1) =~= self@.skip(i + 1));
            }
            match self.list[i].hit(r, t_min, closest) {
                Some(h) => {
                    closest = h.t;
                    best = Some(h);
                },
                None => {},
            }
            i = i + 1;
        }
        proof {
            assert(self@.skip(self@.len() as int) =~= Seq::<Sphere>::empty());
        }
        best
    }
}

/// A member hit not yet limited by a window's upper end: positive
/// discriminant, root beyond `t_min`, point and normal in budget.
pub open spec fn cand_valid(s: Sphere, r: Ray, t_min: int) -> bool {
    &&& discriminant(s, r) > 0
    &&& t_min < hit_t(s, r)
    &&& vbounded(cand_point(s, r), POS_BOUND as int)
    &&& vbounded(cand_normal(s, r), NORM_BOUND as int)
}

/// The composite resolves the nearest accepted hit: what it returns is
/// some member's candidate, no member's accepted candidate lies closer,
/// and a miss means every member's candidate falls outside the window.
pub proof fn lemma_scene_hit_nearest(list: Seq<Sphere>, r: Ray, t_min: int, t_max: int)
    ensures
        (match scene_hit(list, r, t_min, t_max) {
            Some(h) => {
                &&& exists|i: int|
                    0 <= i < list.len() && cand_valid(#[trigger] list[i], r, t_min) && h
                        == cand_rec(list[i], r) && hit_t(list[i], r) < t_max
                &&& forall|i: int|
                    0 <= i < list.len() && cand_valid(#[trigger] list[i], r, t_min) && hit_t(
                        list[i],
                        r,
                    ) < t_max ==> h.t <= hit_t(list[i], r)
            },
            None => forall|i: int|
                0 <= i < list.len() && cand_valid(#[trigger] list[i], r, t_min) ==> hit_t(
                    list[i],
                    r,
                ) >= t_max,
        }),
{
    lemma_scene_from_nearest(list, r, t_min, t_max, None);
}

proof fn lemma_scene_from_nearest(
    list: Seq<Sphere>,
    r: Ray,
    t_min: int,
    t_max: int,
    acc: Option<HitG>,
)
    requires
        (match acc {
            Some(a) => a.t == t_max,
            None => true,
        }),
    ensures
        (match scene_hit_from(list, r, t_min, t_max, acc) {
            Some(h) => {
                &&& h.t <= t_max
                &&& (acc == Some(h) || exists|i: int|
                    0 <= i < list.len() && cand_valid(#[trigger] list[i], r, t_min) && h
                        == cand_rec(list[i], r) && hit_t(list[i], r) < t_max)
                &&& forall|i: int|
                    0 <= i < list.len() && cand_valid(#[trigger] list[i], r, t_min) && hit_t(
                        list[i],
                        r,
                    ) < t_max ==> h.t <= hit_t(list[i], r)
            },
            None => acc is None && forall|i: int|
                0 <= i < list.len() && cand_valid(#[trigger] list[i], r, t_min) ==> hit_t(
                    list[i],
                    r,
                ) >= t_max,
        }),
    decreases list.len(),
{
    if list.len() == 0 {
        return ;
    }
    let s0 = list[0];
    let rest = list.skip(1);
    assert(forall|j: int| 0 <= j < rest.len() ==> #[trigger] rest[j] == list[j + 1]);
    match sphere_hit_g(s0, r, t_min, t_max) {
        Some(h0) => {
            lemma_scene_from_nearest(rest, r, t_min, h0.t, Some(h0));
            let res = scene_hit_from(rest, r, t_min, h0.t, Some(h0));
            assert(scene_hit_from(list, r, t_min, t_max, acc) == res);
            let h = res.unwrap();
            if Some(h0) != Some(h) {
                let j = choose|j: int|
                    0 <= j < rest.len() && cand_valid(#[trigger] rest[j], r, t_min) && h
                        == cand_rec(rest[j], r) && hit_t(rest[j], r) < h0.t;
                assert(list[j + 1] == rest[j]);
                assert(cand_valid(list[j + 1], r, t_min) && h == cand_rec(list[j + 1], r)
                    && hit_t(list[j + 1], r) < t_max);
            } else {
                assert(cand_valid(list[0], r, t_min) && h == cand_rec(list[0], r) && hit_t(
                    list[0],
                    r,
                ) < t_max);
            }
            assert forall|i: int|
                0 <= i < list.len() && cand_valid(#[trigger] list[i], r, t_min) && hit_t(
                    list[i],
                    r,
                ) < t_max implies h.t <= hit_t(list[i], r) by {
                if i == 0 {
                    assert(h.t <= h0.t);
                } else {
                    assert(rest[i - 1] == list[i]);
                    if hit_t(list[i], r) < h0.t {
                        assert(h.t <= hit_t(rest[i - 1], r));
                    } else {
                        assert(h.t <= h0.t);
                    }
                }
            }
        },
        None => {
            lemma_scene_from_nearest(rest, r, t_min, t_max, acc);
            let res = scene_hit_from(rest, r, t_min, t_max, acc);
            assert(scene_hit_from(list, r, t_min, t_max, acc) == res);
            match res {
                Some(h) => {
                    if acc != Some(h) {
                        let j = choose|j: int|
                            0 <= j < rest.len() && cand_valid(#[trigger] rest[j], r, t_min) && h
                                == cand_rec(rest[j], r) && hit_t(rest[j], r) < t_max;
                        assert(list[j + 1] == rest[j]);
                        assert(cand_valid(list[j + 1], r, t_min) && h == cand_rec(list[j + 1], r)
                            && hit_t(list[j + 1], r) < t_max);
                    }
                    assert forall|i: int|
                        0 <= i < list.len() && cand_valid(#[trigger] list[i], r, t_min) && hit_t(
                            list[i],
                            r,
                        ) < t_max implies h.t <= hit_t(list[i], r) by {
                        if i > 0 {
                            assert(rest[i - 1] == list[i]);
                        }
                    }
                },
                None => {
                    assert forall|i: int|
                        0 <= i < list.len() && cand_valid(#[trigger] list[i], r, t_min) implies
                        hit_t(list[i], r) >= t_max by {
                        if i > 0 {
                            assert(rest[i - 1] == list[i]);
                        }
                    }
                },
            }
        },
    }
}

/// One direction of the general order-independence argument: a hit in
/// one scene forces a hit at most as far in any scene holding the same
/// surfaces.
proof fn lemma_scene_transfer(l1: Seq<Sphere>, l2: Seq<Sphere>, r: Ray, t_min: int, t_max: int)
    requires
        l1.to_multiset() == l2.to_multiset(),
        scene_hit(l1, r, t_min, t_max).is_some(),
    ensures
        scene_hit(l2, r, t_min, t_max).is_some(),
        scene_hit(l2, r, t_min, t_max).unwrap().t <= scene_hit(l1, r, t_min, t_max).unwrap().t,
{
    l1.to_multiset_ensures();
    l2.to_multiset_ensures();
    lemma_scene_hit_nearest(l1, r, t_min, t_max);
    lemma_scene_hit_nearest(l2, r, t_min, t_max);
    let h1 = scene_hit(l1, r, t_min, t_max).unwrap();
    let i = choose|i: int|
        0 <= i < l1.len() && cand_valid(#[trigger] l1[i], r, t_min) && h1 == cand_rec(l1[i], r)
            && hit_t(l1[i], r) < t_max;
    let sp = l1[i];
    assert(l1.contains(sp));
    assert(l1.to_multiset().count(sp) > 0);
    assert(l2.contains(sp));
    let j = choose|j: int| 0 <= j < l2.len() && l2[j] == sp;
    assert(cand_valid(l2[j], r, t_min) && hit_t(l2[j], r) < t_max);
    if scene_hit(l2, r, t_min, t_max).is_none() {
        assert(hit_t(l2[j], r) >= t_max);
        assert(false);
    }
    let h2 = scene_hit(l2, r, t_min, t_max).unwrap();
    assert(h2.t <= hit_t(l2[j], r));
}

/// Order independence in general: two scenes holding the same surfaces,
/// in any order, agree on whether a ray hits and on the hit distance.
pub proof fn lemma_scene_order(l1: Seq<Sphere>, l2: Seq<Sphere>, r: Ray, t_min: int, t_max: int)
    requires
        l1.to_multiset() == l2.to_multiset(),
    ensures
        scene_hit(l1, r, t_min, t_max).is_some() == scene_hit(l2, r, t_min, t_max).is_some(),
        (match (scene_hit(l1, r, t_min, t_max), scene_hit(l2, r, t_min, t_max)) {
            (Some(h1), Some(h2)) => h1.t == h2.t,
            _ => true,
        }),
{
    if scene_hit(l1, r, t_min, t_max).is_some() {
        lemma_scene_transfer(l1, l2, r, t_min, t_max);
        lemma_scene_transfer(l2, l1, r, t_min, t_max);
    } else if scene_hit(l2, r, t_min, t_max).is_some() {
        lemma_scene_transfer(l2, l1, r, t_min, t_max);
    }
}

/// A scene with no members never hits.
pub proof fn lemma_empty_scene(r: Ray, t_min: int, t_max: int)
    ensures
        scene_hit(Seq::<Sphere>::empty(), r, t_min, t_max).is_none(),
{
}

/// Order independence of scene composition: for two spheres on the same
/// ray the closest hit wins whichever comes first in the list; the hit
/// distances agree always, and when the two candidate distances differ
/// the full records agree as well (exact ties are broken by list order).
pub proof fn lemma_scene_order_two(a: Sphere, b: Sphere, r: Ray, t_min: int, t_max: int)
    ensures
        scene_hit(seq![a, b], r, t_min, t_max).is_some() == scene_hit(
            seq![b, a],
            r,
            t_min,
            t_max,
        ).is_some(),
        (match (scene_hit(seq![a, b], r, t_min, t_max), scene_hit(seq![b, a], r, t_min, t_max)) {
            (Some(h1), Some(h2)) => h1.t == h2.t,
            _ => true,
        }),
        !(match (sphere_hit_g(a, r, t_min, t_max), sphere_hit_g(b, r, t_min, t_max)) {
            (Some(ha), Some(hb)) => ha.t == hb.t,
            _ => false,
        }) ==> scene_hit(seq![a, b], r, t_min, t_max) == scene_hit(seq![b, a], r, t_min, t_max),
{
    reveal_with_fuel(scene_hit_from, 4);
    let sab = seq![a, b];
    let sba = seq![b, a];
    assert(sab.skip(1) =~= seq![b]);
    assert(sba.skip(1) =~= seq![a]);
    assert(seq![b].skip(1) =~= Seq::<Sphere>::empty());
    assert(seq![a].skip(1) =~= Seq::<Sphere>::empty());
    assert(sab[0] == a && sab.skip(1)[0] == b);
    assert(sba[0] == b && sba.skip(1)[0] == a);
    let fa = sphere_hit_g(a, r, t_min, t_max);
    let fb = sphere_hit_g(b, r, t_min, t_max);
    assert(scene_hit(sab, r, t_min, t_max) == (match fa {
        Some(ha) => (match sphere_hit_g(b, r, t_min, ha.t) {
            Some(h2) => Some(h2),
            None => Some(ha),
        }),
        None => fb,
    }));
    assert(scene_hit(sba, r, t_min, t_max) == (match fb {
        Some(hb) => (match sphere_hit_g(a, r, t_min, hb.t) {
            Some(h2) => Some(h2),
            None => Some(hb),
        }),
        None => fa,
    }));
}

} // verus!

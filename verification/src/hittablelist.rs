//! Scenes: an ordered collection of spheres, resolving the nearest hit.

use vstd::prelude::*;
use crate::hittable::{opt_view, HitRec, HitRecord, Hittable, NORM_LIM};
use crate::ray::{ray_wf, Ray, RayModel};
use crate::sphere::{sphere_hit_model, sphere_wf, Sphere};
use crate::vector::{v_dot, v_in_bound};

verus! {

/// An aggregate of spheres; a ray hit resolves to the member hit with the
/// smallest parameter `t`.
pub struct HittableList {
    objects: Vec<Sphere>,
}

impl View for HittableList {
    type V = Seq<Sphere>;

    closed spec fn view(&self) -> Seq<Sphere> {
        self.objects@
    }
}

/// The nearest hit over a sequence of spheres: each member is intersected
/// over the full range and the record with the smallest `t` wins, an
/// earlier member winning ties.
pub open spec fn list_hit_model(objs: Seq<Sphere>, r: RayModel, t_min: int, t_max: int) -> Option<
    HitRec,
>
    decreases objs.len(),
{
    if objs.len() == 0 {
        Option::None
    } else {
        let prev = list_hit_model(objs.drop_last(), r, t_min, t_max);
        let last = sphere_hit_model(objs.last(), r, t_min, t_max);
        match (prev, last) {
            (Option::None, l) => l,
            (Option::Some(pr), Option::None) => Option::Some(pr),
            (Option::Some(pr), Option::Some(la)) => if la.t < pr.t {
                Option::Some(la)
            } else {
                Option::Some(pr)
            },
        }
    }
}

/// When `o` holds a record, its parameter is at least `rec.t`.
pub open spec fn at_most_t(rec: HitRec, o: Option<HitRec>) -> bool {
    o matches Option::Some(other) ==> rec.t <= other.t
}

/// The parameter `t` of an optional hit record.
pub open spec fn hit_t_of(o: Option<HitRec>) -> Option<int> {
    match o {
        Option::Some(rec) => Option::Some(rec.t),
        Option::None => Option::None,
    }
}

impl HittableList {
    /// An empty scene.
    pub fn new() -> (l: HittableList)
        ensures
            l@ == Seq::<Sphere>::empty(),
    {
        HittableList { objects: Vec::new() }
    }

    /// Append a sphere, which must lie within world bounds.
    pub fn add(&mut self, object: Sphere)
        requires
            sphere_wf(object),
        ensures
            final(self)@ == old(self)@.push(object),
            old(self).wf() ==> final(self).wf(),
    {
        self.objects.push(object);
        proof {
            if forall|i: int| 0 <= i < old(self)@.len() ==> sphere_wf(#[trigger] old(self)@[i]) {
                assert forall|i: int| 0 <= i < self@.len() implies sphere_wf(#[trigger] self@[i]) by {
                    if i < old(self)@.len() {
                        assert(self@[i] == old(self)@[i]);
                    } else {
                        assert(self@[i] == object);
                    }
                }
            }
        }
    }

    /// Remove every object from the scene.
    pub fn clear(&mut self)
        ensures
            final(self)@ == Seq::<Sphere>::empty(),
    {
        self.objects.clear();
    }
}

impl Hittable for HittableList {
    open spec fn wf(&self) -> bool {
        forall|i: int| 0 <= i < self@.len() ==> sphere_wf(#[trigger] self@[i])
    }

    open spec fn hit_model(&self, r: RayModel, t_min: int, t_max: int) -> Option<HitRec> {
        list_hit_model(self@, r, t_min, t_max)
    }

    fn hit(&self, r: &Ray, t_min: i64, t_max: i64) -> (res: Option<HitRecord>) {
        let mut best: Option<HitRecord> = None;
        let mut i: usize = 0;
        proof {
            assert(self@.take(0int) =~= Seq::<Sphere>::empty());
        }
        while i < self.objects.len()
            invariant
                i <= self.objects.len(),
                self.wf(),
                ray_wf(r@),
                opt_view(best) == list_hit_model(
                    self@.take(i as int),
                    r@,
                    t_min as int,
                    t_max as int,
                ),
                best matches Some(rec) ==> t_min < rec.t < t_max,
                best matches Some(rec) ==> v_in_bound(rec@.normal, NORM_LIM as int),
                best matches Some(rec) ==> v_dot(r@.direction, rec@.normal) <= 0,
            decreases self.objects.len() - i,
        {
            let object = self.objects[i];
            let candidate = object.hit(r, t_min, t_max);
            best = match (best, candidate) {
                (None, l) => l,
                (Some(pr), None) => Some(pr),
                (Some(pr), Some(la)) => if la.t < pr.t {
                    Some(la)
                } else {
                    Some(pr)
                },
            };
            proof {
                assert(self@.take(i as int + 1).drop_last() =~= self@.take(i as int));
                assert(self@.take(i as int + 1).last() == self@[i as int]);
            }
            i = i + 1;
        }
        proof {
            assert(self@.take(self@.len() as int) =~= self@);
        }
        best
    }
}

/// The law of scene aggregation: the scene hits exactly when some member
/// hits, the returned record is one of the member records, and its
/// parameter `t` is minimal among all member hits.
pub proof fn lemma_list_hit_minimal(objs: Seq<Sphere>, r: RayModel, t_min: int, t_max: int)
    ensures
        (list_hit_model(objs, r, t_min, t_max) is Some) <==> (exists|i: int|
            0 <= i < objs.len() && sphere_hit_model(#[trigger] objs[i], r, t_min, t_max) is Some),
        list_hit_model(objs, r, t_min, t_max) matches Some(rec) ==> (exists|i: int|
            0 <= i < objs.len() && sphere_hit_model(#[trigger] objs[i], r, t_min, t_max)
                == Option::Some(rec)),
        list_hit_model(objs, r, t_min, t_max) matches Some(rec) ==> (forall|i: int|
            0 <= i < objs.len() ==> at_most_t(
                rec,
                sphere_hit_model(#[trigger] objs[i], r, t_min, t_max),
            )),
    decreases objs.len(),
{
    if objs.len() > 0 {
        lemma_list_hit_minimal(objs.drop_last(), r, t_min, t_max);
        assert(forall|i: int|
            0 <= i < objs.len() - 1 ==> objs.drop_last()[i] == #[trigger] objs[i]);
        let prev = list_hit_model(objs.drop_last(), r, t_min, t_max);
        let last = sphere_hit_model(objs.last(), r, t_min, t_max);
        assert(objs.last() == objs[objs.len() - 1]);
        match list_hit_model(objs, r, t_min, t_max) {
            Option::Some(rec) => {
                match (prev, last) {
                    (Option::None, l) => {
                        assert(sphere_hit_model(objs[objs.len() - 1], r, t_min, t_max)
                            == Option::Some(rec));
                    },
                    (Option::Some(pr), Option::None) => {
                        assert(rec == pr);
                    },
                    (Option::Some(pr), Option::Some(la)) => {
                        if la.t < pr.t {
                            assert(sphere_hit_model(objs[objs.len() - 1], r, t_min, t_max)
                                == Option::Some(rec));
                        }
                    },
                }
            },
            Option::None => {
                assert(prev is None && last is None);
            },
        }
    }
}

/// Nearest-hit selection does not depend on insertion order: a scene of two
/// spheres yields a hit with the same parameter `t` either way around.
pub proof fn lemma_nearest_hit_order_independent(
    s1: Sphere,
    s2: Sphere,
    r: RayModel,
    t_min: int,
    t_max: int,
)
    ensures
        hit_t_of(list_hit_model(seq![s1, s2], r, t_min, t_max)) == hit_t_of(
            list_hit_model(seq![s2, s1], r, t_min, t_max),
        ),
{
    let fwd = seq![s1, s2];
    let rev = seq![s2, s1];
    reveal_with_fuel(list_hit_model, 3);
    assert(fwd.drop_last() =~= seq![s1]);
    assert(rev.drop_last() =~= seq![s2]);
    assert(seq![s1].drop_last() =~= Seq::<Sphere>::empty());
    assert(seq![s2].drop_last() =~= Seq::<Sphere>::empty());
    assert(seq![s1].last() == s1);
    assert(seq![s2].last() == s2);
    assert(fwd.last() == s2);
    assert(rev.last() == s1);
    assert(list_hit_model(seq![s1], r, t_min, t_max) == sphere_hit_model(s1, r, t_min, t_max));
    assert(list_hit_model(seq![s2], r, t_min, t_max) == sphere_hit_model(s2, r, t_min, t_max));
}

} // verus!

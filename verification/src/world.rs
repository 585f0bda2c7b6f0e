//! The world: the surfaces of a scene, the hierarchy that indexes them, and
//! the search for the closest hit.
//!
//! Two things about a ray are rounding arithmetic and so the caller's:
//! whether the ray crosses a box, and how the quadratic comes out for a
//! surface. The world walks its hierarchy with the first, solves
//! with the second for each surface that the walk collects, and keeps the
//! closest hit, testing each surface against the distance of the closest so
//! far. A scan that tests every surface in turn is there to compare with.

use vstd::prelude::*;
use crate::scalar::Scalar;
use crate::types::Ray;
use crate::aabb::Aabb;
use crate::hierarchy::{
    crossed_by, holds, is_function, is_hierarchy, lemma_walk_finds, lemma_walk_names_surfaces,
    walk, BvhNode, Hierarchy,
};
use crate::intersections::{
    inside, HitRecord, Hittable, SceneError, Solution, Surface, WorldObject,
};

verus! {

/// One surface to test against a ray: its position in the world and the
/// quadratic solved for it.
#[derive(Clone, Copy, Debug, PartialEq, Eq, Structural)]
pub struct Probe {
    pub index: usize,
    pub solution: Solution,
}

/// The surfaces of a scene and, once built, the hierarchy of boxes that
/// indexes them. Adding a surface discards the hierarchy.
#[derive(Debug)]
pub struct World {
    objects: Vec<WorldObject>,
    bvh: Option<Hierarchy>,
}

/// The boxes of the surfaces, in order.
pub open spec fn boxes_of(objects: Seq<WorldObject>) -> Seq<Aabb> {
    Seq::new(objects.len(), |i: int| objects[i].aabb)
}

/// The probes of the given surfaces, in the order given; `solutions` says
/// how the quadratic comes out for each surface.
pub open spec fn probes_of(indices: Seq<usize>, solutions: spec_fn(int) -> Solution) -> Seq<Probe> {
    Seq::new(
        indices.len(),
        |j: int| Probe { index: indices[j], solution: solutions(indices[j] as int) },
    )
}

/// Every surface of a world of `count` surfaces, in order.
pub open spec fn every_surface(count: nat) -> Seq<usize> {
    Seq::new(count, |i: int| i as usize)
}

/// The solver gives one solution for each ray and surface.
pub open spec fn is_solver<G: Fn(&Ray, usize) -> Solution>(solve: G) -> bool {
    forall|ray: Ray, i: usize, first: Solution, second: Solution|
        call_ensures(solve, (&ray, i), first) && call_ensures(solve, (&ray, i), second) ==> first
            == second
}

/// The solutions of the solver for a ray, surface by surface.
pub open spec fn solved_by<G: Fn(&Ray, usize) -> Solution>(solve: G, ray: Ray) -> spec_fn(
    int,
) -> Solution {
    |i: int|
        choose|solution: Solution| #[trigger] call_ensures(solve, (&ray, i as usize), solution)
}

/// The bound against which the next probe is tested: the distance of the
/// closest hit so far, or `t_max` while there is none.
pub open spec fn bound_after(best: Option<HitRecord>, t_max: Scalar) -> Scalar {
    match best {
        Some(hit) => hit.t,
        None => t_max,
    }
}

/// The hit that a probe reports against the bound `t_max`: none when it
/// names no surface of the world.
pub open spec fn probe_hit(
    objects: Seq<WorldObject>,
    probe: Probe,
    t_min: Scalar,
    t_max: Scalar,
) -> Option<HitRecord<'static>> {
    if probe.index < objects.len() {
        objects[probe.index as int].hit_spec(probe.solution, t_min, t_max)
    } else {
        None
    }
}

/// The closest hit among the probes, taken in order: each probe is tested
/// against the distance of the closest hit before it, so that a later probe
/// wins only by being strictly closer.
pub open spec fn closest(
    objects: Seq<WorldObject>,
    probes: Seq<Probe>,
    t_min: Scalar,
    t_max: Scalar,
) -> Option<HitRecord<'static>>
    decreases probes.len(),
{
    if probes.len() == 0 {
        None
    } else {
        let before = closest(objects, probes.drop_last(), t_min, t_max);
        match probe_hit(objects, probes.last(), t_min, bound_after(before, t_max)) {
            Some(hit) => Some(hit),
            None => before,
        }
    }
}

impl World {
    /// The surfaces, in the order in which they were added.
    pub closed spec fn surfaces(self) -> Seq<WorldObject> {
        self.objects@
    }

    /// The hierarchy, if it is built.
    pub closed spec fn hierarchy(self) -> Option<Hierarchy> {
        self.bvh
    }

    /// The hierarchy, if there is one, is one over the boxes of the
    /// surfaces as they stand. Every world that the functions of this type
    /// make is consistent.
    pub open spec fn consistent(self) -> bool {
        self.hierarchy() is Some ==> self.hierarchy()->0.shapes() == boxes_of(self.surfaces())
    }

    /// The closest hit among every surface, tested in order.
    pub open spec fn scan_spec(
        self,
        solutions: spec_fn(int) -> Solution,
        t_min: Scalar,
        t_max: Scalar,
    ) -> Option<HitRecord<'static>> {
        closest(
            self.surfaces(),
            probes_of(every_surface(self.surfaces().len()), solutions),
            t_min,
            t_max,
        )
    }

    /// The closest hit among the surfaces that a walk through the hierarchy
    /// collects, tested in the order in which the walk meets them. There is
    /// no hit while no hierarchy over the surfaces is built.
    pub open spec fn hit_spec(
        self,
        crossed: spec_fn(Aabb) -> bool,
        solutions: spec_fn(int) -> Solution,
        t_min: Scalar,
        t_max: Scalar,
    ) -> Option<HitRecord<'static>> {
        if self.hierarchy() is Some && self.hierarchy()->0.shapes().len() == self.surfaces().len() {
            closest(
                self.surfaces(),
                probes_of(walk(self.hierarchy()->0.table(), 0, crossed), solutions),
                t_min,
                t_max,
            )
        } else {
            None
        }
    }

    /// An empty world.
    pub fn new() -> (w: World)
        ensures
            w.surfaces().len() == 0,
            w.hierarchy() is None,
            w.consistent(),
    {
        World { objects: Vec::new(), bvh: None }
    }

    /// Appends a surface with its bounding box and discards the hierarchy.
    /// A surface with a defect is refused, and the world stays as it was.
    pub fn add(&mut self, obj: Surface, aabb: Aabb) -> (r: Result<(), SceneError>)
        ensures
            match r {
                Ok(_) => {
                    &&& obj.defect() is None
                    &&& final(self).surfaces() == old(self).surfaces().push(
                        WorldObject { inner: obj, aabb },
                    )
                    &&& final(self).hierarchy() is None
                },
                Err(e) => {
                    &&& obj.defect() == Some(e)
                    &&& final(self).surfaces() == old(self).surfaces()
                    &&& final(self).hierarchy() == old(self).hierarchy()
                },
            },
            old(self).consistent() ==> final(self).consistent(),
    {
        match obj.validate() {
            Ok(_) => {
                self.objects.push(WorldObject { inner: obj, aabb });
                self.bvh = None;
                Ok(())
            },
            Err(e) => Err(e),
        }
    }

    /// Installs the table as the hierarchy over the surfaces as they stand.
    /// A table that is no hierarchy over their boxes is refused, and the
    /// world stays as it was.
    pub fn build_bvh(&mut self, nodes: Vec<BvhNode>) -> (r: Result<(), SceneError>)
        ensures
            final(self).surfaces() == old(self).surfaces(),
            match r {
                Ok(_) => {
                    &&& is_hierarchy(nodes@, boxes_of(old(self).surfaces()))
                    &&& final(self).hierarchy() is Some
                    &&& final(self).hierarchy()->0.table() == nodes@
                    &&& final(self).hierarchy()->0.shapes() == boxes_of(old(self).surfaces())
                },
                Err(e) => {
                    &&& e == SceneError::Hierarchy
                    &&& !is_hierarchy(nodes@, boxes_of(old(self).surfaces()))
                    &&& final(self).hierarchy() == old(self).hierarchy()
                },
            },
            old(self).consistent() ==> final(self).consistent(),
    {
        let mut boxes: Vec<Aabb> = Vec::new();
        let mut i: usize = 0;
        while i < self.objects.len()
            invariant
                i <= self.objects@.len(),
                boxes@ == boxes_of(self.objects@).take(i as int),
            decreases self.objects@.len() - i,
        {
            boxes.push(self.objects[i].aabb);
            assert(boxes@ =~= boxes_of(self.objects@).take(i + 1));
            i += 1;
        }
        assert(boxes@ =~= boxes_of(self.objects@));
        match Hierarchy::new(nodes, boxes) {
            Some(hierarchy) => {
                self.bvh = Some(hierarchy);
                Ok(())
            },
            None => Err(SceneError::Hierarchy),
        }
    }

    pub fn objects(&self) -> (objects: &Vec<WorldObject>)
        ensures
            objects@ == self.surfaces(),
    {
        &self.objects
    }

    pub fn bvh(&self) -> (bvh: Option<&Hierarchy>)
        ensures
            bvh is Some <==> self.hierarchy() is Some,
            bvh is Some ==> *bvh->0 == self.hierarchy()->0,
    {
        self.bvh.as_ref()
    }

    /// The closest hit of a ray within `(t_min, t_max)`. `crosses` says
    /// whether a ray crosses a box, `solve` how the quadratic comes out for
    /// a ray and the surface at a position in the world. The surfaces that
    /// a walk through the hierarchy collects are solved and tested in turn,
    /// each against the distance of the closest hit so far. There is no hit
    /// while no hierarchy over the surfaces is built.
    pub fn hit<F: Fn(&Ray, &Aabb) -> bool, G: Fn(&Ray, usize) -> Solution>(
        &self,
        ray: &Ray,
        crosses: &F,
        solve: &G,
        t_min: Scalar,
        t_max: Scalar,
    ) -> (r: Option<HitRecord<'_>>)
        requires
            forall|b: Aabb| call_requires(*crosses, (ray, &b)),
            is_function(*crosses),
            forall|i: usize| i < self.surfaces().len() ==> call_requires(*solve, (ray, i)),
            is_solver(*solve),
        ensures
            r == self.hit_spec(crossed_by(*crosses, *ray), solved_by(*solve, *ray), t_min, t_max),
            self.hierarchy() is None ==> r is None,
            self.surfaces().len() == 0 ==> r is None,
    {
        proof {
            if self.surfaces().len() == 0 {
                lemma_empty_world_has_no_hit(
                    *self,
                    crossed_by(*crosses, *ray),
                    solved_by(*solve, *ray),
                    Seq::empty(),
                    t_min,
                    t_max,
                );
            }
        }
        match &self.bvh {
            None => None,
            Some(hierarchy) => {
                if hierarchy.boxes().len() != self.objects.len() {
                    return None;
                }
                let found = hierarchy.traverse(ray, crosses);
                let probes = self.solve_each(ray, &found, solve);
                self.search(&probes, t_min, t_max)
            },
        }
    }

    /// The closest hit of a ray within `(t_min, t_max)` by a scan over every
    /// surface: what [`World::hit`] finds, found the slow way.
    pub fn scan<G: Fn(&Ray, usize) -> Solution>(
        &self,
        ray: &Ray,
        solve: &G,
        t_min: Scalar,
        t_max: Scalar,
    ) -> (r: Option<HitRecord<'_>>)
        requires
            forall|i: usize| i < self.surfaces().len() ==> call_requires(*solve, (ray, i)),
            is_solver(*solve),
        ensures
            r == self.scan_spec(solved_by(*solve, *ray), t_min, t_max),
            self.surfaces().len() == 0 ==> r is None,
    {
        proof {
            if self.surfaces().len() == 0 {
                lemma_empty_world_has_no_hit(
                    *self,
                    |b: Aabb| true,
                    solved_by(*solve, *ray),
                    Seq::empty(),
                    t_min,
                    t_max,
                );
            }
        }
        let mut all: Vec<usize> = Vec::new();
        let mut i: usize = 0;
        while i < self.objects.len()
            invariant
                i <= self.objects@.len(),
                all@ == every_surface(i as nat),
            decreases self.objects@.len() - i,
        {
            all.push(i);
            assert(all@ =~= every_surface((i + 1) as nat));
            i += 1;
        }
        let probes = self.solve_each(ray, &all, solve);
        self.search(&probes, t_min, t_max)
    }

    /// The probes of the given surfaces.
    fn solve_each<G: Fn(&Ray, usize) -> Solution>(
        &self,
        ray: &Ray,
        indices: &Vec<usize>,
        solve: &G,
    ) -> (probes: Vec<Probe>)
        requires
            forall|j: int| 0 <= j < indices@.len() ==> #[trigger] indices@[j] < self.surfaces().len(),
            forall|i: usize| i < self.surfaces().len() ==> call_requires(*solve, (ray, i)),
            is_solver(*solve),
        ensures
            probes@ == probes_of(indices@, solved_by(*solve, *ray)),
    {
        let mut probes: Vec<Probe> = Vec::new();
        let mut j: usize = 0;
        while j < indices.len()
            invariant
                j <= indices@.len(),
                forall|k: int| 0 <= k < indices@.len() ==> #[trigger] indices@[k] < self.surfaces().len(),
                forall|i: usize| i < self.surfaces().len() ==> call_requires(*solve, (ray, i)),
                is_solver(*solve),
                probes@ == probes_of(indices@, solved_by(*solve, *ray)).take(j as int),
            decreases indices@.len() - j,
        {
            let index: usize = indices[j];
            let solution = solve(ray, index);
            probes.push(Probe { index, solution });
            proof {
                let wanted = probes_of(indices@, solved_by(*solve, *ray));
                assert(wanted[j as int].solution == solution);
                assert(probes@ =~= wanted.take(j + 1));
            }
            j += 1;
        }
        assert(probes@ =~= probes_of(indices@, solved_by(*solve, *ray)));
        probes
    }

    /// The closest hit among the probes, each tested against the distance
    /// of the closest hit before it. A probe that names no surface of the
    /// world is passed over.
    ///
    /// There is a hit exactly when some probe has one inside the bounds.
    /// Where the roots of every probe are in ascending order, the hit is
    /// that of one of the probes, and no probe has a hit closer than it.
    pub fn search(&self, probes: &Vec<Probe>, t_min: Scalar, t_max: Scalar) -> (r: Option<
        HitRecord<'_>,
    >)
        ensures
            r == closest(self.surfaces(), probes@, t_min, t_max),
            r is None <==> forall|i: int|
                0 <= i < probes@.len() ==> probe_hit(
                    self.surfaces(),
                    #[trigger] probes@[i],
                    t_min,
                    t_max,
                ) is None,
            r is Some && all_ascending(probes@) ==> {
                &&& inside(r->0.t, t_min, t_max)
                &&& exists|i: int|
                    0 <= i < probes@.len() && probe_hit(
                        self.surfaces(),
                        #[trigger] probes@[i],
                        t_min,
                        t_max,
                    ) == r
                &&& forall|i: int|
                    0 <= i < probes@.len() ==> probe_hit(
                        self.surfaces(),
                        #[trigger] probes@[i],
                        t_min,
                        r->0.t,
                    ) is None
            },
    {
        proof {
            lemma_closest_of_none(self.objects@, probes@, t_min, t_max);
            if all_ascending(probes@) && closest(self.objects@, probes@, t_min, t_max) is Some {
                lemma_closest_is_nearest(self.objects@, probes@, t_min, t_max);
            }
        }
        let mut temp_hit: Option<HitRecord<'_>> = None;
        let mut closest_t = t_max;
        let mut i: usize = 0;
        while i < probes.len()
            invariant
                i <= probes@.len(),
                temp_hit == closest(self.objects@, probes@.take(i as int), t_min, t_max),
                closest_t == bound_after(temp_hit, t_max),
            decreases probes@.len() - i,
        {
            let probe = &probes[i];
            proof {
                assert(probes@.take(i + 1).drop_last() == probes@.take(i as int));
                assert(probes@.take(i + 1).last() == probes@[i as int]);
            }
            if probe.index < self.objects.len() {
                if let Some(hit) = self.objects[probe.index].hit(
                    &probe.solution,
                    t_min,
                    closest_t,
                ) {
                    closest_t = hit.t;
                    temp_hit = Some(hit);
                }
            }
            i += 1;
        }
        assert(probes@.take(probes@.len() as int) == probes@);
        temp_hit
    }
}

/// Every probe's quadratic has its roots in ascending order.
pub open spec fn all_ascending(probes: Seq<Probe>) -> bool {
    forall|i: int| 0 <= i < probes.len() ==> (#[trigger] probes[i]).solution.ascending()
}

/// In a world without surfaces nothing is hit, whatever the ray and the
/// bounds: not by the search through the hierarchy, not by the scan, and
/// not among any probes.
pub proof fn lemma_empty_world_has_no_hit(
    world: World,
    crossed: spec_fn(Aabb) -> bool,
    solutions: spec_fn(int) -> Solution,
    probes: Seq<Probe>,
    t_min: Scalar,
    t_max: Scalar,
)
    requires
        world.surfaces().len() == 0,
    ensures
        world.hit_spec(crossed, solutions, t_min, t_max) is None,
        world.scan_spec(solutions, t_min, t_max) is None,
        closest(world.surfaces(), probes, t_min, t_max) is None,
{
    lemma_closest_of_none(world.surfaces(), probes, t_min, t_max);
    lemma_closest_of_none(
        world.surfaces(),
        probes_of(every_surface(world.surfaces().len()), solutions),
        t_min,
        t_max,
    );
    if world.hierarchy() is Some {
        lemma_closest_of_none(
            world.surfaces(),
            probes_of(walk(world.hierarchy()->0.table(), 0, crossed), solutions),
            t_min,
            t_max,
        );
    }
}

/// The search finds nothing exactly when no probe has a hit inside the
/// bounds.
pub proof fn lemma_closest_of_none(
    objects: Seq<WorldObject>,
    probes: Seq<Probe>,
    t_min: Scalar,
    t_max: Scalar,
)
    ensures
        closest(objects, probes, t_min, t_max) is None <==> forall|i: int|
            0 <= i < probes.len() ==> probe_hit(objects, #[trigger] probes[i], t_min, t_max)
                is None,
    decreases probes.len(),
{
    if probes.len() > 0 {
        let front = probes.drop_last();
        lemma_closest_of_none(objects, front, t_min, t_max);
        let before = closest(objects, front, t_min, t_max);
        assert forall|i: int| 0 <= i < front.len() implies front[i] == probes[i] by {}
        if before is None {
            if probe_hit(objects, probes.last(), t_min, t_max) is None {
                assert forall|i: int| 0 <= i < probes.len() implies probe_hit(
                    objects,
                    #[trigger] probes[i],
                    t_min,
                    t_max,
                ) is None by {
                    if i < front.len() {
                        assert(front[i] == probes[i]);
                    }
                }
            } else {
                assert(probes[probes.len() - 1] == probes.last());
            }
        } else {
            let i = choose|i: int|
                0 <= i < front.len() && !(probe_hit(objects, #[trigger] front[i], t_min, t_max)
                    is None);
            assert(front[i] == probes[i]);
        }
    }
}

/// What the search finds is the closest hit: it is the hit of one of the
/// probes inside the bounds, and no probe has a hit closer than it.
pub proof fn lemma_closest_is_nearest(
    objects: Seq<WorldObject>,
    probes: Seq<Probe>,
    t_min: Scalar,
    t_max: Scalar,
)
    requires
        all_ascending(probes),
        closest(objects, probes, t_min, t_max) is Some,
    ensures
        inside(closest(objects, probes, t_min, t_max)->0.t, t_min, t_max),
        exists|i: int|
            0 <= i < probes.len() && probe_hit(objects, #[trigger] probes[i], t_min, t_max)
                == closest(objects, probes, t_min, t_max),
        forall|i: int|
            0 <= i < probes.len() ==> probe_hit(
                objects,
                #[trigger] probes[i],
                t_min,
                closest(objects, probes, t_min, t_max)->0.t,
            ) is None,
    decreases probes.len(),
{
    let front = probes.drop_last();
    let last = probes.last();
    let before = closest(objects, front, t_min, t_max);
    let bound = bound_after(before, t_max);
    let found = closest(objects, probes, t_min, t_max)->0;
    assert(probes[probes.len() - 1] == last);
    assert(last.solution.ascending());
    assert forall|i: int| 0 <= i < front.len() implies front[i] == probes[i] by {}
    assert(all_ascending(front)) by {
        assert forall|i: int| 0 <= i < front.len() implies (#[trigger] front[i]).solution.ascending() by {
            assert(front[i] == probes[i]);
        }
    }
    if before is Some {
        lemma_closest_is_nearest(objects, front, t_min, t_max);
    } else {
        lemma_closest_of_none(objects, front, t_min, t_max);
    }
    if probe_hit(objects, last, t_min, bound) is Some {
        // the last probe wins: it is strictly inside the bound that held
        assert(probe_hit(objects, last, t_min, t_max) == Some(found));
        assert forall|i: int| 0 <= i < probes.len() implies probe_hit(
            objects,
            #[trigger] probes[i],
            t_min,
            found.t,
        ) is None by {
            if i < front.len() {
                assert(front[i] == probes[i]);
                assert(probe_hit(objects, front[i], t_min, bound) is None);
            }
        }
    } else {
        let i = choose|i: int|
            0 <= i < front.len() && probe_hit(objects, #[trigger] front[i], t_min, t_max)
                == before;
        assert(front[i] == probes[i]);
        assert forall|j: int| 0 <= j < probes.len() implies probe_hit(
            objects,
            #[trigger] probes[j],
            t_min,
            found.t,
        ) is None by {
            if j < front.len() {
                assert(front[j] == probes[j]);
            }
        }
    }
}

/// Testing fewer surfaces finds the same hit, as long as no surface that the
/// ray hits inside the bounds is left out. `all` stands for a scan over
/// every surface, `kept` for the surfaces that a traversal of the hierarchy
/// yields, in whatever order.
///
/// The two searches agree on whether there is a hit and on its distance.
/// They agree on the whole record when only one record is to be had at that
/// distance; where two surfaces are hit at exactly the same distance, each
/// search reports the one it tested first.
pub proof fn lemma_pruning_keeps_closest(
    objects: Seq<WorldObject>,
    all: Seq<Probe>,
    kept: Seq<Probe>,
    t_min: Scalar,
    t_max: Scalar,
)
    requires
        all_ascending(all),
        forall|i: int| 0 <= i < kept.len() ==> all.contains(#[trigger] kept[i]),
        forall|j: int|
            0 <= j < all.len() && probe_hit(objects, #[trigger] all[j], t_min, t_max) is Some
                ==> kept.contains(all[j]),
    ensures
        closest(objects, kept, t_min, t_max) is Some <==> closest(objects, all, t_min, t_max)
            is Some,
        closest(objects, all, t_min, t_max) is Some ==> closest(
            objects,
            kept,
            t_min,
            t_max,
        )->0.t.same_spec(closest(objects, all, t_min, t_max)->0.t),
        (forall|i: int, j: int|
            0 <= i < all.len() && 0 <= j < all.len() && probe_hit(
                objects,
                #[trigger] all[i],
                t_min,
                t_max,
            ) is Some && probe_hit(objects, #[trigger] all[j], t_min, t_max) is Some && probe_hit(
                objects,
                all[i],
                t_min,
                t_max,
            )->0.t.same_spec(probe_hit(objects, all[j], t_min, t_max)->0.t) ==> probe_hit(
                objects,
                all[i],
                t_min,
                t_max,
            ) == probe_hit(objects, all[j], t_min, t_max)) ==> closest(objects, kept, t_min, t_max)
            == closest(objects, all, t_min, t_max),
{
    let from_all = closest(objects, all, t_min, t_max);
    let from_kept = closest(objects, kept, t_min, t_max);
    lemma_closest_of_none(objects, all, t_min, t_max);
    lemma_closest_of_none(objects, kept, t_min, t_max);
    assert(all_ascending(kept)) by {
        assert forall|i: int| 0 <= i < kept.len() implies (#[trigger] kept[i]).solution.ascending() by {
            assert(all.contains(kept[i]));
            let j = choose|j: int| 0 <= j < all.len() && all[j] == kept[i];
            assert(all[j].solution.ascending());
        }
    }
    if from_kept is Some {
        lemma_closest_is_nearest(objects, kept, t_min, t_max);
        let k = choose|k: int|
            0 <= k < kept.len() && probe_hit(objects, #[trigger] kept[k], t_min, t_max)
                == from_kept;
        assert(all.contains(kept[k]));
        let j = choose|j: int| 0 <= j < all.len() && all[j] == kept[k];
        assert(probe_hit(objects, all[j], t_min, t_max) is Some);
        assert(from_all is Some);
    }
    if from_all is Some {
        lemma_closest_is_nearest(objects, all, t_min, t_max);
        let a = choose|a: int|
            0 <= a < all.len() && probe_hit(objects, #[trigger] all[a], t_min, t_max) == from_all;
        assert(kept.contains(all[a]));
        let ka = choose|ka: int| 0 <= ka < kept.len() && kept[ka] == all[a];
        assert(probe_hit(objects, kept[ka], t_min, t_max) is Some);
        assert(from_kept is Some);
        let k = choose|k: int|
            0 <= k < kept.len() && probe_hit(objects, #[trigger] kept[k], t_min, t_max)
                == from_kept;
        assert(all.contains(kept[k]));
        let j = choose|j: int| 0 <= j < all.len() && all[j] == kept[k];
        // neither search can have a hit closer than the other's
        assert(probe_hit(objects, all[j], t_min, from_all->0.t) is None);
        assert(probe_hit(objects, kept[ka], t_min, from_kept->0.t) is None);
        assert(from_kept->0.t.same_spec(from_all->0.t));
    }
}

/// A search through the hierarchy finds what a scan over every surface
/// finds.
///
/// The hierarchy must be one over the boxes of the world's surfaces, and the
/// box test must err on the safe side only: it says that the ray crosses a
/// box whenever the box lies around a surface that the ray hits inside the
/// bounds. Then the walk leaves out no surface that is hit, and the search
/// over what it collects agrees with the scan over all surfaces on whether
/// there is a hit and on its distance. The two agree on the whole record
/// when only one record is to be had at that distance.
pub proof fn lemma_hierarchy_keeps_closest(
    objects: Seq<WorldObject>,
    nodes: Seq<BvhNode>,
    boxes: Seq<Aabb>,
    crossed: spec_fn(Aabb) -> bool,
    solutions: spec_fn(int) -> Solution,
    t_min: Scalar,
    t_max: Scalar,
)
    requires
        is_hierarchy(nodes, boxes),
        objects.len() == boxes.len(),
        objects.len() <= usize::MAX,
        forall|i: int| 0 <= i < objects.len() ==> (#[trigger] objects[i]).aabb == boxes[i],
        forall|i: int| 0 <= i < objects.len() ==> (#[trigger] solutions(i)).ascending(),
        forall|i: int, b: Aabb|
            0 <= i < objects.len() && #[trigger] b.encloses(boxes[i]) && objects[i].hit_spec(
                solutions(i),
                t_min,
                t_max,
            ) is Some ==> crossed(b),
    ensures
        ({
            let all = probes_of(every_surface(objects.len()), solutions);
            let kept = probes_of(walk(nodes, 0, crossed), solutions);
            &&& closest(objects, kept, t_min, t_max) is Some <==> closest(
                objects,
                all,
                t_min,
                t_max,
            ) is Some
            &&& closest(objects, all, t_min, t_max) is Some ==> closest(
                objects,
                kept,
                t_min,
                t_max,
            )->0.t.same_spec(closest(objects, all, t_min, t_max)->0.t)
            &&& (forall|i: int, j: int|
                0 <= i < all.len() && 0 <= j < all.len() && probe_hit(
                    objects,
                    #[trigger] all[i],
                    t_min,
                    t_max,
                ) is Some && probe_hit(objects, #[trigger] all[j], t_min, t_max) is Some
                    && probe_hit(objects, all[i], t_min, t_max)->0.t.same_spec(
                    probe_hit(objects, all[j], t_min, t_max)->0.t,
                ) ==> probe_hit(objects, all[i], t_min, t_max) == probe_hit(
                    objects,
                    all[j],
                    t_min,
                    t_max,
                )) ==> closest(objects, kept, t_min, t_max) == closest(objects, all, t_min, t_max)
        }),
{
    let collected = walk(nodes, 0, crossed);
    let all = probes_of(every_surface(objects.len()), solutions);
    let kept = probes_of(collected, solutions);
    lemma_walk_names_surfaces(nodes, boxes, 0, crossed);
    assert forall|k: int| 0 <= k < kept.len() implies all.contains(#[trigger] kept[k]) by {
        let i = collected[k] as int;
        assert(collected[k] < boxes.len());
        assert(all[i] == kept[k]);
    }
    assert forall|j: int|
        0 <= j < all.len() && probe_hit(objects, #[trigger] all[j], t_min, t_max)
            is Some implies kept.contains(all[j]) by {
        assert(all[j].index == j);
        assert(objects[j].hit_spec(solutions(j), t_min, t_max) is Some);
        assert forall|b: Aabb| b.encloses(boxes[j]) implies #[trigger] crossed(b) by {}
        assert(holds(nodes, 0, j));
        lemma_walk_finds(nodes, boxes, 0, crossed, j);
        let p = choose|p: int| 0 <= p < collected.len() && collected[p] == j as usize;
        assert(kept[p] == all[j]);
    }
    assert(all_ascending(all)) by {
        assert forall|i: int| 0 <= i < all.len() implies (#[trigger] all[i]).solution.ascending() by {
            assert(solutions(i).ascending());
        }
    }
    lemma_pruning_keeps_closest(objects, all, kept, t_min, t_max);
}

/// In a world with a hierarchy over its surfaces, the search through the
/// hierarchy finds what the scan finds, for every ray whose box test errs on
/// the safe side only: same answer to whether there is a hit, same
/// distance, and the same record when only one record is to be had at that
/// distance.
pub proof fn lemma_hit_is_scan(
    world: World,
    crossed: spec_fn(Aabb) -> bool,
    solutions: spec_fn(int) -> Solution,
    t_min: Scalar,
    t_max: Scalar,
)
    requires
        world.consistent(),
        world.hierarchy() is Some,
        is_hierarchy(world.hierarchy()->0.table(), world.hierarchy()->0.shapes()),
        world.surfaces().len() <= usize::MAX,
        forall|i: int| 0 <= i < world.surfaces().len() ==> (#[trigger] solutions(i)).ascending(),
        forall|i: int, b: Aabb|
            0 <= i < world.surfaces().len() && #[trigger] b.encloses(world.surfaces()[i].aabb)
                && world.surfaces()[i].hit_spec(solutions(i), t_min, t_max) is Some ==> crossed(b),
    ensures
        world.hit_spec(crossed, solutions, t_min, t_max) is Some <==> world.scan_spec(
            solutions,
            t_min,
            t_max,
        ) is Some,
        world.scan_spec(solutions, t_min, t_max) is Some ==> world.hit_spec(
            crossed,
            solutions,
            t_min,
            t_max,
        )->0.t.same_spec(world.scan_spec(solutions, t_min, t_max)->0.t),
        (forall|i: int, j: int|
            0 <= i < world.surfaces().len() && 0 <= j < world.surfaces().len() && (
            #[trigger] world.surfaces()[i]).hit_spec(solutions(i), t_min, t_max) is Some && (
            #[trigger] world.surfaces()[j]).hit_spec(solutions(j), t_min, t_max) is Some
                && world.surfaces()[i].hit_spec(solutions(i), t_min, t_max)->0.t.same_spec(
                world.surfaces()[j].hit_spec(solutions(j), t_min, t_max)->0.t,
            ) ==> world.surfaces()[i].hit_spec(solutions(i), t_min, t_max)
                == world.surfaces()[j].hit_spec(solutions(j), t_min, t_max)) ==> world.hit_spec(
            crossed,
            solutions,
            t_min,
            t_max,
        ) == world.scan_spec(solutions, t_min, t_max),
{
    let objects = world.surfaces();
    let boxes = boxes_of(objects);
    let all = probes_of(every_surface(objects.len()), solutions);
    assert forall|i: int, b: Aabb|
        0 <= i < objects.len() && #[trigger] b.encloses(boxes[i]) && objects[i].hit_spec(
            solutions(i),
            t_min,
            t_max,
        ) is Some implies crossed(b) by {
        assert(b.encloses(objects[i].aabb));
    }
    lemma_hierarchy_keeps_closest(
        objects,
        world.hierarchy()->0.table(),
        boxes,
        crossed,
        solutions,
        t_min,
        t_max,
    );
    if forall|i: int, j: int|
        0 <= i < objects.len() && 0 <= j < objects.len() && (#[trigger] objects[i]).hit_spec(
            solutions(i),
            t_min,
            t_max,
        ) is Some && (#[trigger] objects[j]).hit_spec(solutions(j), t_min, t_max) is Some
            && objects[i].hit_spec(solutions(i), t_min, t_max)->0.t.same_spec(
            objects[j].hit_spec(solutions(j), t_min, t_max)->0.t,
        ) ==> objects[i].hit_spec(solutions(i), t_min, t_max) == objects[j].hit_spec(
            solutions(j),
            t_min,
            t_max,
        ) {
        assert forall|i: int, j: int|
            0 <= i < all.len() && 0 <= j < all.len() && probe_hit(
                objects,
                #[trigger] all[i],
                t_min,
                t_max,
            ) is Some && probe_hit(objects, #[trigger] all[j], t_min, t_max) is Some && probe_hit(
                objects,
                all[i],
                t_min,
                t_max,
            )->0.t.same_spec(probe_hit(objects, all[j], t_min, t_max)->0.t) implies probe_hit(
            objects,
            all[i],
            t_min,
            t_max,
        ) == probe_hit(objects, all[j], t_min, t_max) by {
            assert(all[i].index == i && all[j].index == j);
            assert(objects[i].hit_spec(solutions(i), t_min, t_max) is Some);
            assert(objects[j].hit_spec(solutions(j), t_min, t_max) is Some);
        }
    }
}

} // verus!

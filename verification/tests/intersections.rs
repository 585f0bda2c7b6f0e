use pathcore::aabb::Aabb;
use pathcore::hierarchy::{BvhNode, Hierarchy};
use pathcore::intersections::{
    Crossing, HitRecord, Hittable, MovingSphere, SceneError, Solution, Sphere, Surface,
};
use pathcore::material::{Dielectric, Lambertian, Material, Metal};
use pathcore::scalar::Scalar;
use pathcore::types::{Ray, Vec3};
use pathcore::world::{Probe, World};

fn s(x: f32) -> Scalar {
    Scalar::from_bits(x.to_bits())
}

fn f(x: Scalar) -> f32 {
    f32::from_bits(x.to_bits())
}

fn v(p: [f32; 3]) -> Vec3 {
    Vec3::new(s(p[0]), s(p[1]), s(p[2]))
}

fn dot(a: [f32; 3], b: [f32; 3]) -> f32 {
    a[0] * b[0] + a[1] * b[1] + a[2] * b[2]
}

fn sub(a: [f32; 3], b: [f32; 3]) -> [f32; 3] {
    [a[0] - b[0], a[1] - b[1], a[2] - b[2]]
}

fn crossing(center: [f32; 3], radius: f32, origin: [f32; 3], dir: [f32; 3], t: f32) -> Crossing {
    let p = [origin[0] + t * dir[0], origin[1] + t * dir[1], origin[2] + t * dir[2]];
    let n = sub(p, center);
    let n = [n[0] / radius, n[1] / radius, n[2] / radius];
    let pi = std::f32::consts::PI;
    let phi = n[2].atan2(n[0]);
    let theta = n[1].asin();
    Crossing {
        t: s(t),
        point: v(p),
        normal: v(n),
        u: s(1.0 - (phi + pi) / (2.0 * pi)),
        v: s((theta + pi / 2.0) / pi),
        facing: s(dot(dir, n)),
    }
}

/// The quadratic of a ray and a sphere, solved in rounding arithmetic.
fn solve(center: [f32; 3], radius: f32, origin: [f32; 3], dir: [f32; 3]) -> Solution {
    let oc = sub(origin, center);
    let a = dot(dir, dir);
    let half_b = dot(oc, dir);
    let c = dot(oc, oc) - radius * radius;
    let d = half_b * half_b - a * c;
    let root = d.sqrt();
    Solution {
        discriminant: s(d),
        near: crossing(center, radius, origin, dir, (-half_b - root) / a),
        far: crossing(center, radius, origin, dir, (-half_b + root) / a),
    }
}

fn grey() -> Material {
    Material::Lambertian(Lambertian::from_color(v([0.5, 0.5, 0.5])))
}

fn sphere(center: [f32; 3], radius: f32, material: Material) -> Surface {
    Surface::Sphere(Sphere { center: v(center), radius: s(radius), material })
}

fn cube(center: [f32; 3], radius: f32) -> Aabb {
    let r = radius.abs();
    Aabb::with_bounds(
        v([center[0] - r, center[1] - r, center[2] - r]),
        v([center[0] + r, center[1] + r, center[2] + r]),
    )
    .unwrap()
}

/// Builds the hierarchy over the surfaces as they stand.
fn index(world: &mut World) {
    let mut shapes: Vec<Boxed> = world
        .objects()
        .iter()
        .enumerate()
        .map(|(node_index, object)| Boxed { aabb: unboxed(&object.aabb()), node_index })
        .collect();
    let nodes = if shapes.is_empty() { vec![] } else { table(&bvh::bvh::BVH::build(&mut shapes)) };
    world.build_bvh(nodes).unwrap();
}

fn same_hit(a: &Option<HitRecord>, b: &Option<HitRecord>) -> bool {
    match (a, b) {
        (None, None) => true,
        (Some(a), Some(b)) => {
            a.point == b.point
                && a.normal == b.normal
                && a.t == b.t
                && a.u == b.u
                && a.v == b.v
                && a.front_face == b.front_face
                && std::ptr::eq(a.material, b.material)
        }
        _ => false,
    }
}

#[test]
fn unit_sphere_from_outside() {
    let unit = Sphere { center: v([0.0, 0.0, 0.0]), radius: s(1.0), material: grey() };
    let solution = solve([0.0, 0.0, 0.0], 1.0, [0.0, 0.0, 3.0], [0.0, 0.0, -1.0]);
    let hit = unit.hit(&solution, s(0.001), s(f32::INFINITY)).unwrap();
    assert_eq!(f(hit.t), 2.0);
    assert_eq!(hit.point, v([0.0, 0.0, 1.0]));
    assert_eq!(hit.normal, v([0.0, 0.0, 1.0]));
    assert!(hit.front_face);
    assert!(std::ptr::eq(hit.material, &unit.material));
}

#[test]
fn unit_sphere_from_inside() {
    let unit = Sphere { center: v([0.0, 0.0, 0.0]), radius: s(1.0), material: grey() };
    let solution = solve([0.0, 0.0, 0.0], 1.0, [0.0, 0.0, 0.0], [0.0, 0.0, 1.0]);
    let hit = unit.hit(&solution, s(0.001), s(f32::INFINITY)).unwrap();
    assert_eq!(f(hit.t), 1.0);
    assert!(!hit.front_face);
    assert_eq!(f(hit.normal.x), 0.0);
    assert_eq!(f(hit.normal.y), 0.0);
    assert_eq!(f(hit.normal.z), -1.0);
}

#[test]
fn a_ray_that_passes_by_hits_nothing() {
    let unit = Sphere { center: v([0.0, 0.0, 0.0]), radius: s(1.0), material: grey() };
    let solution = solve([0.0, 0.0, 0.0], 1.0, [0.0, 2.0, 3.0], [0.0, 0.0, -1.0]);
    assert!(f(solution.discriminant) < 0.0);
    assert!(unit.hit(&solution, s(0.001), s(f32::INFINITY)).is_none());
}

#[test]
fn a_grazing_ray_hits_nothing() {
    // zero discriminant counts as no hit
    let unit = Sphere { center: v([0.0, 0.0, 0.0]), radius: s(1.0), material: grey() };
    let solution = solve([0.0, 0.0, 0.0], 1.0, [0.0, 1.0, 3.0], [0.0, 0.0, -1.0]);
    assert_eq!(f(solution.discriminant), 0.0);
    assert!(unit.hit(&solution, s(0.001), s(f32::INFINITY)).is_none());
}

#[test]
fn roots_count_only_strictly_inside_the_bounds() {
    let solution = solve([0.0, 0.0, 0.0], 1.0, [0.0, 0.0, 3.0], [0.0, 0.0, -1.0]);
    // roots at 2 and 4
    assert_eq!(solution.first_inside(s(0.0), s(10.0)).unwrap().t, s(2.0));
    assert_eq!(solution.first_inside(s(2.0), s(10.0)).unwrap().t, s(4.0));
    assert_eq!(solution.first_inside(s(1.0), s(2.0)), None);
    assert_eq!(solution.first_inside(s(2.0), s(4.0)), None);
    assert_eq!(solution.first_inside(s(4.0), s(10.0)), None);
    assert_eq!(solution.first_inside(s(0.0), s(f32::NAN)), None);
    assert_eq!(solution.first_inside(s(f32::NAN), s(10.0)), None);
}

#[test]
fn face_normal_turns_against_the_ray() {
    let material = grey();
    let mut hit = HitRecord {
        point: v([0.0, 0.0, 1.0]),
        u: s(0.5),
        v: s(0.5),
        normal: v([0.0, 0.0, 1.0]),
        t: s(2.0),
        front_face: false,
        material: &material,
    };
    hit.set_face_normal(s(-1.0));
    assert!(hit.front_face);
    assert_eq!(hit.normal, v([0.0, 0.0, 1.0]));
    hit.set_face_normal(s(1.0));
    assert!(!hit.front_face);
    assert_eq!(hit.normal, v([-0.0, -0.0, -1.0]));
    hit.set_face_normal(s(0.0));
    assert!(!hit.front_face);
    assert_eq!(hit.normal, v([0.0, 0.0, 1.0]));
    assert_eq!(hit.t, s(2.0));
}

#[test]
fn moving_sphere_hits_like_a_sphere_where_it_is() {
    let moving = MovingSphere {
        center1: v([0.0, 0.0, 0.0]),
        time1: s(0.0),
        center2: v([0.0, 2.0, 0.0]),
        time2: s(1.0),
        radius: s(1.0),
        material: grey(),
    };
    // at time one half the centre is at (0, 1, 0)
    let solution = solve([0.0, 1.0, 0.0], 1.0, [0.0, 1.0, 3.0], [0.0, 0.0, -1.0]);
    let hit = moving.hit(&solution, s(0.001), s(f32::INFINITY)).unwrap();
    assert_eq!(f(hit.t), 2.0);
    assert_eq!(hit.point, v([0.0, 1.0, 1.0]));
    assert!(hit.front_face);
    let joined = moving.aabb(&cube([0.0, 0.0, 0.0], 1.0), &cube([0.0, 2.0, 0.0], 1.0));
    assert_eq!(joined.min(), v([-1.0, -1.0, -1.0]));
    assert_eq!(joined.max(), v([1.0, 3.0, 1.0]));
}

#[test]
fn boxes_need_ordered_corners() {
    assert!(Aabb::with_bounds(v([0.0, 0.0, 0.0]), v([1.0, 1.0, 1.0])).is_some());
    assert!(Aabb::with_bounds(v([0.0, 0.0, 0.0]), v([0.0, 0.0, 0.0])).is_some());
    assert!(Aabb::with_bounds(v([0.0, 2.0, 0.0]), v([1.0, 1.0, 1.0])).is_none());
    assert!(Aabb::with_bounds(v([0.0, f32::NAN, 0.0]), v([1.0, 1.0, 1.0])).is_none());
    let a = cube([0.0, 0.0, 0.0], 1.0);
    let b = cube([5.0, -5.0, 0.5], 2.0);
    let j = a.join(&b);
    assert_eq!(j.min(), v([-1.0, -7.0, -1.5]));
    assert_eq!(j.max(), v([7.0, 1.0, 2.5]));
    let k = b.join(&a);
    assert_eq!(k.min(), j.min());
    assert_eq!(k.max(), j.max());
}

#[test]
fn malformed_surfaces_are_refused() {
    let mut world = World::new();
    let unit = cube([0.0, 0.0, 0.0], 1.0);
    assert_eq!(world.add(sphere([0.0, 0.0, 0.0], 0.0, grey()), unit), Err(SceneError::Radius));
    assert_eq!(world.add(sphere([0.0, 0.0, 0.0], -1.0, grey()), unit), Err(SceneError::Radius));
    assert_eq!(world.add(sphere([0.0, 0.0, 0.0], f32::NAN, grey()), unit), Err(SceneError::Radius));
    let moving = |t1: f32, t2: f32, r: f32| {
        Surface::MovingSphere(MovingSphere {
            center1: v([0.0, 0.0, 0.0]),
            time1: s(t1),
            center2: v([0.0, 1.0, 0.0]),
            time2: s(t2),
            radius: s(r),
            material: grey(),
        })
    };
    assert_eq!(world.add(moving(0.5, 0.5, 1.0), unit), Err(SceneError::Keyframes));
    assert_eq!(world.add(moving(0.0, -0.0, 1.0), unit), Err(SceneError::Keyframes));
    assert_eq!(world.add(moving(0.0, f32::NAN, 1.0), unit), Err(SceneError::Keyframes));
    assert_eq!(world.add(moving(0.5, 0.5, 0.0), unit), Err(SceneError::Radius));
    assert!(world.objects().is_empty());
    assert_eq!(world.add(moving(0.0, 1.0, 0.2), unit), Ok(()));
    assert_eq!(world.add(moving(1.0, 0.0, 0.2), unit), Ok(()));
    assert_eq!(world.add(sphere([0.0, 0.0, 0.0], 1.0, grey()), unit), Ok(()));
    assert_eq!(world.objects().len(), 3);
}

#[test]
fn adding_a_surface_discards_the_hierarchy() {
    let mut world = World::new();
    assert!(world.bvh().is_none());
    world.add(sphere([0.0, 0.0, 0.0], 1.0, grey()), cube([0.0, 0.0, 0.0], 1.0)).unwrap();
    assert_eq!(world.build_bvh(vec![BvhNode::Leaf { shape_index: 0 }]), Ok(()));
    assert_eq!(world.bvh().unwrap().nodes().len(), 1);
    // a refused surface changes nothing
    assert!(world.add(sphere([0.0, 0.0, 0.0], -1.0, grey()), cube([0.0, 0.0, 0.0], 1.0)).is_err());
    assert!(world.bvh().is_some());
    world.add(sphere([3.0, 0.0, 0.0], 1.0, grey()), cube([3.0, 0.0, 0.0], 1.0)).unwrap();
    assert!(world.bvh().is_none());
    assert_eq!(world.objects().len(), 2);
}

#[test]
fn a_table_over_other_surfaces_is_refused() {
    let mut world = World::new();
    world.add(sphere([0.0, 0.0, 0.0], 1.0, grey()), cube([0.0, 0.0, 0.0], 1.0)).unwrap();
    world.add(sphere([3.0, 0.0, 0.0], 1.0, grey()), cube([3.0, 0.0, 0.0], 1.0)).unwrap();
    assert_eq!(world.build_bvh(vec![BvhNode::Leaf { shape_index: 0 }]), Err(SceneError::Hierarchy));
    assert_eq!(world.build_bvh(vec![]), Err(SceneError::Hierarchy));
    assert!(world.bvh().is_none());
    index(&mut world);
    assert!(world.bvh().is_some());
    // a refused table leaves the hierarchy that is there
    assert_eq!(world.build_bvh(vec![BvhNode::Leaf { shape_index: 5 }]), Err(SceneError::Hierarchy));
    assert_eq!(world.bvh().unwrap().nodes().len(), 3);
}

#[test]
fn empty_world_has_no_hit() {
    let mut world = World::new();
    index(&mut world);
    let mut state: u32 = 7;
    for _ in 0..1000 {
        let mut next = || {
            state = state.wrapping_mul(1664525).wrapping_add(1013904223);
            (state >> 8) as f32 / (1u32 << 24) as f32 * 20.0 - 10.0
        };
        let origin = [next(), next(), next()];
        let dir = [next(), next(), next()];
        // no surface can be named, so any probe is passed over
        let unit = |_: &Ray, _: usize| solve([0.0, 0.0, 0.0], 1.0, origin, dir);
        let ray = Ray::new(v(origin), v(dir), s(0.0));
        let probes = vec![Probe { index: 0, solution: unit(&ray, 0) }];
        assert!(world.search(&probes, s(0.001), s(f32::INFINITY)).is_none());
        assert!(world.search(&vec![], s(0.001), s(f32::INFINITY)).is_none());
        assert!(world.hit(&ray, &|_: &Ray, _: &Aabb| true, &unit, s(0.001), s(f32::INFINITY)).is_none());
        assert!(world.scan(&ray, &unit, s(0.001), s(f32::INFINITY)).is_none());
    }
}

#[test]
fn nothing_is_hit_before_the_hierarchy_is_built() {
    let mut world = World::new();
    world.add(sphere([0.0, 0.0, 0.0], 1.0, grey()), cube([0.0, 0.0, 0.0], 1.0)).unwrap();
    let ray = Ray::new(v([0.0, 0.0, 3.0]), v([0.0, 0.0, -1.0]), s(0.0));
    let unit = |ray: &Ray, _: usize| {
        let (o, d) = (ray.origin(), ray.direction());
        solve([0.0, 0.0, 0.0], 1.0, [f(o.x), f(o.y), f(o.z)], [f(d.x), f(d.y), f(d.z)])
    };
    let always = |_: &Ray, _: &Aabb| true;
    assert!(world.hit(&ray, &always, &unit, s(0.001), s(f32::INFINITY)).is_none());
    // the scan needs no hierarchy
    assert_eq!(world.scan(&ray, &unit, s(0.001), s(f32::INFINITY)).unwrap().t, s(2.0));
    index(&mut world);
    assert_eq!(world.hit(&ray, &always, &unit, s(0.001), s(f32::INFINITY)).unwrap().t, s(2.0));
}

#[test]
fn the_closest_surface_wins() {
    let mut world = World::new();
    let centers = [[0.0, 0.0, -5.0], [0.0, 0.0, 0.0], [0.0, 0.0, -10.0]];
    world.add(sphere(centers[0], 1.0, grey()), cube(centers[0], 1.0)).unwrap();
    world.add(sphere(centers[1], 1.0, Material::Metal(Metal::new(v([0.8, 0.8, 0.8]), s(0.0)))), cube(centers[1], 1.0)).unwrap();
    world.add(sphere(centers[2], 1.0, Material::Dielectric(Dielectric(s(1.5)))), cube(centers[2], 1.0)).unwrap();
    index(&mut world);
    let origin = [0.0, 0.0, 3.0];
    let dir = [0.0, 0.0, -1.0];
    let probe = |i: usize| Probe { index: i, solution: solve(centers[i], 1.0, origin, dir) };
    for order in [[0, 1, 2], [2, 1, 0], [1, 0, 2], [2, 0, 1]] {
        let probes: Vec<Probe> = order.iter().map(|&i| probe(i)).collect();
        let hit = world.search(&probes, s(0.001), s(f32::INFINITY)).unwrap();
        assert_eq!(f(hit.t), 2.0);
        assert!(matches!(hit.material, Material::Metal(_)));
    }
    // without the closest surface the next one is hit
    let hit = world.search(&vec![probe(2), probe(0)], s(0.001), s(f32::INFINITY)).unwrap();
    assert_eq!(f(hit.t), 7.0);
    assert!(matches!(hit.material, Material::Lambertian(_)));
    // the upper bound cuts the search
    assert!(world.search(&vec![probe(0), probe(1), probe(2)], s(0.001), s(2.0)).is_none());
    // a probe that names no surface is passed over
    let stray = Probe { index: 3, solution: solve(centers[1], 1.0, origin, dir) };
    assert!(world.search(&vec![stray], s(0.001), s(f32::INFINITY)).is_none());
}

#[test]
fn of_two_surfaces_at_one_distance_the_first_tested_wins() {
    let mut world = World::new();
    world.add(sphere([0.0, 0.0, 0.0], 1.0, grey()), cube([0.0, 0.0, 0.0], 1.0)).unwrap();
    world.add(sphere([0.0, 0.0, 0.0], 1.0, Material::Dielectric(Dielectric(s(1.5)))), cube([0.0, 0.0, 0.0], 1.0)).unwrap();
    index(&mut world);
    let solution = solve([0.0, 0.0, 0.0], 1.0, [0.0, 0.0, 3.0], [0.0, 0.0, -1.0]);
    let a = Probe { index: 0, solution };
    let b = Probe { index: 1, solution };
    let hit = world.search(&vec![a, b], s(0.001), s(f32::INFINITY)).unwrap();
    assert!(matches!(hit.material, Material::Lambertian(_)));
    let hit = world.search(&vec![b, a], s(0.001), s(f32::INFINITY)).unwrap();
    assert!(matches!(hit.material, Material::Dielectric(_)));
}

/// Whether the ray crosses the box, by the slab method.
fn crosses(b: &Aabb, origin: [f32; 3], dir: [f32; 3]) -> bool {
    let lo = [f(b.min().x), f(b.min().y), f(b.min().z)];
    let hi = [f(b.max().x), f(b.max().y), f(b.max().z)];
    let (mut t0, mut t1) = (f32::NEG_INFINITY, f32::INFINITY);
    for axis in 0..3 {
        let inv = 1.0 / dir[axis];
        let (mut a, mut b) = ((lo[axis] - origin[axis]) * inv, (hi[axis] - origin[axis]) * inv);
        if inv < 0.0 {
            std::mem::swap(&mut a, &mut b);
        }
        t0 = t0.max(a);
        t1 = t1.min(b);
    }
    t0 <= t1
}

#[test]
fn pruned_and_linear_scan_agree() {
    let mut state: u32 = 2024;
    let mut next = move || {
        state = state.wrapping_mul(1664525).wrapping_add(1013904223);
        (state >> 8) as f32 / (1u32 << 24) as f32
    };
    let mut world = World::new();
    let mut spheres: Vec<([f32; 3], f32, Aabb)> = Vec::new();
    for k in 0..120 {
        let center = [next() * 20.0 - 10.0, next() * 20.0 - 10.0, next() * 20.0 - 10.0];
        let radius = 0.2 + next();
        let material = match k % 3 {
            0 => grey(),
            1 => Material::Metal(Metal::new(v([next(), next(), next()]), s(next()))),
            _ => Material::Dielectric(Dielectric(s(1.5))),
        };
        // a box with a margin, so that rounding cannot put a hit outside it
        let aabb = cube(center, radius * 1.01 + 0.01);
        world.add(sphere(center, radius, material), aabb).unwrap();
        spheres.push((center, radius, aabb));
    }
    index(&mut world);
    let (t_min, t_max) = (s(0.001), s(f32::INFINITY));
    let mut hits = 0;
    let mut pruned = 0;
    for _ in 0..10000 {
        let origin = [next() * 30.0 - 15.0, next() * 30.0 - 15.0, next() * 30.0 - 15.0];
        let dir = [next() * 2.0 - 1.0, next() * 2.0 - 1.0, next() * 2.0 - 1.0];
        let all: Vec<Probe> = (0..spheres.len())
            .map(|i| Probe { index: i, solution: solve(spheres[i].0, spheres[i].1, origin, dir) })
            .collect();
        // the surfaces whose boxes the ray crosses, far ones first
        let kept: Vec<Probe> =
            all.iter().rev().filter(|p| crosses(&spheres[p.index].2, origin, dir)).cloned().collect();
        pruned += all.len() - kept.len();
        let linear = world.search(&all, t_min, t_max);
        let accelerated = world.search(&kept, t_min, t_max);
        assert!(same_hit(&linear, &accelerated));
        if linear.is_some() {
            hits += 1;
        }
    }
    assert!(hits > 100);
    assert!(pruned > 100000);
}

struct Boxed {
    aabb: bvh::aabb::AABB,
    node_index: usize,
}

impl bvh::aabb::Bounded for Boxed {
    fn aabb(&self) -> bvh::aabb::AABB {
        self.aabb
    }
}

impl bvh::bounding_hierarchy::BHShape for Boxed {
    fn set_bh_node_index(&mut self, index: usize) {
        self.node_index = index;
    }

    fn bh_node_index(&self) -> usize {
        self.node_index
    }
}

fn boxed(b: &bvh::aabb::AABB) -> Aabb {
    Aabb::with_bounds(v([b.min.x, b.min.y, b.min.z]), v([b.max.x, b.max.y, b.max.z])).unwrap()
}

fn unboxed(b: &Aabb) -> bvh::aabb::AABB {
    bvh::aabb::AABB::with_bounds(
        bvh::nalgebra::Point3::new(f(b.min().x), f(b.min().y), f(b.min().z)),
        bvh::nalgebra::Point3::new(f(b.max().x), f(b.max().y), f(b.max().z)),
    )
}

fn table(bvh: &bvh::bvh::BVH) -> Vec<BvhNode> {
    bvh.nodes
        .iter()
        .map(|node| match node {
            bvh::bvh::BVHNode::Leaf { shape_index, .. } => BvhNode::Leaf { shape_index: *shape_index },
            bvh::bvh::BVHNode::Node { child_l_index, child_l_aabb, child_r_index, child_r_aabb, .. } => {
                BvhNode::Node {
                    child_l_index: *child_l_index,
                    child_l_aabb: boxed(child_l_aabb),
                    child_r_index: *child_r_index,
                    child_r_aabb: boxed(child_r_aabb),
                }
            }
        })
        .collect()
}

#[test]
fn walk_collects_what_the_builder_s_own_traversal_collects() {
    let mut state: u32 = 777;
    let mut next = move || {
        state = state.wrapping_mul(1664525).wrapping_add(1013904223);
        (state >> 8) as f32 / (1u32 << 24) as f32
    };
    for count in [1usize, 2, 3, 17, 150] {
        let boxes: Vec<Aabb> = (0..count)
            .map(|_| {
                let center = [next() * 20.0 - 10.0, next() * 20.0 - 10.0, next() * 20.0 - 10.0];
                cube(center, 0.2 + next())
            })
            .collect();
        let mut shapes: Vec<Boxed> = boxes
            .iter()
            .enumerate()
            .map(|(node_index, b)| Boxed { aabb: unboxed(b), node_index })
            .collect();
        let built = bvh::bvh::BVH::build(&mut shapes);
        let hierarchy = Hierarchy::new(table(&built), boxes.clone()).unwrap();
        assert_eq!(hierarchy.nodes().len(), built.nodes.len());
        assert_eq!(hierarchy.boxes().len(), count);
        for _ in 0..500 {
            let ray = bvh::ray::Ray::new(
                bvh::nalgebra::Point3::new(next() * 30.0 - 15.0, next() * 30.0 - 15.0, next() * 30.0 - 15.0),
                bvh::nalgebra::Vector3::new(next() * 2.0 - 1.0, next() * 2.0 - 1.0, next() * 2.0 - 1.0),
            );
            let mut expected = Vec::new();
            bvh::bvh::BVHNode::traverse_recursive(&built.nodes, 0, &ray, &mut expected);
            let cast = Ray::new(
                v([ray.origin.x, ray.origin.y, ray.origin.z]),
                v([ray.direction.x, ray.direction.y, ray.direction.z]),
                s(0.0),
            );
            let found = hierarchy.traverse(&cast, &|_: &Ray, b: &Aabb| ray.intersects_aabb(&unboxed(b)));
            assert_eq!(found, expected);
        }
        let any = Ray::new(v([0.0, 0.0, 0.0]), v([0.0, 0.0, 1.0]), s(0.0));
        // a test that lets every box through collects every surface once
        let mut everything = hierarchy.traverse(&any, &|_: &Ray, _: &Aabb| true);
        everything.sort();
        assert_eq!(everything, (0..count).collect::<Vec<usize>>());
        // and one that lets none through collects nothing, unless the root is a leaf
        let nothing = hierarchy.traverse(&any, &|_: &Ray, _: &Aabb| false);
        assert_eq!(nothing, if count == 1 { vec![0] } else { vec![] });
    }
}

#[test]
fn a_table_that_is_no_hierarchy_is_refused() {
    let a = cube([0.0, 0.0, 0.0], 1.0);
    let b = cube([5.0, 0.0, 0.0], 1.0);
    let boxes = vec![a, b];
    let leaf = |shape_index: usize| BvhNode::Leaf { shape_index };
    let inner = |l: usize, lb: Aabb, r: usize, rb: Aabb| BvhNode::Node {
        child_l_index: l,
        child_l_aabb: lb,
        child_r_index: r,
        child_r_aabb: rb,
    };
    assert!(Hierarchy::new(vec![inner(1, a, 2, b), leaf(0), leaf(1)], boxes.clone()).is_some());
    assert!(Hierarchy::new(vec![inner(2, b, 1, a), leaf(0), leaf(1)], boxes.clone()).is_some());
    assert!(Hierarchy::new(vec![inner(1, a.join(&b), 2, a.join(&b)), leaf(0), leaf(1)], boxes.clone()).is_some());
    assert!(Hierarchy::new(vec![], vec![]).is_some());
    assert!(Hierarchy::new(vec![leaf(0)], vec![a]).is_some());
    // a box that is not around its surface
    assert!(Hierarchy::new(vec![inner(1, b, 2, b), leaf(0), leaf(1)], boxes.clone()).is_none());
    // a child that does not come after its parent
    assert!(Hierarchy::new(vec![inner(0, a, 2, b), leaf(0), leaf(1)], boxes.clone()).is_none());
    assert!(Hierarchy::new(vec![inner(1, a, 3, b), leaf(0), leaf(1)], boxes.clone()).is_none());
    // a leaf that names no surface
    assert!(Hierarchy::new(vec![inner(1, a, 2, b), leaf(0), leaf(2)], boxes.clone()).is_none());
    // a surface that no leaf names
    assert!(Hierarchy::new(vec![leaf(0)], boxes.clone()).is_none());
    assert!(Hierarchy::new(vec![], boxes.clone()).is_none());
    // a surface that two leaves name
    assert!(Hierarchy::new(vec![inner(1, a, 2, a), leaf(0), leaf(0)], vec![a]).is_none());
    assert!(Hierarchy::new(vec![inner(1, a, 1, a), leaf(0)], vec![a]).is_none());
    // a box around a box that is not around its surfaces
    let deep = vec![inner(1, a.join(&b), 4, b), inner(2, a, 3, a), leaf(0), leaf(1), leaf(2)];
    assert!(Hierarchy::new(deep, vec![a, b, b]).is_none());
    let deep = vec![inner(1, a.join(&b), 4, b), inner(2, a, 3, b), leaf(0), leaf(1), leaf(2)];
    assert!(Hierarchy::new(deep, vec![a, b, b]).is_some());
}

#[test]
fn search_through_the_hierarchy_agrees_with_the_scan() {
    let mut state: u32 = 9001;
    let mut next = move || {
        state = state.wrapping_mul(1664525).wrapping_add(1013904223);
        (state >> 8) as f32 / (1u32 << 24) as f32
    };
    let mut world = World::new();
    let mut spheres: Vec<([f32; 3], f32)> = Vec::new();
    for k in 0..150 {
        let center = [next() * 20.0 - 10.0, next() * 20.0 - 10.0, next() * 20.0 - 10.0];
        let radius = 0.2 + next();
        let material = match k % 3 {
            0 => grey(),
            1 => Material::Metal(Metal::new(v([next(), next(), next()]), s(next()))),
            _ => Material::Dielectric(Dielectric(s(1.5))),
        };
        world.add(sphere(center, radius, material), cube(center, radius)).unwrap();
        spheres.push((center, radius));
    }
    index(&mut world);
    let (t_min, t_max) = (s(0.001), s(f32::INFINITY));
    let mut hits = 0;
    let mut crossings = 0;
    for _ in 0..10000 {
        let origin = [next() * 30.0 - 15.0, next() * 30.0 - 15.0, next() * 30.0 - 15.0];
        let dir = [next() * 2.0 - 1.0, next() * 2.0 - 1.0, next() * 2.0 - 1.0];
        let solved = |_: &Ray, i: usize| solve(spheres[i].0, spheres[i].1, origin, dir);
        let ray = bvh::ray::Ray::new(
            bvh::nalgebra::Point3::new(origin[0], origin[1], origin[2]),
            bvh::nalgebra::Vector3::new(dir[0], dir[1], dir[2]),
        );
        let cast = Ray::new(v(origin), v(dir), s(0.0));
        let crosses = |_: &Ray, b: &Aabb| ray.intersects_aabb(&unboxed(b));
        crossings += world.bvh().unwrap().traverse(&cast, &crosses).len();
        let linear = world.scan(&cast, &solved, t_min, t_max);
        let accelerated = world.hit(&cast, &crosses, &solved, t_min, t_max);
        assert!(same_hit(&linear, &accelerated));
        if linear.is_some() {
            hits += 1;
        }
    }
    assert!(hits > 100);
    // the walk leaves most surfaces out
    assert!(crossings < 10000 * 150 / 4);
}

#[test]
fn a_box_surrounds_what_lies_within_it() {
    let outer = cube([0.0, 0.0, 0.0], 2.0);
    let inner = cube([0.5, -0.5, 0.0], 1.0);
    let apart = cube([5.0, 0.0, 0.0], 1.0);
    assert!(outer.surrounds(&inner));
    assert!(outer.surrounds(&outer));
    assert!(!inner.surrounds(&outer));
    assert!(!outer.surrounds(&apart));
    assert!(outer.join(&apart).surrounds(&outer));
    assert!(outer.join(&apart).surrounds(&apart));
    // the two zeros are one place
    let flat = Aabb::with_bounds(v([-0.0, 0.0, 0.0]), v([0.0, -0.0, 0.0])).unwrap();
    let same = Aabb::with_bounds(v([0.0, 0.0, 0.0]), v([0.0, 0.0, 0.0])).unwrap();
    assert!(flat.surrounds(&same) && same.surrounds(&flat));
}

#[test]
fn a_world_object_is_hit_like_its_surface() {
    let mut world = World::new();
    world.add(sphere([0.0, 0.0, 0.0], 1.0, grey()), cube([0.0, 0.0, 0.0], 1.0)).unwrap();
    let object = &world.objects()[0];
    let solution = solve([0.0, 0.0, 0.0], 1.0, [0.0, 0.0, 3.0], [0.0, 0.0, -1.0]);
    let through_object = object.hit(&solution, s(0.001), s(f32::INFINITY));
    let through_surface = object.inner.hit(&solution, s(0.001), s(f32::INFINITY));
    assert!(same_hit(&through_object, &through_surface));
    assert_eq!(f(through_object.unwrap().t), 2.0);
    assert!(std::ptr::eq(object.inner.material(), through_surface.unwrap().material));
    assert_eq!(object.aabb().min(), v([-1.0, -1.0, -1.0]));
}

//! The integrator: the path of a ray through the world.
//!
//! A path starts with a camera ray and a budget of bounces. At each vertex
//! the ray misses everything, is absorbed, or is scattered with some
//! attenuation. The path ends black when the ray is absorbed or the budget
//! runs out, and under the sky when the ray escapes. Its radiance is then
//! the product of the attenuations with the sky's colour in the direction
//! of escape, which the caller multiplies out.
//!
//! [`ray_color`] follows a ray through a world. What is rounding arithmetic
//! or chance along the way comes from the caller as three functions: the
//! box test and the solver of the world's search, and the numbers that a
//! material decides with.

use vstd::prelude::*;
use crate::scalar::Scalar;
use crate::types::{Color, Ray, Vec3};
use crate::aabb::Aabb;
use crate::hierarchy::{crossed_by, is_function};
use crate::intersections::{HitRecord, Solution};
use crate::material::{Sample, Scatter};
use crate::world::{is_solver, lemma_empty_world_has_no_hit, solved_by, World};

verus! {

/// Bit pattern of the least parametric distance at which a hit counts: one
/// thousandth. A scattered ray starts on the surface it leaves; the bound
/// keeps it from hitting that surface again at once.
pub const NEAR_BOUND_BITS: u32 = 0x3a83_126f;

/// Bit patterns of the sky's colour overhead, channel by channel: a half,
/// seven tenths and one. Toward the ground the sky fades to white.
pub const ZENITH_BITS: (u32, u32, u32) = (0x3f00_0000, 0x3f33_3333, 0x3f80_0000);

/// The bounds between which a ray's hits count: from just off the surface
/// to infinity.
pub fn hit_bounds() -> (bounds: (Scalar, Scalar))
    ensures
        bounds.0.bits == NEAR_BOUND_BITS,
        bounds.1 == Scalar::infinity_spec(),
        Scalar::zero_spec().lt_spec(bounds.0),
        bounds.0.lt_spec(bounds.1),
{
    (Scalar::from_bits(NEAR_BOUND_BITS), Scalar::infinity())
}

/// The two colours between which the sky is blended by the height of the
/// ray's direction: white at the bottom, blue at the top.
pub fn sky() -> (colours: (Color, Color))
    ensures
        colours.0 == crate::material::white(),
        colours.1.x.bits == ZENITH_BITS.0,
        colours.1.y.bits == ZENITH_BITS.1,
        colours.1.z.bits == ZENITH_BITS.2,
{
    let one = Scalar::one();
    (Vec3::new(one, one, one), Vec3::from_bits(ZENITH_BITS.0, ZENITH_BITS.1, ZENITH_BITS.2))
}

/// What became of a ray at one vertex of the path.
#[derive(Clone, Copy, Debug, PartialEq, Eq, Structural)]
pub enum Bounce {
    /// The ray hit nothing.
    Miss,
    /// The ray hit a surface that absorbed it.
    Absorbed,
    /// The ray hit a surface that sent it on.
    Scattered { ray: Ray, attenuation: Color },
}

/// Where a path stands.
#[derive(Clone, Copy, Debug, PartialEq, Eq, Structural)]
pub enum Status {
    /// The path waits to learn what becomes of its ray.
    Tracing,
    /// The path carries no light.
    Black,
    /// The ray left the scene: the path carries the sky's light.
    Sky,
}

/// The end of a path that is being followed: where it stands, at which ray,
/// and how many bounces it may still take. A path that is tracing has a
/// budget above zero.
#[derive(Clone, Copy, Debug)]
struct Head {
    status: Status,
    ray: Ray,
    depth: i32,
}

/// A light path, as far as it has been followed.
#[derive(Debug)]
pub struct Path {
    head: Head,
    filters: Vec<Color>,
}

/// A path as a value: its status, the ray it stands at, the bounces it may
/// still take, and the attenuations it has met, first vertex first.
pub struct PathView {
    pub status: Status,
    pub ray: Ray,
    pub depth: int,
    pub filters: Seq<Color>,
}

impl PathView {
    /// The path of a ray that has just been cast: black at once if it has
    /// no budget.
    pub open spec fn start(ray: Ray, depth: int) -> PathView {
        PathView {
            status: if depth <= 0 {
                Status::Black
            } else {
                Status::Tracing
            },
            ray,
            depth,
            filters: Seq::empty(),
        }
    }

    /// The path after one more vertex. A path that has ended stays as it is.
    pub open spec fn step(self, bounce: Bounce) -> PathView {
        if self.status != Status::Tracing {
            self
        } else {
            match bounce {
                Bounce::Miss => PathView { status: Status::Sky, ..self },
                Bounce::Absorbed => PathView { status: Status::Black, ..self },
                Bounce::Scattered { ray, attenuation } => PathView {
                    status: if self.depth - 1 <= 0 {
                        Status::Black
                    } else {
                        Status::Tracing
                    },
                    ray,
                    depth: self.depth - 1,
                    filters: self.filters.push(attenuation),
                },
            }
        }
    }

    /// The path with one more attenuation in front of those it has met.
    pub open spec fn tinted(self, attenuation: Color) -> PathView {
        PathView { filters: seq![attenuation] + self.filters, ..self }
    }
}

/// The radiance of a ray by the recursive rule: black without budget; the
/// sky if the ray misses; black if it is absorbed; else the attenuation
/// times the radiance of the scattered ray with one bounce less. `bounces`
/// lists what happens at the vertices to come; where the list ends the path
/// is still tracing.
pub open spec fn radiance(ray: Ray, depth: int, bounces: Seq<Bounce>) -> PathView
    decreases bounces.len(),
{
    if depth <= 0 || bounces.len() == 0 {
        PathView::start(ray, depth)
    } else {
        match bounces[0] {
            Bounce::Miss => PathView {
                status: Status::Sky,
                ray,
                depth,
                filters: Seq::empty(),
            },
            Bounce::Absorbed => PathView {
                status: Status::Black,
                ray,
                depth,
                filters: Seq::empty(),
            },
            Bounce::Scattered { ray: scattered, attenuation } => radiance(
                scattered,
                depth - 1,
                bounces.skip(1),
            ).tinted(attenuation),
        }
    }
}

/// The path that the loop reaches: start, then one step per bounce.
pub open spec fn followed(ray: Ray, depth: int, bounces: Seq<Bounce>) -> PathView
    decreases bounces.len(),
{
    if bounces.len() == 0 {
        PathView::start(ray, depth)
    } else {
        followed(ray, depth, bounces.drop_last()).step(bounces.last())
    }
}

impl Bounce {
    /// What became of the ray, from the outcome of the intersection and, if
    /// there was a hit, of the scattering.
    pub open spec fn of_spec(hit: Option<HitRecord>, scattered: Option<(Ray, Color)>) -> Bounce {
        match hit {
            None => Bounce::Miss,
            Some(_) => match scattered {
                None => Bounce::Absorbed,
                Some((ray, attenuation)) => Bounce::Scattered { ray, attenuation },
            },
        }
    }

    pub fn of(hit: &Option<HitRecord>, scattered: Option<(Ray, Color)>) -> (b: Bounce)
        ensures
            b == Self::of_spec(*hit, scattered),
    {
        match hit {
            None => Bounce::Miss,
            Some(_) => match scattered {
                None => Bounce::Absorbed,
                Some((ray, attenuation)) => Bounce::Scattered { ray, attenuation },
            },
        }
    }
}

impl View for Path {
    type V = PathView;

    closed spec fn view(&self) -> PathView {
        PathView {
            status: self.head.status,
            ray: self.head.ray,
            depth: self.head.depth as int,
            filters: self.filters@,
        }
    }
}

impl Head {
    #[verifier::type_invariant]
    closed spec fn inv(self) -> bool {
        self.status == Status::Tracing ==> self.depth > 0
    }
}

impl Path {
    /// The path of a ray that has just been cast with a budget of `depth`
    /// bounces.
    pub fn new(ray: Ray, depth: i32) -> (p: Path)
        ensures
            p@ == PathView::start(ray, depth as int),
    {
        let status = if depth <= 0 {
            Status::Black
        } else {
            Status::Tracing
        };
        Path { head: Head { status, ray, depth }, filters: Vec::new() }
    }

    pub fn status(&self) -> (s: Status)
        ensures
            s == self@.status,
    {
        self.head.status
    }

    /// The ray whose fate the path waits for, while it is tracing.
    pub fn pending(&self) -> (r: Option<Ray>)
        ensures
            r == if self@.status == Status::Tracing {
                Some(self@.ray)
            } else {
                None
            },
    {
        match self.head.status {
            Status::Tracing => Some(self.head.ray),
            _ => None,
        }
    }

    /// The ray the path stands at: the one that escaped, if it ended under
    /// the sky.
    pub fn ray(&self) -> (r: Ray)
        ensures
            r == self@.ray,
    {
        self.head.ray
    }

    /// The attenuations met so far, first vertex first.
    pub fn filters(&self) -> (f: &Vec<Color>)
        ensures
            f@ == self@.filters,
    {
        &self.filters
    }

    /// Records what became of the pending ray. A path that has ended stays
    /// as it is.
    pub fn advance(&mut self, bounce: Bounce)
        ensures
            final(self)@ == old(self)@.step(bounce),
    {
        let head = self.head;
        proof {
            use_type_invariant(head);
        }
        match head.status {
            Status::Tracing => {
                match bounce {
                    Bounce::Miss => {
                        self.head = Head { status: Status::Sky, ray: head.ray, depth: head.depth };
                    },
                    Bounce::Absorbed => {
                        self.head = Head {
                            status: Status::Black,
                            ray: head.ray,
                            depth: head.depth,
                        };
                    },
                    Bounce::Scattered { ray, attenuation } => {
                        let status = if head.depth <= 1 {
                            Status::Black
                        } else {
                            Status::Tracing
                        };
                        self.head = Head { status, ray, depth: head.depth - 1 };
                        self.filters.push(attenuation);
                    },
                }
            },
            _ => {},
        }
    }
}

/// Tinting a path and letting it take a step can be done in either order.
pub proof fn lemma_step_tinted(path: PathView, bounce: Bounce, attenuation: Color)
    ensures
        path.step(bounce).tinted(attenuation) == path.tinted(attenuation).step(bounce),
{
    assert(path.step(bounce).tinted(attenuation).filters =~= path.tinted(attenuation).step(
        bounce,
    ).filters);
}

/// One more bounce at the end of the list is one more step of the path.
pub proof fn lemma_radiance_step(ray: Ray, depth: int, bounces: Seq<Bounce>, bounce: Bounce)
    ensures
        radiance(ray, depth, bounces.push(bounce)) == radiance(ray, depth, bounces).step(bounce),
    decreases bounces.len(),
{
    let longer = bounces.push(bounce);
    if depth <= 0 {
    } else if bounces.len() == 0 {
        assert(longer[0] == bounce);
        assert(longer.skip(1).len() == 0);
        match bounce {
            Bounce::Scattered { ray: scattered, attenuation } => {
                assert(radiance(scattered, depth - 1, longer.skip(1)).tinted(attenuation).filters
                    =~= PathView::start(ray, depth).step(bounce).filters);
            },
            _ => {},
        }
    } else {
        assert(longer[0] == bounces[0]);
        match bounces[0] {
            Bounce::Scattered { ray: scattered, attenuation } => {
                assert(longer.skip(1) == bounces.skip(1).push(bounce));
                lemma_radiance_step(scattered, depth - 1, bounces.skip(1), bounce);
                lemma_step_tinted(
                    radiance(scattered, depth - 1, bounces.skip(1)),
                    bounce,
                    attenuation,
                );
            },
            _ => {},
        }
    }
}

/// The loop and the recursive rule describe the same path.
pub proof fn lemma_loop_is_recursion(ray: Ray, depth: int, bounces: Seq<Bounce>)
    ensures
        followed(ray, depth, bounces) == radiance(ray, depth, bounces),
    decreases bounces.len(),
{
    if bounces.len() > 0 {
        lemma_loop_is_recursion(ray, depth, bounces.drop_last());
        lemma_radiance_step(ray, depth, bounces.drop_last(), bounces.last());
        assert(bounces.drop_last().push(bounces.last()) == bounces);
    }
}

/// A path never holds more attenuations than its budget of bounces allows,
/// and it is black once the budget is used up.
pub proof fn lemma_budget_bounds_path(ray: Ray, depth: int, bounces: Seq<Bounce>)
    ensures
        radiance(ray, depth, bounces).filters.len() <= if depth > 0 {
            depth
        } else {
            0
        },
        radiance(ray, depth, bounces).filters.len() <= bounces.len(),
        radiance(ray, depth, bounces).depth + radiance(ray, depth, bounces).filters.len() == depth,
        radiance(ray, depth, bounces).status == Status::Tracing ==> radiance(
            ray,
            depth,
            bounces,
        ).depth > 0,
        depth <= 0 ==> radiance(ray, depth, bounces).status == Status::Black,
    decreases bounces.len(),
{
    if depth > 0 && bounces.len() > 0 {
        match bounces[0] {
            Bounce::Scattered { ray: scattered, attenuation } => {
                lemma_budget_bounds_path(scattered, depth - 1, bounces.skip(1));
            },
            _ => {},
        }
    }
}

/// A ray that hits nothing on its first flight shows the sky unfiltered, as
/// long as it has a budget at all: its radiance is the background in its own
/// direction.
pub proof fn lemma_miss_shows_background(ray: Ray, depth: int, scattered: Option<(Ray, Color)>)
    requires
        depth > 0,
    ensures
        radiance(ray, depth, seq![Bounce::of_spec(None, scattered)]) == (PathView {
            status: Status::Sky,
            ray,
            depth,
            filters: Seq::empty(),
        }),
{
    assert(seq![Bounce::of_spec(None, scattered)][0] == Bounce::Miss);
}

/// The path of a ray whose bounces are known: it is started and advanced by
/// each bounce in turn. The result is the path that the recursive rule
/// describes.
pub fn follow(ray: Ray, depth: i32, bounces: &Vec<Bounce>) -> (p: Path)
    ensures
        p@ == radiance(ray, depth as int, bounces@),
{
    let mut path = Path::new(ray, depth);
    let mut i: usize = 0;
    while i < bounces.len()
        invariant
            i <= bounces@.len(),
            path@ == followed(ray, depth as int, bounces@.take(i as int)),
        decreases bounces@.len() - i,
    {
        proof {
            assert(bounces@.take(i + 1).drop_last() == bounces@.take(i as int));
            assert(bounces@.take(i + 1).last() == bounces@[i as int]);
        }
        path.advance(bounces[i]);
        i += 1;
    }
    proof {
        assert(bounces@.take(bounces@.len() as int) == bounces@);
        lemma_loop_is_recursion(ray, depth as int, bounces@);
    }
    path
}

/// The least parametric distance at which a hit counts.
pub open spec fn near() -> Scalar {
    Scalar { bits: NEAR_BOUND_BITS }
}

/// What the ray hits first in the world.
pub open spec fn found<F: Fn(&Ray, &Aabb) -> bool, G: Fn(&Ray, usize) -> Solution>(
    world: World,
    ray: Ray,
    crosses: F,
    solve: G,
) -> Option<HitRecord<'static>> {
    world.hit_spec(crossed_by(crosses, ray), solved_by(solve, ray), near(), Scalar::infinity_spec())
}

/// `bounce` is what may become of the ray in the world: a miss if it hits
/// nothing; else what the material that it hits first makes of it, with
/// numbers that `sample` may give for that hit.
pub open spec fn may_bounce<
    F: Fn(&Ray, &Aabb) -> bool,
    G: Fn(&Ray, usize) -> Solution,
    S: Fn(&Ray, &HitRecord) -> Sample,
>(world: World, ray: Ray, crosses: F, solve: G, sample: S, bounce: Bounce) -> bool {
    match found(world, ray, crosses, solve) {
        None => bounce == Bounce::Miss,
        Some(hit) => exists|numbers: Sample| #[trigger]
            call_ensures(sample, (&ray, &hit), numbers) && bounce == Bounce::of_spec(
                Some(hit),
                hit.material.scattered(ray, hit, numbers),
            ),
    }
}

/// `bounces` is what may become of the ray and of the rays that it is
/// scattered into, to the end of the path: every bounce is one that may
/// become of the ray before it, the path goes on exactly while the ray is
/// scattered and the budget lasts.
pub open spec fn may_follow<
    F: Fn(&Ray, &Aabb) -> bool,
    G: Fn(&Ray, usize) -> Solution,
    S: Fn(&Ray, &HitRecord) -> Sample,
>(world: World, ray: Ray, depth: int, crosses: F, solve: G, sample: S, bounces: Seq<Bounce>) -> bool
    decreases bounces.len(),
{
    if depth <= 0 {
        bounces.len() == 0
    } else if bounces.len() == 0 {
        false
    } else {
        &&& may_bounce(world, ray, crosses, solve, sample, bounces[0])
        &&& match bounces[0] {
            Bounce::Scattered { ray: next, .. } => may_follow(
                world,
                next,
                depth - 1,
                crosses,
                solve,
                sample,
                bounces.skip(1),
            ),
            _ => bounces.len() == 1,
        }
    }
}

/// `bounces` is what may become of the ray up to some vertex of its path,
/// at which the path stands at the ray `at` with `left` bounces to take:
/// every bounce scatters.
pub open spec fn may_lead<
    F: Fn(&Ray, &Aabb) -> bool,
    G: Fn(&Ray, usize) -> Solution,
    S: Fn(&Ray, &HitRecord) -> Sample,
>(
    world: World,
    ray: Ray,
    depth: int,
    crosses: F,
    solve: G,
    sample: S,
    bounces: Seq<Bounce>,
    at: Ray,
    left: int,
) -> bool
    decreases bounces.len(),
{
    if bounces.len() == 0 {
        at == ray && left == depth
    } else {
        &&& depth > 0
        &&& may_bounce(world, ray, crosses, solve, sample, bounces[0])
        &&& match bounces[0] {
            Bounce::Scattered { ray: next, .. } => may_lead(
                world,
                next,
                depth - 1,
                crosses,
                solve,
                sample,
                bounces.skip(1),
                at,
                left,
            ),
            _ => false,
        }
    }
}

/// A path that leads to a vertex and may be followed from there may be
/// followed from its start.
pub proof fn lemma_lead_then_follow<
    F: Fn(&Ray, &Aabb) -> bool,
    G: Fn(&Ray, usize) -> Solution,
    S: Fn(&Ray, &HitRecord) -> Sample,
>(
    world: World,
    ray: Ray,
    depth: int,
    crosses: F,
    solve: G,
    sample: S,
    bounces: Seq<Bounce>,
    at: Ray,
    left: int,
    rest: Seq<Bounce>,
)
    requires
        may_lead(world, ray, depth, crosses, solve, sample, bounces, at, left),
        may_follow(world, at, left, crosses, solve, sample, rest),
    ensures
        may_follow(world, ray, depth, crosses, solve, sample, bounces + rest),
    decreases bounces.len(),
{
    if bounces.len() == 0 {
        assert(bounces + rest =~= rest);
    } else {
        let all = bounces + rest;
        assert(all[0] == bounces[0]);
        assert(all.skip(1) =~= bounces.skip(1) + rest);
        match bounces[0] {
            Bounce::Scattered { ray: next, .. } => {
                lemma_lead_then_follow(
                    world,
                    next,
                    depth - 1,
                    crosses,
                    solve,
                    sample,
                    bounces.skip(1),
                    at,
                    left,
                    rest,
                );
            },
            _ => {},
        }
    }
}

/// A path that leads to a vertex leads one vertex further if the ray is
/// scattered there.
pub proof fn lemma_lead_further<
    F: Fn(&Ray, &Aabb) -> bool,
    G: Fn(&Ray, usize) -> Solution,
    S: Fn(&Ray, &HitRecord) -> Sample,
>(
    world: World,
    ray: Ray,
    depth: int,
    crosses: F,
    solve: G,
    sample: S,
    bounces: Seq<Bounce>,
    at: Ray,
    left: int,
    next: Ray,
    attenuation: Color,
)
    requires
        may_lead(world, ray, depth, crosses, solve, sample, bounces, at, left),
        left > 0,
        may_bounce(world, at, crosses, solve, sample, Bounce::Scattered { ray: next, attenuation }),
    ensures
        may_lead(
            world,
            ray,
            depth,
            crosses,
            solve,
            sample,
            bounces.push(Bounce::Scattered { ray: next, attenuation }),
            next,
            left - 1,
        ),
    decreases bounces.len(),
{
    let bounce = Bounce::Scattered { ray: next, attenuation };
    let longer = bounces.push(bounce);
    if bounces.len() == 0 {
        assert(longer[0] == bounce);
        assert(longer.skip(1) =~= Seq::<Bounce>::empty());
        assert(may_lead(world, next, depth - 1, crosses, solve, sample, longer.skip(1), next, left - 1));
    } else {
        assert(longer[0] == bounces[0]);
        assert(longer.skip(1) =~= bounces.skip(1).push(bounce));
        match bounces[0] {
            Bounce::Scattered { ray: second, .. } => {
                lemma_lead_further(
                    world,
                    second,
                    depth - 1,
                    crosses,
                    solve,
                    sample,
                    bounces.skip(1),
                    at,
                    left,
                    next,
                    attenuation,
                );
            },
            _ => {},
        }
    }
}

/// In a world without surfaces a ray with a budget can only miss, and its
/// path shows the sky unfiltered: the radiance is the background in the
/// ray's own direction.
pub proof fn lemma_empty_world_is_all_sky<
    F: Fn(&Ray, &Aabb) -> bool,
    G: Fn(&Ray, usize) -> Solution,
    S: Fn(&Ray, &HitRecord) -> Sample,
>(world: World, ray: Ray, depth: int, crosses: F, solve: G, sample: S, bounces: Seq<Bounce>)
    requires
        world.surfaces().len() == 0,
        depth > 0,
        may_follow(world, ray, depth, crosses, solve, sample, bounces),
    ensures
        found(world, ray, crosses, solve) is None,
        bounces == seq![Bounce::Miss],
        radiance(ray, depth, bounces) == (PathView {
            status: Status::Sky,
            ray,
            depth,
            filters: Seq::empty(),
        }),
{
    lemma_empty_world_has_no_hit(
        world,
        crossed_by(crosses, ray),
        solved_by(solve, ray),
        Seq::empty(),
        near(),
        Scalar::infinity_spec(),
    );
    assert(bounces[0] == Bounce::Miss);
    assert(bounces =~= seq![Bounce::Miss]);
}

/// The radiance of a ray in the world, with a budget of `depth` bounces.
///
/// The ray is followed from vertex to vertex: at each, the world is
/// searched for the first hit beyond the near bound; a ray that hits
/// nothing ends under the sky; one that hits is handed to the material with
/// the numbers that `sample` gives; an absorbed ray ends black, a scattered
/// one goes on with one bounce less, and ends black when no bounce is left.
/// The result is the path that the recursive rule describes for the
/// bounces that were met.
pub fn ray_color<
    F: Fn(&Ray, &Aabb) -> bool,
    G: Fn(&Ray, usize) -> Solution,
    S: Fn(&Ray, &HitRecord) -> Sample,
>(ray: &Ray, world: &World, depth: i32, crosses: &F, solve: &G, sample: &S) -> (p: Path)
    requires
        forall|r: Ray, b: Aabb| call_requires(*crosses, (&r, &b)),
        is_function(*crosses),
        forall|r: Ray, i: usize| i < world.surfaces().len() ==> call_requires(*solve, (&r, i)),
        is_solver(*solve),
        forall|r: Ray, hit: HitRecord| call_requires(*sample, (&r, &hit)),
        forall|r: Ray, hit: HitRecord, numbers: Sample|
            call_ensures(*sample, (&r, &hit), numbers) ==> hit.material.takes(numbers),
    ensures
        exists|bounces: Seq<Bounce>|
            may_follow(*world, *ray, depth as int, *crosses, *solve, *sample, bounces) && p@
                == #[trigger] radiance(*ray, depth as int, bounces),
        depth <= 0 ==> p@.status == Status::Black,
        depth > 0 && world.surfaces().len() == 0 ==> p@ == (PathView {
            status: Status::Sky,
            ray: *ray,
            depth: depth as int,
            filters: Seq::empty(),
        }),
{
    let mut path = Path::new(*ray, depth);
    let ghost mut done: Seq<Bounce> = Seq::empty();
    let bounds = hit_bounds();
    loop
        invariant
            path@ == followed(*ray, depth as int, done),
            bounds.0 == near(),
            bounds.1 == Scalar::infinity_spec(),
            forall|r: Ray, b: Aabb| call_requires(*crosses, (&r, &b)),
            is_function(*crosses),
            forall|r: Ray, i: usize| i < world.surfaces().len() ==> call_requires(*solve, (&r, i)),
            is_solver(*solve),
            forall|r: Ray, hit: HitRecord| call_requires(*sample, (&r, &hit)),
            forall|r: Ray, hit: HitRecord, numbers: Sample|
                call_ensures(*sample, (&r, &hit), numbers) ==> hit.material.takes(numbers),
            if path@.status == Status::Tracing {
                may_lead(
                    *world,
                    *ray,
                    depth as int,
                    *crosses,
                    *solve,
                    *sample,
                    done,
                    path@.ray,
                    path@.depth,
                )
            } else {
                may_follow(*world, *ray, depth as int, *crosses, *solve, *sample, done)
            },
        ensures
            path@.status != Status::Tracing,
        decreases
                if path@.status == Status::Tracing {
                    path@.depth
                } else {
                    0
                },
    {
        let pending = match path.pending() {
            Some(pending) => pending,
            None => {
                break ;
            },
        };
        proof {
            lemma_loop_is_recursion(*ray, depth as int, done);
            lemma_budget_bounds_path(*ray, depth as int, done);
        }
        let hit = world.hit(&pending, crosses, solve, bounds.0, bounds.1);
        let scattered = match &hit {
            Some(record) => {
                let numbers = sample(&pending, record);
                record.material.scatter(&pending, record, &numbers)
            },
            None => None,
        };
        let bounce = Bounce::of(&hit, scattered);
        let ghost before = path@;
        path.advance(bounce);
        proof {
            assert(may_bounce(*world, pending, *crosses, *solve, *sample, bounce));
            let longer = done.push(bounce);
            assert(longer.drop_last() =~= done);
            assert(longer.last() == bounce);
            match bounce {
                Bounce::Scattered { ray: next, attenuation } => {
                    lemma_lead_further(
                        *world,
                        *ray,
                        depth as int,
                        *crosses,
                        *solve,
                        *sample,
                        done,
                        pending,
                        before.depth,
                        next,
                        attenuation,
                    );
                    if path@.status != Status::Tracing {
                        lemma_lead_then_follow(
                            *world,
                            *ray,
                            depth as int,
                            *crosses,
                            *solve,
                            *sample,
                            longer,
                            next,
                            before.depth - 1,
                            Seq::empty(),
                        );
                        assert(longer + Seq::<Bounce>::empty() =~= longer);
                    }
                },
                _ => {
                    let last = seq![bounce];
                    assert(last[0] == bounce);
                    assert(may_follow(
                        *world,
                        pending,
                        before.depth,
                        *crosses,
                        *solve,
                        *sample,
                        last,
                    ));
                    lemma_lead_then_follow(
                        *world,
                        *ray,
                        depth as int,
                        *crosses,
                        *solve,
                        *sample,
                        done,
                        pending,
                        before.depth,
                        last,
                    );
                    assert(done + last =~= longer);
                },
            }
            done = longer;
        }
    }
    proof {
        lemma_loop_is_recursion(*ray, depth as int, done);
        assert(may_follow(*world, *ray, depth as int, *crosses, *solve, *sample, done));
        assert(path@ == radiance(*ray, depth as int, done));
        lemma_budget_bounds_path(*ray, depth as int, done);
        if depth > 0 && world.surfaces().len() == 0 {
            lemma_empty_world_is_all_sky(
                *world,
                *ray,
                depth as int,
                *crosses,
                *solve,
                *sample,
                done,
            );
        }
    }
    path
}

} // verus!

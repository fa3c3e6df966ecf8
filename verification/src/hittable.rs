use crate::math::{Scalar, Vec2, Vec3, AABB, ONE};
use crate::render::HitRecord;
use vstd::prelude::*;

verus! {

/// The box of a primitive, or the box of no size at the origin for a
/// primitive that has none.
pub open spec fn box_or_zero(b: Option<AABB>) -> AABB {
    match b {
        Some(inner) => inner,
        None => AABB::zeros_spec(),
    }
}

/// Every item names a box of `boxes`.
pub open spec fn in_range(items: Seq<usize>, boxes: Seq<Option<AABB>>) -> bool {
    forall|k: int| 0 <= k < items.len() ==> #[trigger] items[k] < boxes.len()
}

/// What the ray in hand makes of a box between two distances: whether it
/// crosses the box there.
pub type BoxTest = spec_fn(AABB, Scalar, Scalar) -> bool;

/// What the ray in hand makes of a primitive between two distances: where it
/// meets the primitive there, if it does.
pub type Probe = spec_fn(usize, Scalar, Scalar) -> Option<HitRecord>;

/// Whatever `crosses` may return is what `test` says.
pub open spec fn tests_as<B: Fn(&AABB, Scalar, Scalar) -> bool>(crosses: &B, test: BoxTest) -> bool {
    forall|b: &AABB, lo: Scalar, hi: Scalar, r: bool|
        #[trigger] call_ensures(crosses, (b, lo, hi), r) ==> r == test(*b, lo, hi)
}

/// Whatever `probe` may return for a primitive of `among` is what `answer`
/// says.
pub open spec fn answers_as<P: Fn(usize, Scalar, Scalar) -> Option<HitRecord>>(
    probe: &P,
    answer: Probe,
    among: Set<usize>,
) -> bool {
    forall|i: usize, lo: Scalar, hi: Scalar, r: Option<HitRecord>|
        among.contains(i) && #[trigger] call_ensures(probe, (i, lo, hi), r) ==> r == answer(
            i,
            lo,
            hi,
        )
}

/// `probe` may be asked about every primitive of `among`, between any two
/// distances.
pub open spec fn may_ask<P: Fn(usize, Scalar, Scalar) -> Option<HitRecord>>(
    probe: &P,
    among: Set<usize>,
) -> bool {
    forall|i: usize, lo: Scalar, hi: Scalar|
        among.contains(i) ==> #[trigger] call_requires(probe, (i, lo, hi))
}

/// `crosses` may be asked about every box, between any two distances.
pub open spec fn may_test<B: Fn(&AABB, Scalar, Scalar) -> bool>(crosses: &B) -> bool {
    forall|b: &AABB, lo: Scalar, hi: Scalar| #[trigger] call_requires(crosses, (b, lo, hi))
}

/// What holds of the answers about a set of primitives holds about each of
/// its parts.
pub proof fn lemma_answers_within<P: Fn(usize, Scalar, Scalar) -> Option<HitRecord>>(
    probe: &P,
    answer: Probe,
    wide: Set<usize>,
    narrow: Set<usize>,
)
    requires
        answers_as(probe, answer, wide),
        narrow.subset_of(wide),
    ensures
        answers_as(probe, answer, narrow),
{
}

/// The box around the origin and every box of `boxes`; a missing box adds
/// nothing.
pub open spec fn bounds_of(boxes: Seq<Option<AABB>>) -> AABB
    decreases boxes.len(),
{
    if boxes.len() == 0 {
        AABB::zeros_spec()
    } else {
        match boxes.last() {
            Some(other) => bounds_of(boxes.drop_last()).union_spec(other),
            None => bounds_of(boxes.drop_last()),
        }
    }
}

/// Of the closest hit so far and a new one, the new one where it is the
/// first or strictly closer, and else the one so far.
pub open spec fn closer(closest: Option<HitRecord>, found: Option<HitRecord>) -> Option<HitRecord> {
    match (found, closest) {
        (Some(record), Some(so_far)) => if record.t < so_far.t {
            Some(record)
        } else {
            closest
        },
        (Some(record), None) => Some(record),
        (None, _) => closest,
    }
}

/// The closest of a row of answers: the hit at the least distance, and of
/// several at that distance the first.
pub open spec fn closest_of(answers: Seq<Option<HitRecord>>) -> Option<HitRecord>
    decreases answers.len(),
{
    if answers.len() == 0 {
        None
    } else {
        closer(closest_of(answers.drop_last()), answers.last())
    }
}

/// `answers` holds, for each item of `items` in turn, something that `probe`
/// may return when it is asked about the item between `lo` and `hi`.
pub open spec fn may_answer<P: Fn(usize, Scalar, Scalar) -> Option<HitRecord>>(
    probe: &P,
    items: Seq<usize>,
    lo: Scalar,
    hi: Scalar,
    answers: Seq<Option<HitRecord>>,
) -> bool {
    &&& answers.len() == items.len()
    &&& forall|k: int|
        0 <= k < items.len() ==> call_ensures(probe, (items[k], lo, hi), #[trigger] answers[k])
}

/// The hit that a search through `items` one after the other returns between
/// `t_min` and `t_max`: the closest of the answers about the single items.
pub open spec fn scan(items: Seq<usize>, answer: Probe, t_min: Scalar, t_max: Scalar) -> Option<
    HitRecord,
>
    decreases items.len(),
{
    if items.len() == 0 {
        None
    } else {
        closer(scan(items.drop_last(), answer, t_min, t_max), answer(items.last(), t_min, t_max))
    }
}

/// Asks `probe` about each of `items` in turn, between `t_min` and `t_max`,
/// and keeps the closest hit.
fn search<P>(items: &Vec<usize>, probe: &P, t_min: Scalar, t_max: Scalar) -> (hit: Option<
    HitRecord,
>) where P: Fn(usize, Scalar, Scalar) -> Option<HitRecord>
    requires
        may_ask(probe, items@.to_set()),
    ensures
        exists|answers: Seq<Option<HitRecord>>| #[trigger]
            may_answer(probe, items@, t_min, t_max, answers) && hit == closest_of(answers),
        forall|answer: Probe|
            answers_as(probe, answer, items@.to_set()) ==> hit == #[trigger] scan(
                items@,
                answer,
                t_min,
                t_max,
            ),
{
    let mut closest_record: Option<HitRecord> = None;
    let ghost mut answers: Seq<Option<HitRecord>> = Seq::empty();
    let mut next: usize = 0;
    while next < items.len()
        invariant
            next <= items@.len(),
            may_ask(probe, items@.to_set()),
            may_answer(probe, items@.take(next as int), t_min, t_max, answers),
            closest_record == closest_of(answers),
            forall|answer: Probe|
                answers_as(probe, answer, items@.to_set()) ==> closest_record == #[trigger] scan(
                    items@.take(next as int),
                    answer,
                    t_min,
                    t_max,
                ),
        decreases items@.len() - next,
    {
        let item = items[next];
        assert(items@.to_set().contains(item)) by {
            assert(items@.contains(item));
        }
        let found = probe(item, t_min, t_max);
        let ghost before = closest_record;
        closest_record = closer_of(closest_record, found);
        proof {
            let longer = items@.take(next + 1);
            assert(longer.drop_last() =~= items@.take(next as int));
            assert(longer.last() == item);
            let earlier = answers;
            answers = answers.push(found);
            assert(answers.drop_last() =~= earlier);
            assert forall|answer: Probe|
                answers_as(probe, answer, items@.to_set()) implies closest_record
                == #[trigger] scan(longer, answer, t_min, t_max) by {
                assert(before == scan(items@.take(next as int), answer, t_min, t_max));
                assert(found == answer(item, t_min, t_max));
            }
        }
        next += 1;
    }
    assert(items@.take(next as int) =~= items@);
    closest_record
}

/// The primitives of a scene in a row, and a box around them all and the
/// origin.
#[derive(Debug)]
pub struct HittableList {
    pub hittables: Vec<usize>,
    pub list_boundaries: AABB,
}

impl HittableList {
    /// The list of the primitives whose boxes `data` lists, each named by
    /// its place in `data`. The boxes are ordered, and so is the box of the
    /// list.
    pub fn from_slice(data: &Vec<Option<AABB>>) -> (list: HittableList)
        requires
            all_ordered(data@),
        ensures
            list.hittables@ == places(data@.len()),
            list.list_boundaries == bounds_of(data@),
            list.list_boundaries.is_ordered(),
    {
        proof {
            lemma_bounds_ordered(data@);
        }
        let mut aabb = AABB::zeros();
        let mut next: usize = 0;
        while next < data.len()
            invariant
                next <= data.len(),
                aabb == bounds_of(data@.take(next as int)),
            decreases data.len() - next,
        {
            if let Some(other) = data[next] {
                aabb = aabb.union(&other);
            }
            next += 1;
            assert(data@.take(next as int).drop_last() =~= data@.take(next - 1));
        }
        assert(data@.take(next as int) =~= data@);
        let hittables = first_places(data.len());
        HittableList { hittables, list_boundaries: aabb }
    }

    /// Searches the list for the closest hit between `t_min` and `t_max`.
    /// `probe` tells where the ray meets a primitive between two distances:
    /// it is asked once about each primitive of the list, in the order of
    /// the list and with the same two distances.
    pub fn hit<P>(&self, probe: &P, t_min: Scalar, t_max: Scalar) -> (hit: Option<HitRecord>) where
        P: Fn(usize, Scalar, Scalar) -> Option<HitRecord>,

        requires
            may_ask(probe, self.hittables@.to_set()),
        ensures
            exists|answers: Seq<Option<HitRecord>>| #[trigger]
                may_answer(probe, self.hittables@, t_min, t_max, answers) && hit == closest_of(
                    answers,
                ),
            forall|answer: Probe|
                answers_as(probe, answer, self.hittables@.to_set()) ==> hit == #[trigger] scan(
                    self.hittables@,
                    answer,
                    t_min,
                    t_max,
                ),
    {
        search(&self.hittables, probe, t_min, t_max)
    }

    /// The box around the whole list.
    pub fn bounding_box(&self) -> (b: Option<AABB>)
        ensures
            b == Some(self.list_boundaries),
    {
        Some(self.list_boundaries)
    }
}

/// A rectangle in a plane of constant z: it spans `min` to `max` in x and y
/// and lies at z = `k`.
#[derive(Clone, Copy, Debug, PartialEq, Eq, Structural)]
pub struct XyPlane {
    pub min: Vec2,
    pub max: Vec2,
    pub k: Scalar,
    pub material: usize,
}

/// A rectangle in a plane of constant y: it spans `min` to `max` in x and z
/// and lies at y = `k`.
#[derive(Clone, Copy, Debug, PartialEq, Eq, Structural)]
pub struct XzPlane {
    pub min: Vec2,
    pub max: Vec2,
    pub k: Scalar,
    pub material: usize,
}

/// A rectangle in a plane of constant x: it spans `min` to `max` in y and z
/// and lies at x = `k`.
#[derive(Clone, Copy, Debug, PartialEq, Eq, Structural)]
pub struct YzPlane {
    pub min: Vec2,
    pub max: Vec2,
    pub k: Scalar,
    pub material: usize,
}

/// Where the line of a ray crosses the plane of a rectangle: the distance
/// `t` along the ray, the point `p`, the inner product `facing` of the ray's
/// direction and the plane's normal, and the place `u`, `v` of the point
/// between the rectangle's edges.
#[derive(Clone, Copy, Debug, PartialEq, Eq, Structural)]
pub struct Crossing {
    pub t: Scalar,
    pub p: Vec3,
    pub facing: Scalar,
    pub u: Scalar,
    pub v: Scalar,
}

/// The crossing is a hit: it lies between `t_min` and `t_max`, and the two
/// coordinates `a` and `b` of its point in the plane lie between the
/// rectangle's edges. The ends count.
pub open spec fn lands(
    min: Vec2,
    max: Vec2,
    t: Scalar,
    a: Scalar,
    b: Scalar,
    t_min: Scalar,
    t_max: Scalar,
) -> bool {
    t_min <= t <= t_max && min.x <= a <= max.x && min.y <= b <= max.y
}

/// The record of a crossing of a rectangle of `material` whose normal is
/// `normal`, turned against the ray.
pub open spec fn record_of(crossing: Crossing, normal: Vec3, material: usize) -> HitRecord {
    HitRecord {
        t: crossing.t,
        p: crossing.p,
        normal: if crossing.facing < 0 {
            normal
        } else {
            normal.neg_spec()
        },
        front_facing: crossing.facing < 0,
        material,
        u: crossing.u,
        v: crossing.v,
    }
}

impl XyPlane {
    /// The hit of a ray that crosses the plane at `crossing`, if that lies
    /// between `t_min` and `t_max` and within the rectangle. The normal is
    /// one along z.
    pub fn hit(&self, crossing: &Crossing, t_min: Scalar, t_max: Scalar) -> (hit: Option<
        HitRecord,
    >)
        ensures
            hit == if lands(
                self.min,
                self.max,
                crossing.t,
                crossing.p.x,
                crossing.p.y,
                t_min,
                t_max,
            ) {
                Some(record_of(*crossing, Vec3 { x: 0, y: 0, z: ONE }, self.material))
            } else {
                None
            },
    {
        let t = crossing.t;
        if t < t_min || t > t_max {
            return None;
        }
        let x = crossing.p.x;
        let y = crossing.p.y;
        if x < self.min.x || x > self.max.x || y < self.min.y || y > self.max.y {
            return None;
        }
        Some(
            HitRecord::from_uv(
                t,
                crossing.p,
                crossing.facing,
                Vec3::new(0, 0, ONE),
                self.material,
                crossing.u,
                crossing.v,
            ),
        )
    }

    /// The box around the rectangle, from `below` to `above` across the
    /// plane: the caller gives the plane's place less and plus a small
    /// thickness, so that the box has a volume.
    pub fn bounding_box(&self, below: Scalar, above: Scalar) -> (b: Option<AABB>)
        requires
            self.is_ordered(),
            below <= self.k <= above,
        ensures
            b == Some(self.box_between(below, above)),
            self.box_between(below, above).is_ordered(),
    {
        Some(
            AABB {
                min: Vec3::new(self.min.x, self.min.y, below),
                max: Vec3::new(self.max.x, self.max.y, above),
            },
        )
    }

    /// The edges of the rectangle are in order: it holds a point.
    pub open spec fn is_ordered(self) -> bool {
        self.min.x <= self.max.x && self.min.y <= self.max.y
    }

    /// The box around the rectangle that reaches from `below` to `above`
    /// along z.
    pub open spec fn box_between(self, below: Scalar, above: Scalar) -> AABB {
        AABB {
            min: Vec3 { x: self.min.x, y: self.min.y, z: below },
            max: Vec3 { x: self.max.x, y: self.max.y, z: above },
        }
    }

    /// No box of a rectangle is too small: where a crossing is a hit, its
    /// point lies within every box of the rectangle that holds the point's
    /// place across the plane.
    pub proof fn lemma_hit_within_box(
        self,
        crossing: Crossing,
        t_min: Scalar,
        t_max: Scalar,
        below: Scalar,
        above: Scalar,
    )
        requires
            lands(self.min, self.max, crossing.t, crossing.p.x, crossing.p.y, t_min, t_max),
            below <= crossing.p.z <= above,
        ensures
            self.box_between(below, above).holds(crossing.p),
            self.is_ordered(),
    {
    }
}


impl XzPlane {
    /// The hit of a ray that crosses the plane at `crossing`, if that lies
    /// between `t_min` and `t_max` and within the rectangle. The normal is
    /// one along y.
    pub fn hit(&self, crossing: &Crossing, t_min: Scalar, t_max: Scalar) -> (hit: Option<
        HitRecord,
    >)
        ensures
            hit == if lands(
                self.min,
                self.max,
                crossing.t,
                crossing.p.x,
                crossing.p.z,
                t_min,
                t_max,
            ) {
                Some(record_of(*crossing, Vec3 { x: 0, y: ONE, z: 0 }, self.material))
            } else {
                None
            },
    {
        let t = crossing.t;
        if t < t_min || t > t_max {
            return None;
        }
        let x = crossing.p.x;
        let z = crossing.p.z;
        if x < self.min.x || x > self.max.x || z < self.min.y || z > self.max.y {
            return None;
        }
        Some(
            HitRecord::from_uv(
                t,
                crossing.p,
                crossing.facing,
                Vec3::new(0, ONE, 0),
                self.material,
                crossing.u,
                crossing.v,
            ),
        )
    }

    /// The box around the rectangle, from `below` to `above` across the
    /// plane: the caller gives the plane's place less and plus a small
    /// thickness, so that the box has a volume.
    pub fn bounding_box(&self, below: Scalar, above: Scalar) -> (b: Option<AABB>)
        requires
            self.is_ordered(),
            below <= self.k <= above,
        ensures
            b == Some(self.box_between(below, above)),
            self.box_between(below, above).is_ordered(),
    {
        Some(
            AABB {
                min: Vec3::new(self.min.x, below, self.min.y),
                max: Vec3::new(self.max.x, above, self.max.y),
            },
        )
    }

    /// The edges of the rectangle are in order: it holds a point.
    pub open spec fn is_ordered(self) -> bool {
        self.min.x <= self.max.x && self.min.y <= self.max.y
    }

    /// The box around the rectangle that reaches from `below` to `above`
    /// along y.
    pub open spec fn box_between(self, below: Scalar, above: Scalar) -> AABB {
        AABB {
            min: Vec3 { x: self.min.x, y: below, z: self.min.y },
            max: Vec3 { x: self.max.x, y: above, z: self.max.y },
        }
    }

    /// No box of a rectangle is too small: where a crossing is a hit, its
    /// point lies within every box of the rectangle that holds the point's
    /// place across the plane.
    pub proof fn lemma_hit_within_box(
        self,
        crossing: Crossing,
        t_min: Scalar,
        t_max: Scalar,
        below: Scalar,
        above: Scalar,
    )
        requires
            lands(self.min, self.max, crossing.t, crossing.p.x, crossing.p.z, t_min, t_max),
            below <= crossing.p.y <= above,
        ensures
            self.box_between(below, above).holds(crossing.p),
            self.is_ordered(),
    {
    }
}


impl YzPlane {
    /// The hit of a ray that crosses the plane at `crossing`, if that lies
    /// between `t_min` and `t_max` and within the rectangle. The normal is
    /// one along x.
    pub fn hit(&self, crossing: &Crossing, t_min: Scalar, t_max: Scalar) -> (hit: Option<
        HitRecord,
    >)
        ensures
            hit == if lands(
                self.min,
                self.max,
                crossing.t,
                crossing.p.y,
                crossing.p.z,
                t_min,
                t_max,
            ) {
                Some(record_of(*crossing, Vec3 { x: ONE, y: 0, z: 0 }, self.material))
            } else {
                None
            },
    {
        let t = crossing.t;
        if t < t_min || t > t_max {
            return None;
        }
        let y = crossing.p.y;
        let z = crossing.p.z;
        if y < self.min.x || y > self.max.x || z < self.min.y || z > self.max.y {
            return None;
        }
        Some(
            HitRecord::from_uv(
                t,
                crossing.p,
                crossing.facing,
                Vec3::new(ONE, 0, 0),
                self.material,
                crossing.u,
                crossing.v,
            ),
        )
    }

    /// The box around the rectangle, from `below` to `above` across the
    /// plane: the caller gives the plane's place less and plus a small
    /// thickness, so that the box has a volume.
    pub fn bounding_box(&self, below: Scalar, above: Scalar) -> (b: Option<AABB>)
        requires
            self.is_ordered(),
            below <= self.k <= above,
        ensures
            b == Some(self.box_between(below, above)),
            self.box_between(below, above).is_ordered(),
    {
        Some(
            AABB {
                min: Vec3::new(below, self.min.x, self.min.y),
                max: Vec3::new(above, self.max.x, self.max.y),
            },
        )
    }

    /// The edges of the rectangle are in order: it holds a point.
    pub open spec fn is_ordered(self) -> bool {
        self.min.x <= self.max.x && self.min.y <= self.max.y
    }

    /// The box around the rectangle that reaches from `below` to `above`
    /// along x.
    pub open spec fn box_between(self, below: Scalar, above: Scalar) -> AABB {
        AABB {
            min: Vec3 { x: below, y: self.min.x, z: self.min.y },
            max: Vec3 { x: above, y: self.max.x, z: self.max.y },
        }
    }

    /// No box of a rectangle is too small: where a crossing is a hit, its
    /// point lies within every box of the rectangle that holds the point's
    /// place across the plane.
    pub proof fn lemma_hit_within_box(
        self,
        crossing: Crossing,
        t_min: Scalar,
        t_max: Scalar,
        below: Scalar,
        above: Scalar,
    )
        requires
            lands(self.min, self.max, crossing.t, crossing.p.y, crossing.p.z, t_min, t_max),
            below <= crossing.p.x <= above,
        ensures
            self.box_between(below, above).holds(crossing.p),
            self.is_ordered(),
    {
    }
}


/// The root that a search between `t_min` and `t_max` takes of the two
/// distances `near` and `far` at which the line of a ray crosses a sphere:
/// the first of them where it lies in between, else the second where that
/// does. Where the `discriminant` of the crossing is below zero, the line
/// misses the sphere and there is no root.
pub open spec fn chosen_root(
    discriminant: Scalar,
    near: Scalar,
    far: Scalar,
    t_min: Scalar,
    t_max: Scalar,
) -> Option<Scalar> {
    if discriminant < 0 {
        None
    } else if t_min <= near <= t_max {
        Some(near)
    } else if t_min <= far <= t_max {
        Some(far)
    } else {
        None
    }
}

/// Where between `t_min` and `t_max` a ray meets a sphere that its line
/// crosses at the distances `near` and `far`, if the `discriminant` of the
/// crossing is not below zero.
pub fn ray_sphere_intersection(
    discriminant: Scalar,
    near: Scalar,
    far: Scalar,
    t_min: Scalar,
    t_max: Scalar,
) -> (root: Option<Scalar>)
    ensures
        root == chosen_root(discriminant, near, far, t_min, t_max),
{
    if discriminant < 0 {
        return None;
    }
    let mut root = near;
    if root < t_min || root > t_max {
        root = far;
        if root < t_min || root > t_max {
            return None;
        }
    }
    Some(root)
}

/// A sphere answers with its first meeting point: where the roots are in
/// order, the chosen root lies between the distances that the search went
/// over, and it stays the chosen root however much further the search goes.
pub proof fn lemma_chosen_root_is_first(
    discriminant: Scalar,
    near: Scalar,
    far: Scalar,
    t_min: Scalar,
    t_max: Scalar,
    further: Scalar,
)
    requires
        near <= far,
    ensures
        chosen_root(discriminant, near, far, t_min, t_max) matches Some(root) ==> t_min <= root
            <= t_max && (root <= further ==> chosen_root(discriminant, near, far, t_min, further)
            == Some(root)),
{
}

/// One side of a box.
#[derive(Clone, Copy, Debug, PartialEq, Eq, Structural)]
pub enum Side {
    Xy(XyPlane),
    Xz(XzPlane),
    Yz(YzPlane),
}

impl Side {
    /// The crossing is a hit of this side between `t_min` and `t_max`.
    pub open spec fn lands(self, crossing: Crossing, t_min: Scalar, t_max: Scalar) -> bool {
        match self {
            Side::Xy(plane) => lands(
                plane.min,
                plane.max,
                crossing.t,
                crossing.p.x,
                crossing.p.y,
                t_min,
                t_max,
            ),
            Side::Xz(plane) => lands(
                plane.min,
                plane.max,
                crossing.t,
                crossing.p.x,
                crossing.p.z,
                t_min,
                t_max,
            ),
            Side::Yz(plane) => lands(
                plane.min,
                plane.max,
                crossing.t,
                crossing.p.y,
                crossing.p.z,
                t_min,
                t_max,
            ),
        }
    }

    /// The point `p` lies in the plane of this side.
    pub open spec fn in_plane(self, p: Vec3) -> bool {
        match self {
            Side::Xy(plane) => p.z == plane.k,
            Side::Xz(plane) => p.y == plane.k,
            Side::Yz(plane) => p.x == plane.k,
        }
    }

    /// The record of a crossing of this side, where it is a hit.
    pub open spec fn record(self, crossing: Crossing) -> HitRecord {
        match self {
            Side::Xy(plane) => record_of(crossing, Vec3 { x: 0, y: 0, z: ONE }, plane.material),
            Side::Xz(plane) => record_of(crossing, Vec3 { x: 0, y: ONE, z: 0 }, plane.material),
            Side::Yz(plane) => record_of(crossing, Vec3 { x: ONE, y: 0, z: 0 }, plane.material),
        }
    }

    /// The hit of a ray that crosses the plane of this side at `crossing`,
    /// if that lies between `t_min` and `t_max` and within the rectangle.
    pub fn hit(&self, crossing: &Crossing, t_min: Scalar, t_max: Scalar) -> (hit: Option<HitRecord>)
        ensures
            hit == if self.lands(*crossing, t_min, t_max) {
                Some(self.record(*crossing))
            } else {
                None
            },
    {
        match self {
            Side::Xy(plane) => plane.hit(crossing, t_min, t_max),
            Side::Xz(plane) => plane.hit(crossing, t_min, t_max),
            Side::Yz(plane) => plane.hit(crossing, t_min, t_max),
        }
    }
}

/// The six sides of the box between the corners `min` and `max`: the two
/// of constant z, the two of constant y, the two of constant x, of each pair
/// the one through `min` first.
pub open spec fn sides_of(min: Vec3, max: Vec3, material: usize) -> Seq<Side> {
    seq![
        Side::Xy(
            XyPlane {
                min: Vec2 { x: min.x, y: min.y },
                max: Vec2 { x: max.x, y: max.y },
                k: min.z,
                material,
            },
        ),
        Side::Xy(
            XyPlane {
                min: Vec2 { x: min.x, y: min.y },
                max: Vec2 { x: max.x, y: max.y },
                k: max.z,
                material,
            },
        ),
        Side::Xz(
            XzPlane {
                min: Vec2 { x: min.x, y: min.z },
                max: Vec2 { x: max.x, y: max.z },
                k: min.y,
                material,
            },
        ),
        Side::Xz(
            XzPlane {
                min: Vec2 { x: min.x, y: min.z },
                max: Vec2 { x: max.x, y: max.z },
                k: max.y,
                material,
            },
        ),
        Side::Yz(
            YzPlane {
                min: Vec2 { x: min.y, y: min.z },
                max: Vec2 { x: max.y, y: max.z },
                k: min.x,
                material,
            },
        ),
        Side::Yz(
            YzPlane {
                min: Vec2 { x: min.y, y: min.z },
                max: Vec2 { x: max.y, y: max.z },
                k: max.x,
                material,
            },
        ),
    ]
}

/// The places of the first `count` items of a list.
pub open spec fn places(count: nat) -> Seq<usize> {
    Seq::new(count, |i: int| i as usize)
}

/// A box of six rectangles, all of one material, and the box around them,
/// which is the box between the two corners it was made from.
#[derive(Debug)]
pub struct Cube {
    pub sides: Vec<Side>,
    pub bbox: AABB,
}

/// The places of the first `count` items of a list, in a row.
pub fn first_places(count: usize) -> (all: Vec<usize>)
    ensures
        all@ == places(count as nat),
{
    let mut all: Vec<usize> = Vec::new();
    let mut next: usize = 0;
    while next < count
        invariant
            next <= count,
            all@ == places(next as nat),
        decreases count - next,
    {
        all.push(next);
        next += 1;
        assert(all@ =~= places(next as nat));
    }
    all
}

impl Cube {
    /// The box between the corners `min` and `max`, of which `min` is the
    /// least on every axis, with all six sides of `material`.
    pub fn new(min: Vec3, max: Vec3, material: usize) -> (cube: Cube)
        requires
            min.le(max),
        ensures
            cube.sides@ == sides_of(min, max, material),
            cube.bbox == (AABB { min, max }),
            cube.bbox.is_ordered(),
    {
        let mut side_vec: Vec<Side> = Vec::new();
        side_vec.push(Side::Xy(XyPlane { min: min.xy(), max: max.xy(), k: min.z, material }));
        side_vec.push(Side::Xy(XyPlane { min: min.xy(), max: max.xy(), k: max.z, material }));
        side_vec.push(Side::Xz(XzPlane { min: min.xz(), max: max.xz(), k: min.y, material }));
        side_vec.push(Side::Xz(XzPlane { min: min.xz(), max: max.xz(), k: max.y, material }));
        side_vec.push(Side::Yz(YzPlane { min: min.yz(), max: max.yz(), k: min.x, material }));
        side_vec.push(Side::Yz(YzPlane { min: min.yz(), max: max.yz(), k: max.x, material }));
        assert(side_vec@ =~= sides_of(min, max, material));
        Cube { sides: side_vec, bbox: AABB::new(min, max) }
    }

    /// Searches the sides for the closest hit between `t_min` and `t_max`. `probe` tells where the ray meets a side, named by its place
    /// among the sides, between two distances.
    pub fn hit<P>(&self, probe: &P, t_min: Scalar, t_max: Scalar) -> (hit: Option<HitRecord>) where
        P: Fn(usize, Scalar, Scalar) -> Option<HitRecord>,

        requires
            may_ask(probe, places(self.sides@.len()).to_set()),
        ensures
            exists|answers: Seq<Option<HitRecord>>| #[trigger]
                may_answer(probe, places(self.sides@.len()), t_min, t_max, answers) && hit
                    == closest_of(answers),
            forall|answer: Probe|
                answers_as(probe, answer, places(self.sides@.len()).to_set()) ==> hit
                    == #[trigger] scan(places(self.sides@.len()), answer, t_min, t_max),
    {
        let all = first_places(self.sides.len());
        search(&all, probe, t_min, t_max)
    }

    /// The box of a cube is not too small: where a crossing is a hit of one
    /// of the six sides and its point lies in the plane of that side, the
    /// point lies within the box between the two corners.
    pub proof fn lemma_side_hit_within_box(
        min: Vec3,
        max: Vec3,
        material: usize,
        side: int,
        crossing: Crossing,
        t_min: Scalar,
        t_max: Scalar,
    )
        requires
            min.le(max),
            0 <= side < 6,
            sides_of(min, max, material)[side].lands(crossing, t_min, t_max),
            sides_of(min, max, material)[side].in_plane(crossing.p),
        ensures
            (AABB { min, max }).holds(crossing.p),
    {
    }

    /// The box between the two corners the cube was made from.
    pub fn bounding_box(&self) -> (b: Option<AABB>)
        ensures
            b == Some(self.bbox),
    {
        Some(self.bbox)
    }
}

/// Of the closest hit so far and a new one, the new one where it is the
/// first or strictly closer, and else the one so far.
pub fn closer_of(closest: Option<HitRecord>, found: Option<HitRecord>) -> (kept: Option<HitRecord>)
    ensures
        kept == closer(closest, found),
{
    match found {
        Some(record) => match closest {
            Some(so_far) => if record.t < so_far.t {
                Some(record)
            } else {
                closest
            },
            None => Some(record),
        },
        None => closest,
    }
}

/// A hit lies between the distances that the search went over, and it stays
/// the answer however much further the search goes: each primitive of
/// `among` answers with its first meeting point, where that is within reach.
pub open spec fn answers_nearest_first(answer: Probe, among: Set<usize>) -> bool {
    forall|i: usize, lo: Scalar, hi: Scalar, further: Scalar|
        among.contains(i) ==> match #[trigger] answer(i, lo, hi) {
            Some(record) => lo <= record.t <= hi && (record.t <= further ==> #[trigger] answer(
                i,
                lo,
                further,
            ) == Some(record)),
            None => true,
        }
}

/// No box of a primitive of `among` is too small: where the ray meets the
/// primitive, it crosses the primitive's box.
pub open spec fn boxes_are_safe(
    test: BoxTest,
    answer: Probe,
    boxes: Seq<Option<AABB>>,
    among: Set<usize>,
) -> bool {
    forall|i: usize, lo: Scalar, hi: Scalar|
        among.contains(i) && (#[trigger] answer(i, lo, hi)) is Some ==> i < boxes.len() && test(
            box_or_zero(boxes[i as int]),
            lo,
            hi,
        )
}

/// A ray that crosses a box crosses every box around it.
pub open spec fn test_grows_with_box(test: BoxTest) -> bool {
    forall|outer: AABB, inner: AABB, lo: Scalar, hi: Scalar|
        #[trigger] outer.contains(inner) && #[trigger] test(inner, lo, hi) ==> test(outer, lo, hi)
}

/// `found` is a closest hit among the primitives of `among`: nothing, where
/// none of them is met, and else the answer of one of them, with none of
/// them met at a lesser distance.
pub open spec fn is_closest(
    found: Option<HitRecord>,
    among: Set<usize>,
    answer: Probe,
    t_min: Scalar,
    t_max: Scalar,
) -> bool {
    match found {
        Some(record) => {
            &&& exists|i: usize| among.contains(i) && #[trigger] answer(i, t_min, t_max) == found
            &&& forall|i: usize|
                among.contains(i) ==> match #[trigger] answer(i, t_min, t_max) {
                    Some(other) => record.t <= other.t,
                    None => true,
                }
        },
        None => forall|i: usize| among.contains(i) ==> (#[trigger] answer(i, t_min, t_max)) is None,
    }
}

/// Where a ray is at a distance is one point, whichever primitive it meets
/// there: answers about primitives of `among` at one distance name one
/// point.
pub open spec fn point_follows_distance(answer: Probe, among: Set<usize>) -> bool {
    forall|i: usize, j: usize, lo: Scalar, hi: Scalar|
        among.contains(i) && among.contains(j) ==> match (
            #[trigger] answer(i, lo, hi),
            #[trigger] answer(j, lo, hi),
        ) {
            (Some(one), Some(other)) => one.t == other.t ==> one.p == other.p,
            _ => true,
        }
}

/// Two searches agree on where the ray met something: both met nothing, or
/// both met something at the same distance and point.
pub open spec fn same_place(a: Option<HitRecord>, b: Option<HitRecord>) -> bool {
    match (a, b) {
        (Some(x), Some(y)) => x.t == y.t && x.p == y.p,
        (None, None) => true,
        _ => false,
    }
}

/// A closest hit lies within reach, where the primitives answer with hits
/// within reach.
pub proof fn lemma_closest_is_within_reach(
    found: Option<HitRecord>,
    among: Set<usize>,
    answer: Probe,
    t_min: Scalar,
    t_max: Scalar,
)
    requires
        is_closest(found, among, answer, t_min, t_max),
        answers_nearest_first(answer, among),
    ensures
        found matches Some(record) ==> t_min <= record.t <= t_max,
{
    if found is Some {
        let at = choose|i: usize| among.contains(i) && #[trigger] answer(i, t_min, t_max) == found;
    }
}

/// Two searches agree: both met nothing, or both met something at the same
/// distance.
pub open spec fn same_distance(a: Option<HitRecord>, b: Option<HitRecord>) -> bool {
    match (a, b) {
        (Some(x), Some(y)) => x.t == y.t,
        (None, None) => true,
        _ => false,
    }
}

/// A search through a list returns a closest hit among the items of the
/// list.
pub proof fn lemma_scan_is_closest(items: Seq<usize>, answer: Probe, t_min: Scalar, t_max: Scalar)
    ensures
        is_closest(scan(items, answer, t_min, t_max), items.to_set(), answer, t_min, t_max),
    decreases items.len(),
{
    let among = items.to_set();
    if items.len() > 0 {
        let shorter = items.drop_last();
        lemma_scan_is_closest(shorter, answer, t_min, t_max);
        let before = scan(shorter, answer, t_min, t_max);
        let found = scan(items, answer, t_min, t_max);
        assert forall|i: usize| among.contains(i) implies shorter.to_set().contains(i) || i
            == items.last() by {
            let k = choose|k: int| 0 <= k < items.len() && items[k] == i;
            if k < items.len() - 1 {
                assert(shorter[k] == i);
            }
        }
        assert forall|i: usize| shorter.to_set().contains(i) implies among.contains(i) by {
            let k = choose|k: int| 0 <= k < shorter.len() && shorter[k] == i;
            assert(items[k] == i);
        }
        assert(among.contains(items.last())) by {
            assert(items[items.len() - 1] == items.last());
        }
        match found {
            Some(record) => {
                if found == before {
                    let at = choose|i: usize|
                        shorter.to_set().contains(i) && #[trigger] answer(i, t_min, t_max)
                            == before;
                    assert(among.contains(at));
                } else {
                    assert(answer(items.last(), t_min, t_max) == found);
                }
            },
            None => {},
        }
    }
}

/// The box of a list lies around the origin.
pub proof fn lemma_bounds_contain_origin(boxes: Seq<Option<AABB>>)
    ensures
        bounds_of(boxes).contains(AABB::zeros_spec()),
    decreases boxes.len(),
{
    if boxes.len() > 0 {
        let shorter = boxes.drop_last();
        lemma_bounds_contain_origin(shorter);
        if let Some(other) = boxes.last() {
            AABB::lemma_union_contains(bounds_of(shorter), other);
            AABB::lemma_contains_transitive(
                bounds_of(boxes),
                bounds_of(shorter),
                AABB::zeros_spec(),
            );
        }
    }
}

/// The box of a list lies around the box of each of its primitives.
pub proof fn lemma_bounds_contain(boxes: Seq<Option<AABB>>, i: int)
    requires
        0 <= i < boxes.len(),
    ensures
        bounds_of(boxes).contains(box_or_zero(boxes[i])),
    decreases boxes.len(),
{
    let shorter = boxes.drop_last();
    lemma_bounds_contain_origin(shorter);
    if i < shorter.len() {
        lemma_bounds_contain(shorter, i);
    }
    if let Some(other) = boxes.last() {
        AABB::lemma_union_contains(bounds_of(shorter), other);
        if i < shorter.len() {
            AABB::lemma_contains_transitive(
                bounds_of(boxes),
                bounds_of(shorter),
                box_or_zero(boxes[i]),
            );
        }
    }
}

/// A ray that misses the box of a list meets no primitive of the list,
/// provided that no primitive's box is too small and that a ray that crosses
/// a box crosses the boxes around it.
pub proof fn lemma_miss_bounds_miss_all(
    boxes: Seq<Option<AABB>>,
    test: BoxTest,
    answer: Probe,
    t_min: Scalar,
    t_max: Scalar,
    i: usize,
)
    requires
        i < boxes.len(),
        boxes_are_safe(test, answer, boxes, places(boxes.len()).to_set()),
        test_grows_with_box(test),
        !test(bounds_of(boxes), t_min, t_max),
    ensures
        answer(i, t_min, t_max) is None,
{
    lemma_bounds_contain(boxes, i as int);
    assert(places(boxes.len()).to_set().contains(i)) by {
        assert(places(boxes.len())[i as int] == i);
        assert(places(boxes.len()).contains(i));
    }
    if answer(i, t_min, t_max) is Some {
        assert(test(box_or_zero(boxes[i as int]), t_min, t_max));
        assert(bounds_of(boxes).contains(box_or_zero(boxes[i as int])));
    }
}

/// Every box that `boxes` lists is ordered: none has an axis turned round.
pub open spec fn all_ordered(boxes: Seq<Option<AABB>>) -> bool {
    forall|i: int| 0 <= i < boxes.len() ==> box_or_zero(#[trigger] boxes[i]).is_ordered()
}

/// The box of a list of ordered boxes is ordered.
pub proof fn lemma_bounds_ordered(boxes: Seq<Option<AABB>>)
    requires
        all_ordered(boxes),
    ensures
        bounds_of(boxes).is_ordered(),
    decreases boxes.len(),
{
    if boxes.len() > 0 {
        let shorter = boxes.drop_last();
        assert forall|i: int| 0 <= i < shorter.len() implies box_or_zero(
            #[trigger] shorter[i],
        ).is_ordered() by {
            assert(shorter[i] == boxes[i]);
        }
        lemma_bounds_ordered(shorter);
        if let Some(other) = boxes.last() {
            assert(box_or_zero(boxes[boxes.len() - 1]).is_ordered());
            AABB::lemma_union_ordered(bounds_of(shorter), other);
        }
    }
}

} // verus!

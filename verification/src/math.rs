use vstd::prelude::*;

verus! {

/// A real quantity (a coordinate, a distance along a ray, a colour channel)
/// held as a signed key. Of two quantities the smaller has the smaller key,
/// zero has key 0, and the key of the opposite quantity is the opposite key,
/// so that no quantity has the key `i64::MIN`. Nothing in this library adds
/// or multiplies such quantities: it compares them, turns their sign and
/// carries them along. [`key_of_bits`] makes the key of a binary64 number
/// from its bit pattern, and [`bits_of_key`] the pattern from the key.
pub type Scalar = i64;

/// The key of one.
pub const ONE: Scalar = 0x3ff0_0000_0000_0000;

/// The key of the infinite: no number has a greater key.
pub const INFINITY: Scalar = 0x7ff0_0000_0000_0000;

/// The size of the number whose binary64 pattern is `bits`: the pattern
/// without its sign bit, read as an integer. Of two numbers of one sign the
/// one of the greater size has the greater pattern.
pub open spec fn size_of_bits(bits: u64) -> int {
    if bits >= 0x8000_0000_0000_0000 {
        bits - 0x8000_0000_0000_0000
    } else {
        bits as int
    }
}

/// The key of the number whose binary64 pattern is `bits`: its size, with
/// the sign that the sign bit gives. Both zeros have the key 0.
pub open spec fn key_of_bits_spec(bits: u64) -> int {
    if bits >= 0x8000_0000_0000_0000 {
        -size_of_bits(bits)
    } else {
        size_of_bits(bits)
    }
}

/// The key of the number whose binary64 pattern is `bits`.
pub fn key_of_bits(bits: u64) -> (key: Scalar)
    ensures
        key == key_of_bits_spec(bits),
        key > i64::MIN,
{
    let size = bits & 0x7fff_ffff_ffff_ffff;
    assert(size <= 0x7fff_ffff_ffff_ffff && (bits >= 0x8000_0000_0000_0000 ==> size == bits
        - 0x8000_0000_0000_0000) && (bits < 0x8000_0000_0000_0000 ==> size == bits))
        by (bit_vector)
        requires
            size == bits & 0x7fff_ffff_ffff_ffff,
    ;
    if bits >= 0x8000_0000_0000_0000 {
        -(size as i64)
    } else {
        size as i64
    }
}

/// The binary64 pattern of the number with the key `key`; for the key 0,
/// the pattern of the zero without a sign.
pub fn bits_of_key(key: Scalar) -> (bits: u64)
    requires
        key > i64::MIN,
    ensures
        key_of_bits_spec(bits) == key,
        bits == if key < 0 {
            0x8000_0000_0000_0000 - key
        } else {
            key as int
        },
{
    if key < 0 {
        (-key) as u64 + 0x8000_0000_0000_0000
    } else {
        key as u64
    }
}

/// A pattern is found again from its key, but for the zero with a sign,
/// whose key is that of the zero without.
pub proof fn lemma_bits_of_key_of_bits(bits: u64)
    requires
        bits != 0x8000_0000_0000_0000,
    ensures
        key_of_bits_spec(bits) > i64::MIN,
        (if key_of_bits_spec(bits) < 0 {
            0x8000_0000_0000_0000 - key_of_bits_spec(bits)
        } else {
            key_of_bits_spec(bits)
        }) == bits,
{
}

/// Turning the sign bit of a pattern turns the sign of its key.
pub proof fn lemma_key_of_opposite(bits: u64, opposite: u64)
    requires
        opposite == bits ^ 0x8000_0000_0000_0000,
    ensures
        key_of_bits_spec(opposite) == -key_of_bits_spec(bits),
        size_of_bits(opposite) == size_of_bits(bits),
{
    assert((bits >= 0x8000_0000_0000_0000 ==> opposite == bits - 0x8000_0000_0000_0000) && (bits
        < 0x8000_0000_0000_0000 ==> opposite == bits + 0x8000_0000_0000_0000)) by (bit_vector)
        requires
            opposite == bits ^ 0x8000_0000_0000_0000,
    ;
}

/// Keys are ordered as the numbers are: of two patterns without a sign the
/// greater has the greater key, of two with a sign the greater has the
/// lesser key, and no key of a pattern with a sign lies above one without.
pub proof fn lemma_keys_are_ordered(a: u64, b: u64)
    ensures
        a < 0x8000_0000_0000_0000 && b < 0x8000_0000_0000_0000 ==> (a <= b <==> key_of_bits_spec(a)
            <= key_of_bits_spec(b)),
        a >= 0x8000_0000_0000_0000 && b >= 0x8000_0000_0000_0000 ==> (a <= b <==> key_of_bits_spec(
            a,
        ) >= key_of_bits_spec(b)),
        a >= 0x8000_0000_0000_0000 && b < 0x8000_0000_0000_0000 ==> key_of_bits_spec(a)
            <= key_of_bits_spec(b),
{
}

#[derive(Clone, Copy, Debug, PartialEq, Eq, Structural)]
pub struct Vec2 {
    pub x: Scalar,
    pub y: Scalar,
}

#[derive(Clone, Copy, Debug, PartialEq, Eq, Structural)]
pub struct Vec3 {
    pub x: Scalar,
    pub y: Scalar,
    pub z: Scalar,
}

pub open spec fn min_of(a: Scalar, b: Scalar) -> Scalar {
    if a <= b { a } else { b }
}

pub open spec fn max_of(a: Scalar, b: Scalar) -> Scalar {
    if a >= b { a } else { b }
}

impl Vec3 {
    pub open spec fn zeros_spec() -> Vec3 {
        Vec3 { x: 0, y: 0, z: 0 }
    }

    /// The component along `axis`: 0 is x, 1 is y, anything else is z.
    pub open spec fn component(self, axis: u8) -> Scalar {
        if axis == 0 {
            self.x
        } else if axis == 1 {
            self.y
        } else {
            self.z
        }
    }

    /// Every component of `self` is at most the same component of `other`.
    pub open spec fn le(self, other: Vec3) -> bool {
        self.x <= other.x && self.y <= other.y && self.z <= other.z
    }

    /// No component is `i64::MIN`, the one value that is no key.
    pub open spec fn is_keys(self) -> bool {
        self.x > i64::MIN && self.y > i64::MIN && self.z > i64::MIN
    }

    pub open spec fn neg_spec(self) -> Vec3 {
        Vec3 { x: (-self.x) as Scalar, y: (-self.y) as Scalar, z: (-self.z) as Scalar }
    }

    pub open spec fn min_with(self, other: Vec3) -> Vec3 {
        Vec3 { x: min_of(self.x, other.x), y: min_of(self.y, other.y), z: min_of(self.z, other.z) }
    }

    pub open spec fn max_with(self, other: Vec3) -> Vec3 {
        Vec3 { x: max_of(self.x, other.x), y: max_of(self.y, other.y), z: max_of(self.z, other.z) }
    }

    pub fn new(x: Scalar, y: Scalar, z: Scalar) -> (v: Vec3)
        ensures
            v == (Vec3 { x, y, z }),
    {
        Vec3 { x, y, z }
    }

    pub fn zeros() -> (v: Vec3)
        ensures
            v == Vec3::zeros_spec(),
    {
        Vec3 { x: 0, y: 0, z: 0 }
    }

    /// The opposite vector.
    pub fn neg(&self) -> (v: Vec3)
        requires
            self.is_keys(),
        ensures
            v == self.neg_spec(),
            v.x == -self.x,
            v.y == -self.y,
            v.z == -self.z,
    {
        Vec3 { x: -self.x, y: -self.y, z: -self.z }
    }

    pub fn xy(&self) -> (v: Vec2)
        ensures
            v == (Vec2 { x: self.x, y: self.y }),
    {
        Vec2 { x: self.x, y: self.y }
    }

    pub fn xz(&self) -> (v: Vec2)
        ensures
            v == (Vec2 { x: self.x, y: self.z }),
    {
        Vec2 { x: self.x, y: self.z }
    }

    pub fn yz(&self) -> (v: Vec2)
        ensures
            v == (Vec2 { x: self.y, y: self.z }),
    {
        Vec2 { x: self.y, y: self.z }
    }
}

/// The component-wise minimum of two vectors.
pub fn vmin(a: &Vec3, b: &Vec3) -> (r: Vec3)
    ensures
        r == a.min_with(*b),
{
    Vec3 {
        x: if a.x <= b.x { a.x } else { b.x },
        y: if a.y <= b.y { a.y } else { b.y },
        z: if a.z <= b.z { a.z } else { b.z },
    }
}

/// The component-wise maximum of two vectors.
pub fn vmax(a: &Vec3, b: &Vec3) -> (r: Vec3)
    ensures
        r == a.max_with(*b),
{
    Vec3 {
        x: if a.x >= b.x { a.x } else { b.x },
        y: if a.y >= b.y { a.y } else { b.y },
        z: if a.z >= b.z { a.z } else { b.z },
    }
}

/// Where the line of a ray meets the two planes that bound a box along one
/// axis: the plane of the least corner at the distance `t0`, that of the
/// greatest at `t1`. `inverse` is the inverse of the ray's direction along
/// the axis: below zero, the ray runs from the greatest to the least.
#[derive(Clone, Copy, Debug, PartialEq, Eq, Structural)]
pub struct Slab {
    pub t0: Scalar,
    pub t1: Scalar,
    pub inverse: Scalar,
}

impl Slab {
    /// Where the ray enters the slab.
    pub open spec fn entry(self) -> Scalar {
        if self.inverse < 0 {
            self.t1
        } else {
            self.t0
        }
    }

    /// Where the ray leaves the slab.
    pub open spec fn exit(self) -> Scalar {
        if self.inverse < 0 {
            self.t0
        } else {
            self.t1
        }
    }
}

/// An axis-aligned box, given by its least and its greatest corner.
///
/// A box is ordered ([`AABB::is_ordered`]): on no axis does the least corner
/// lie above the greatest. [`AABB::new`] and [`AABB::zeros`] make ordered
/// boxes, and the union of ordered boxes is ordered.
#[derive(Clone, Copy, Debug, PartialEq, Eq, Structural)]
pub struct AABB {
    pub min: Vec3,
    pub max: Vec3,
}

impl AABB {
    /// On every axis the least corner is at or below the greatest. A box of
    /// no thickness is ordered.
    pub open spec fn is_ordered(self) -> bool {
        self.min.le(self.max)
    }

    /// The box of no size at the origin.
    pub open spec fn zeros_spec() -> AABB {
        AABB { min: Vec3::zeros_spec(), max: Vec3::zeros_spec() }
    }

    /// The smallest box around both `self` and `other`.
    pub open spec fn union_spec(self, other: AABB) -> AABB {
        AABB { min: self.min.min_with(other.min), max: self.max.max_with(other.max) }
    }

    /// The point `p` lies within the box, its faces included.
    pub open spec fn holds(self, p: Vec3) -> bool {
        self.min.le(p) && p.le(self.max)
    }

    /// `inner` lies within `self`: on every axis `self` starts no later and
    /// ends no earlier.
    pub open spec fn contains(self, inner: AABB) -> bool {
        self.min.le(inner.min) && inner.max.le(self.max)
    }

    /// The ray passes through the slab between `t_min` and `t_max`: it
    /// enters the slab, or sets out at `t_min`, before it leaves the slab or
    /// ends at `t_max`.
    pub open spec fn passes(slab: Slab, t_min: Scalar, t_max: Scalar) -> bool {
        max_of(slab.entry(), t_min) < min_of(slab.exit(), t_max)
    }

    /// Whether the ray passes through the slab between `t_min` and `t_max`.
    pub fn test_component(slab: &Slab, t_min: Scalar, t_max: Scalar) -> (crossed: bool)
        ensures
            crossed == AABB::passes(*slab, t_min, t_max),
    {
        let mut t0 = slab.t0;
        let mut t1 = slab.t1;
        if slab.inverse < 0 {
            let swapped = t0;
            t0 = t1;
            t1 = swapped;
        }
        let t_min = if t0 >= t_min { t0 } else { t_min };
        let t_max = if t1 <= t_max { t1 } else { t_max };
        if t_max <= t_min {
            return false;
        }
        true
    }

    /// Where the ray is within all three slabs first, if it set out at
    /// `t_min`: the latest of its entries and of `t_min`.
    pub open spec fn enters(x: Slab, y: Slab, z: Slab, t_min: Scalar) -> Scalar {
        max_of(max_of(max_of(x.entry(), t_min), y.entry()), z.entry())
    }

    /// Where the ray is within all three slabs last, if it ends at `t_max`:
    /// the earliest of its exits and of `t_max`.
    pub open spec fn leaves(x: Slab, y: Slab, z: Slab, t_max: Scalar) -> Scalar {
        min_of(min_of(min_of(x.exit(), t_max), y.exit()), z.exit())
    }

    /// The ray crosses the box between `t_min` and `t_max`: there is a
    /// stretch of it in between that lies within all three slabs at once.
    pub open spec fn crosses(x: Slab, y: Slab, z: Slab, t_min: Scalar, t_max: Scalar) -> bool {
        AABB::enters(x, y, z, t_min) < AABB::leaves(x, y, z, t_max)
    }

    /// The part of the reach from `t_min` to `t_max` that lies within the
    /// slab: from the entry, or from `t_min` if that is later, to the exit,
    /// or to `t_max` if that is earlier.
    pub fn narrow(slab: &Slab, t_min: Scalar, t_max: Scalar) -> (reach: (Scalar, Scalar))
        ensures
            reach.0 == max_of(slab.entry(), t_min),
            reach.1 == min_of(slab.exit(), t_max),
    {
        let (entry, exit) = if slab.inverse < 0 {
            (slab.t1, slab.t0)
        } else {
            (slab.t0, slab.t1)
        };
        (if entry >= t_min { entry } else { t_min }, if exit <= t_max { exit } else { t_max })
    }

    /// Whether the ray crosses a box between `t_min` and `t_max`, given
    /// where its line passes the slabs of the box along x, y and z. The
    /// reach is narrowed from slab to slab: the ray crosses the box where
    /// something of the reach is left within all three.
    pub fn intersects(x: &Slab, y: &Slab, z: &Slab, t_min: Scalar, t_max: Scalar) -> (crossed: bool)
        ensures
            crossed == AABB::crosses(*x, *y, *z, t_min, t_max),
    {
        if !AABB::test_component(x, t_min, t_max) {
            return false;
        }
        let (t_min, t_max) = AABB::narrow(x, t_min, t_max);
        if !AABB::test_component(y, t_min, t_max) {
            return false;
        }
        let (t_min, t_max) = AABB::narrow(y, t_min, t_max);
        AABB::test_component(z, t_min, t_max)
    }

    /// A ray that crosses a box passes through each of its slabs.
    pub proof fn lemma_crossed_box_is_passed(
        x: Slab,
        y: Slab,
        z: Slab,
        t_min: Scalar,
        t_max: Scalar,
    )
        requires
            AABB::crosses(x, y, z, t_min, t_max),
        ensures
            AABB::passes(x, t_min, t_max),
            AABB::passes(y, t_min, t_max),
            AABB::passes(z, t_min, t_max),
    {
    }

    /// A ray that crosses a box crosses every box around it, each slab of
    /// which it enters no later and leaves no earlier, and does so over
    /// every reach around the one it was held against.
    pub proof fn lemma_wider_box_is_crossed(
        inner: (Slab, Slab, Slab),
        outer: (Slab, Slab, Slab),
        t_min: Scalar,
        t_max: Scalar,
        sooner: Scalar,
        further: Scalar,
    )
        requires
            AABB::crosses(inner.0, inner.1, inner.2, t_min, t_max),
            outer.0.entry() <= inner.0.entry(),
            outer.1.entry() <= inner.1.entry(),
            outer.2.entry() <= inner.2.entry(),
            inner.0.exit() <= outer.0.exit(),
            inner.1.exit() <= outer.1.exit(),
            inner.2.exit() <= outer.2.exit(),
            sooner <= t_min,
            t_max <= further,
        ensures
            AABB::crosses(outer.0, outer.1, outer.2, sooner, further),
    {
    }

    /// A ray that passes through a slab passes through every slab around
    /// it, which it enters no later and leaves no earlier, and does so over
    /// every reach around the one it was held against.
    pub proof fn lemma_wider_slab_is_passed(
        inner: Slab,
        outer: Slab,
        t_min: Scalar,
        t_max: Scalar,
        sooner: Scalar,
        further: Scalar,
    )
        requires
            AABB::passes(inner, t_min, t_max),
            outer.entry() <= inner.entry(),
            inner.exit() <= outer.exit(),
            sooner <= t_min,
            t_max <= further,
        ensures
            AABB::passes(outer, sooner, further),
    {
    }

    /// The box between the corners `min` and `max`, of which `min` is the
    /// least on every axis.
    pub fn new(min: Vec3, max: Vec3) -> (b: AABB)
        requires
            min.le(max),
        ensures
            b == (AABB { min, max }),
            b.is_ordered(),
    {
        AABB { min, max }
    }

    pub fn zeros() -> (b: AABB)
        ensures
            b == AABB::zeros_spec(),
            b.is_ordered(),
    {
        AABB { min: Vec3::zeros(), max: Vec3::zeros() }
    }

    pub fn union(&self, other: &AABB) -> (b: AABB)
        ensures
            b == self.union_spec(*other),
    {
        let min = vmin(&self.min, &other.min);
        let max = vmax(&self.max, &other.max);
        AABB { min, max }
    }

    /// A union lies around both of its parts.
    pub proof fn lemma_union_contains(a: AABB, b: AABB)
        ensures
            a.union_spec(b).contains(a),
            a.union_spec(b).contains(b),
    {
    }

    /// A union is the least box around its parts: whatever lies around both
    /// lies around the union.
    pub proof fn lemma_union_least(a: AABB, b: AABB, outer: AABB)
        requires
            outer.contains(a),
            outer.contains(b),
        ensures
            outer.contains(a.union_spec(b)),
    {
    }

    /// The union of ordered boxes is ordered.
    pub proof fn lemma_union_ordered(a: AABB, b: AABB)
        requires
            a.is_ordered(),
            b.is_ordered(),
        ensures
            a.union_spec(b).is_ordered(),
    {
    }

    /// Lying within is transitive, and every box lies within itself.
    pub proof fn lemma_contains_transitive(a: AABB, b: AABB, c: AABB)
        requires
            a.contains(b),
            b.contains(c),
        ensures
            a.contains(c),
            a.contains(a),
    {
    }
}

} // verus!

use crate::hittable::{
    all_ordered, answers_as, answers_nearest_first, box_or_zero, boxes_are_safe, first_places,
    in_range, is_closest, lemma_answers_within, lemma_closest_is_within_reach,
    lemma_scan_is_closest, may_ask, may_test, places, point_follows_distance, same_distance,
    same_place, scan, test_grows_with_box, tests_as, BoxTest, Probe,
};
use crate::math::{Scalar, AABB};
use crate::render::HitRecord;
use rand::distributions::{Distribution, Uniform};
use rand::rngs::SmallRng;
use std::cmp::Ordering;
use vstd::prelude::*;

verus! {

/// The generator that picks the axis of each split.
#[verifier::external_type_specification]
#[verifier::external_body]
pub struct ExSmallRng(SmallRng);

/// The number of axes a split can go along: x, y and z.
pub const AXES: u8 = 3;

/// The key by which a split along `axis` orders the primitive `item`: the
/// least coordinate of its box on that axis.
pub open spec fn axis_key(boxes: Seq<Option<AABB>>, item: usize, axis: u8) -> Scalar
    recommends
        item < boxes.len(),
{
    box_or_zero(boxes[item as int]).min.component(axis)
}

/// The items of `items` whose key along `axis` is `key`, in the order in
/// which `items` holds them.
pub open spec fn with_key(
    items: Seq<usize>,
    boxes: Seq<Option<AABB>>,
    axis: u8,
    key: Scalar,
) -> Seq<usize> {
    items.filter(|item: usize| axis_key(boxes, item, axis) == key)
}

/// `sorted` holds the items of `items` by ascending key along `axis`, and
/// items of equal key in the order in which `items` holds them.
pub open spec fn is_stable_sort(
    sorted: Seq<usize>,
    items: Seq<usize>,
    boxes: Seq<Option<AABB>>,
    axis: u8,
) -> bool {
    &&& sorted.to_multiset() == items.to_multiset()
    &&& forall|i: int, j: int|
        0 <= i < j < sorted.len() ==> axis_key(boxes, #[trigger] sorted[i], axis) <= axis_key(
            boxes,
            #[trigger] sorted[j],
            axis,
        )
    &&& forall|key: Scalar| #[trigger]
        with_key(sorted, boxes, axis, key) == with_key(items, boxes, axis, key)
}

/// Draws a number below `count` with `Uniform::from(0..count)` of `rand`,
/// which samples the half-open range and wants it not empty. Which number
/// it is depends on the generator, and nothing is claimed of that.
#[verifier::external_body]
fn pick_below(rng: &mut SmallRng, count: u8) -> (drawn: u8)
    requires
        count > 0,
    ensures
        drawn < count,
{
    Uniform::from(0u8..count).sample(rng)
}

/// Orders `items` with the slice method `sort_by` of std, which is a stable
/// sort, under [`BvhNode::box_compare`] along `axis`: afterwards the items are
/// the same, by ascending key, those of equal key in the order they had.
#[verifier::external_body]
fn sort_along(items: &mut Vec<usize>, boxes: &Vec<Option<AABB>>, axis: u8)
    requires
        axis < AXES,
        in_range(old(items)@, boxes@),
    ensures
        is_stable_sort(final(items)@, old(items)@, boxes@, axis),
{
    items.sort_by(|a, b| BvhNode::box_compare(&boxes[*a], &boxes[*b], axis));
}

/// How far the right child of a node is searched: as far as the hit on the
/// left, where there is one, and else as far as the node.
pub open spec fn reach_after(found_left: Option<HitRecord>, t_max: Scalar) -> Scalar {
    match found_left {
        Some(hit_left) => hit_left.t,
        None => t_max,
    }
}

/// What a node returns of the hits below its two children: the one on the
/// right, which was searched for no further than the one on the left, and
/// else the one on the left.
pub open spec fn last_of(found_left: Option<HitRecord>, found_right: Option<HitRecord>) -> Option<
    HitRecord,
> {
    match found_right {
        Some(hit_right) => Some(hit_right),
        None => found_left,
    }
}

/// One of the two things below a node: a primitive, named by its place in
/// the list the tree was built from, or a further node.
#[derive(Debug)]
pub enum Child {
    Primitive(usize),
    Node(Box<BvhNode>),
}

/// A node of the bounding-volume hierarchy: two children and a box around
/// both.
#[derive(Debug)]
pub struct BvhNode {
    pub left: Child,
    pub right: Child,
    pub node_box: AABB,
}

impl Child {
    /// The primitives at or below this child.
    pub open spec fn primitives(self) -> Set<usize>
        decreases self,
    {
        match self {
            Child::Primitive(i) => set![i],
            Child::Node(n) => n.primitives(),
        }
    }

    /// The hit that the search below this child returns between `t_min` and
    /// `t_max`.
    pub open spec fn closest_hit(
        self,
        test: BoxTest,
        answer: Probe,
        t_min: Scalar,
        t_max: Scalar,
    ) -> Option<HitRecord>
        decreases self,
    {
        match self {
            Child::Primitive(i) => answer(i, t_min, t_max),
            Child::Node(n) => n.closest_hit(test, answer, t_min, t_max),
        }
    }

    /// `hit` is something that the search below this child may return,
    /// given what `crosses` and `probe` may return.
    pub open spec fn may_hit<B, P>(
        self,
        crosses: &B,
        probe: &P,
        t_min: Scalar,
        t_max: Scalar,
        hit: Option<HitRecord>,
    ) -> bool where
        B: Fn(&AABB, Scalar, Scalar) -> bool,
        P: Fn(usize, Scalar, Scalar) -> Option<HitRecord>,

        decreases self,
    {
        match self {
            Child::Primitive(i) => call_ensures(probe, (i, t_min, t_max), hit),
            Child::Node(n) => n.may_hit(crosses, probe, t_min, t_max, hit),
        }
    }

    /// Searches below this child: asks `probe` about a primitive, and
    /// searches a node as [`BvhNode::hit`] does.
    pub fn hit<B, P>(&self, crosses: &B, probe: &P, t_min: Scalar, t_max: Scalar) -> (hit: Option<
        HitRecord,
    >) where
        B: Fn(&AABB, Scalar, Scalar) -> bool,
        P: Fn(usize, Scalar, Scalar) -> Option<HitRecord>,

        requires
            may_test(crosses),
            may_ask(probe, self.primitives()),
        ensures
            self.may_hit(crosses, probe, t_min, t_max, hit),
            forall|test: BoxTest, answer: Probe|
                tests_as(crosses, test) && answers_as(probe, answer, self.primitives()) ==> hit
                    == #[trigger] self.closest_hit(test, answer, t_min, t_max),
        decreases self,
    {
        match self {
            Child::Primitive(i) => {
                assert(self.primitives().contains(*i));
                let found = probe(*i, t_min, t_max);
                assert forall|test: BoxTest, answer: Probe|
                    tests_as(crosses, test) && answers_as(
                        probe,
                        answer,
                        self.primitives(),
                    ) implies found == #[trigger] self.closest_hit(test, answer, t_min, t_max) by {
                    assert(found == answer(*i, t_min, t_max));
                }
                found
            },
            Child::Node(n) => {
                assert(self.primitives() == n.primitives());
                let found = n.hit(crosses, probe, t_min, t_max);
                assert forall|test: BoxTest, answer: Probe|
                    tests_as(crosses, test) && answers_as(
                        probe,
                        answer,
                        self.primitives(),
                    ) implies found == #[trigger] self.closest_hit(test, answer, t_min, t_max) by {
                    assert(found == n.closest_hit(test, answer, t_min, t_max));
                }
                found
            },
        }
    }
}

impl BvhNode {
    /// `self` is a tree that recursive median splits make of `items`: one
    /// item stands on both sides of a single node; two items stand one on
    /// each side; more are ordered along one of the three axes, halved, and
    /// each half is such a tree again. The box of a node is the union of the
    /// boxes below it.
    pub open spec fn is_median_split(self, boxes: Seq<Option<AABB>>, items: Seq<usize>) -> bool
        recommends
            in_range(items, boxes),
        decreases items.len(), 1int,
    {
        if items.len() == 1 {
            &&& self.left == Child::Primitive(items[0])
            &&& self.right == Child::Primitive(items[0])
            &&& self.node_box == box_or_zero(boxes[items[0] as int])
        } else if items.len() == 2 {
            &&& self.left == Child::Primitive(items[0])
            &&& self.right == Child::Primitive(items[1])
            &&& self.node_box == box_or_zero(boxes[items[0] as int]).union_spec(
                box_or_zero(boxes[items[1] as int]),
            )
        } else if items.len() >= 3 {
            exists|axis: u8, lower: Seq<usize>, upper: Seq<usize>|
                {
                    &&& axis < AXES
                    &&& lower.len() == items.len() / 2
                    &&& upper.len() == items.len() - items.len() / 2
                    &&& #[trigger] is_stable_sort(lower + upper, items, boxes, axis)
                    &&& self.below_are(boxes, lower, upper)
                }
        } else {
            false
        }
    }

    /// Both children are nodes, median splits of `lower` and of `upper`, and
    /// the box of `self` is the union of theirs.
    pub open spec fn below_are(
        self,
        boxes: Seq<Option<AABB>>,
        lower: Seq<usize>,
        upper: Seq<usize>,
    ) -> bool
        recommends
            in_range(lower, boxes),
            in_range(upper, boxes),
        decreases lower.len() + upper.len(), 0int,
    {
        match (self.left, self.right) {
            (Child::Node(l), Child::Node(r)) => {
                &&& lower.len() >= 1
                &&& upper.len() >= 1
                &&& l.is_median_split(boxes, lower)
                &&& r.is_median_split(boxes, upper)
                &&& self.node_box == l.node_box.union_spec(r.node_box)
            },
            _ => false,
        }
    }

    /// Orders two boxes by their least coordinate along `axis`.
    pub fn box_compare(a: &Option<AABB>, b: &Option<AABB>, axis: u8) -> (o: Ordering)
        requires
            axis < AXES,
        ensures
            o == Ordering::Less <==> box_or_zero(*a).min.component(axis) < box_or_zero(
                *b,
            ).min.component(axis),
            o == Ordering::Equal <==> box_or_zero(*a).min.component(axis) == box_or_zero(
                *b,
            ).min.component(axis),
            o == Ordering::Greater <==> box_or_zero(*a).min.component(axis) > box_or_zero(
                *b,
            ).min.component(axis),
    {
        let box_a = match a {
            Some(inner) => *inner,
            None => AABB::zeros(),
        };
        let box_b = match b {
            Some(inner) => *inner,
            None => AABB::zeros(),
        };
        let (key_a, key_b) = if axis == 0 {
            (box_a.min.x, box_b.min.x)
        } else if axis == 1 {
            (box_a.min.y, box_b.min.y)
        } else {
            (box_a.min.z, box_b.min.z)
        };
        if key_a < key_b {
            Ordering::Less
        } else if key_a == key_b {
            Ordering::Equal
        } else {
            Ordering::Greater
        }
    }
    /// Orders `items` along `axis` and halves them: the lower half holds the
    /// first `items.len() / 2` of the ordered items, the upper half the rest.
    pub fn split(boxes: &Vec<Option<AABB>>, items: Vec<usize>, axis: u8) -> (halves: (
        Vec<usize>,
        Vec<usize>,
    ))
        requires
            axis < AXES,
            in_range(items@, boxes@),
        ensures
            halves.0@.len() == items@.len() / 2,
            halves.1@.len() == items@.len() - items@.len() / 2,
            is_stable_sort(halves.0@ + halves.1@, items@, boxes@, axis),
            in_range(halves.0@, boxes@),
            in_range(halves.1@, boxes@),
    {
        let mut lower = items;
        sort_along(&mut lower, boxes, axis);
        let ghost sorted = lower@;
        proof {
            sorted.to_multiset_ensures();
            items@.to_multiset_ensures();
            assert forall|k: int| 0 <= k < sorted.len() implies #[trigger] sorted[k]
                < boxes@.len() by {
                assert(items@.to_multiset().count(sorted[k]) > 0);
                assert(items@.contains(sorted[k]));
            }
        }
        let mid = lower.len() / 2;
        let upper = lower.split_off(mid);
        assert(lower@ + upper@ =~= sorted);
        (lower, upper)
    }

    /// Builds the tree over the primitives whose boxes `data` lists, each
    /// named by its place in `data`. The boxes are ordered, and so is the box
    /// of every node. A primitive without a box counts as the box of no size
    /// at the origin. `rng` picks the axis of each split.
    pub fn from_slice(data: &Vec<Option<AABB>>, rng: &mut SmallRng) -> (node: BvhNode)
        requires
            data@.len() >= 1,
            all_ordered(data@),
        ensures
            node.is_median_split(data@, places(data@.len())),
            node.primitives() == places(data@.len()).to_set(),
            node.encloses(data@),
            node.is_ordered(),
    {
        let items = first_places(data.len());
        let node = BvhNode::build(data, items, rng);
        proof {
            node.lemma_median_split_encloses(data@, places(data@.len()));
            node.lemma_median_split_is_ordered(data@, places(data@.len()));
        }
        node
    }

    /// The tree over the primitives that `items` names.
    fn build(data: &Vec<Option<AABB>>, items: Vec<usize>, rng: &mut SmallRng) -> (node: BvhNode)
        requires
            items@.len() >= 1,
            in_range(items@, data@),
        ensures
            node.is_median_split(data@, items@),
        decreases items@.len(),
    {
        let span = items.len();
        if span == 1 {
            BvhNode {
                left: Child::Primitive(items[0]),
                right: Child::Primitive(items[0]),
                node_box: BvhNode::box_of(data, items[0]),
            }
        } else if span == 2 {
            let box_left = BvhNode::box_of(data, items[0]);
            let box_right = BvhNode::box_of(data, items[1]);
            BvhNode {
                left: Child::Primitive(items[0]),
                right: Child::Primitive(items[1]),
                node_box: box_left.union(&box_right),
            }
        } else {
            let axis = pick_below(rng, AXES);
            let ghost all = items@;
            let (lower, upper) = BvhNode::split(data, items, axis);
            let ghost lower_items = lower@;
            let ghost upper_items = upper@;
            let left = BvhNode::build(data, lower, rng);
            let right = BvhNode::build(data, upper, rng);
            let node_box = left.node_box.union(&right.node_box);
            let node = BvhNode {
                left: Child::Node(Box::new(left)),
                right: Child::Node(Box::new(right)),
                node_box,
            };
            assert(node.below_are(data@, lower_items, upper_items));
            assert(is_stable_sort(lower_items + upper_items, all, data@, axis));
            node
        }
    }

    /// The box of the primitive at `item`, or the box of no size at the
    /// origin where it has none.
    fn box_of(data: &Vec<Option<AABB>>, item: usize) -> (b: AABB)
        requires
            item < data@.len(),
        ensures
            b == box_or_zero(data@[item as int]),
    {
        match data[item] {
            Some(inner) => inner,
            None => AABB::zeros(),
        }
    }

    /// The primitives below this node.
    pub open spec fn primitives(self) -> Set<usize>
        decreases self,
    {
        self.left.primitives().union(self.right.primitives())
    }

    /// The hit that the search of this node returns between `t_min` and
    /// `t_max`. A ray that does not cross the node's box meets nothing. One
    /// that does is followed into the left child, and then into the right
    /// child no further than the left hit, if there was one: a hit on the
    /// right replaces the one on the left.
    pub open spec fn closest_hit(
        self,
        test: BoxTest,
        answer: Probe,
        t_min: Scalar,
        t_max: Scalar,
    ) -> Option<HitRecord>
        decreases self,
    {
        if !test(self.node_box, t_min, t_max) {
            None
        } else {
            let found_left = self.left.closest_hit(test, answer, t_min, t_max);
            last_of(
                found_left,
                self.right.closest_hit(test, answer, t_min, reach_after(found_left, t_max)),
            )
        }
    }

    /// `hit` is something that the search of this node may return, given
    /// what `crosses` and `probe` may return: nothing, where `crosses` denies
    /// the node's box; else what the right child may return when it is
    /// searched no further than the hit on the left, or, where it returns
    /// nothing, that hit on the left; and where the left child returns
    /// nothing, what the right child may return over the full reach.
    pub open spec fn may_hit<B, P>(
        self,
        crosses: &B,
        probe: &P,
        t_min: Scalar,
        t_max: Scalar,
        hit: Option<HitRecord>,
    ) -> bool where
        B: Fn(&AABB, Scalar, Scalar) -> bool,
        P: Fn(usize, Scalar, Scalar) -> Option<HitRecord>,

        decreases self,
    {
        exists|crossed: bool|
            {
                &&& #[trigger] call_ensures(crosses, (&self.node_box, t_min, t_max), crossed)
                &&& if crossed {
                    exists|found_left: Option<HitRecord>, found_right: Option<HitRecord>|
                        {
                            &&& self.left.may_hit(crosses, probe, t_min, t_max, found_left)
                            &&& self.right.may_hit(
                                crosses,
                                probe,
                                t_min,
                                reach_after(found_left, t_max),
                                found_right,
                            )
                            &&& hit == #[trigger] last_of(found_left, found_right)
                        }
                } else {
                    hit is None
                }
            }
    }

    /// Searches the tree for the hit between `t_min` and `t_max`. `crosses`
    /// tells whether the ray crosses a box between two distances, `probe`
    /// where it meets a primitive between two distances. A node whose box
    /// the ray does not cross is not searched.
    pub fn hit<B, P>(&self, crosses: &B, probe: &P, t_min: Scalar, t_max: Scalar) -> (hit: Option<
        HitRecord,
    >) where
        B: Fn(&AABB, Scalar, Scalar) -> bool,
        P: Fn(usize, Scalar, Scalar) -> Option<HitRecord>,

        requires
            may_test(crosses),
            may_ask(probe, self.primitives()),
        ensures
            self.may_hit(crosses, probe, t_min, t_max, hit),
            forall|test: BoxTest, answer: Probe|
                tests_as(crosses, test) && answers_as(probe, answer, self.primitives()) ==> hit
                    == #[trigger] self.closest_hit(test, answer, t_min, t_max),
        decreases self,
    {
        let crossed = crosses(&self.node_box, t_min, t_max);
        let found_left = if crossed {
            self.left.hit(crosses, probe, t_min, t_max)
        } else {
            None
        };
        let found_right = if crossed {
            match found_left {
                Some(hit_left) => self.right.hit(crosses, probe, t_min, hit_left.t),
                None => self.right.hit(crosses, probe, t_min, t_max),
            }
        } else {
            None
        };
        let found = match found_right {
            Some(hit_right) => Some(hit_right),
            None => found_left,
        };
        proof {
            assert(found == last_of(found_left, found_right));
            assert forall|test: BoxTest, answer: Probe|
                tests_as(crosses, test) && answers_as(
                    probe,
                    answer,
                    self.primitives(),
                ) implies found == #[trigger] self.closest_hit(test, answer, t_min, t_max) by {
                lemma_answers_within(probe, answer, self.primitives(), self.left.primitives());
                lemma_answers_within(probe, answer, self.primitives(), self.right.primitives());
                assert(crossed == test(self.node_box, t_min, t_max));
                if crossed {
                    assert(found_left == self.left.closest_hit(test, answer, t_min, t_max));
                    match found_left {
                        Some(hit_left) => {
                            assert(found_right == self.right.closest_hit(
                                test,
                                answer,
                                t_min,
                                hit_left.t,
                            ));
                        },
                        None => {
                            assert(found_right == self.right.closest_hit(
                                test,
                                answer,
                                t_min,
                                t_max,
                            ));
                        },
                    }
                }
            }
        }
        found
    }

    /// The box around everything below this node.
    pub fn bounding_box(&self) -> (b: Option<AABB>)
        ensures
            b == Some(self.node_box),
    {
        Some(self.node_box)
    }
}

/// Rows that hold the same items as often hold the same items.
proof fn lemma_same_items(a: Seq<usize>, b: Seq<usize>)
    requires
        a.to_multiset() == b.to_multiset(),
    ensures
        a.to_set() == b.to_set(),
{
    a.to_multiset_ensures();
    b.to_multiset_ensures();
    assert forall|x: usize| a.to_set().contains(x) == b.to_set().contains(x) by {
        assert(a.contains(x) <==> a.to_multiset().count(x) > 0);
        assert(b.contains(x) <==> b.to_multiset().count(x) > 0);
    }
    assert(a.to_set() =~= b.to_set());
}

/// The items of two rows put together are the items of the one and those of
/// the other.
proof fn lemma_items_of_both(a: Seq<usize>, b: Seq<usize>)
    ensures
        (a + b).to_set() == a.to_set().union(b.to_set()),
{
    let both = a + b;
    assert forall|x: usize| both.to_set().contains(x) == a.to_set().union(b.to_set()).contains(
        x,
    ) by {
        if both.contains(x) {
            let k = choose|k: int| 0 <= k < both.len() && both[k] == x;
            if k < a.len() {
                assert(a[k] == x);
            } else {
                assert(b[k - a.len()] == x);
            }
        }
        if a.contains(x) {
            let k = choose|k: int| 0 <= k < a.len() && a[k] == x;
            assert(both[k] == x);
        }
        if b.contains(x) {
            let k = choose|k: int| 0 <= k < b.len() && b[k] == x;
            assert(both[k + a.len()] == x);
        }
    }
    assert(both.to_set() =~= a.to_set().union(b.to_set()));
}

/// The halves of a row of items that name boxes name boxes.
proof fn lemma_halves_in_range(
    lower: Seq<usize>,
    upper: Seq<usize>,
    items: Seq<usize>,
    boxes: Seq<Option<AABB>>,
)
    requires
        in_range(items, boxes),
        (lower + upper).to_multiset() == items.to_multiset(),
    ensures
        in_range(lower, boxes),
        in_range(upper, boxes),
{
    let both = lower + upper;
    lemma_same_items(both, items);
    assert forall|k: int| 0 <= k < both.len() implies #[trigger] both[k] < boxes.len() by {
        assert(both.to_set().contains(both[k])) by {
            assert(both.contains(both[k]));
        }
        let j = choose|j: int| 0 <= j < items.len() && items[j] == both[k];
    }
    assert forall|k: int| 0 <= k < lower.len() implies #[trigger] lower[k] < boxes.len() by {
        assert(both[k] == lower[k]);
    }
    assert forall|k: int| 0 <= k < upper.len() implies #[trigger] upper[k] < boxes.len() by {
        assert(both[k + lower.len()] == upper[k]);
    }
}

impl Child {
    /// Every box below lies within `outer`, and every node below encloses
    /// what is below it.
    pub open spec fn enclosed_by(self, boxes: Seq<Option<AABB>>, outer: AABB) -> bool
        decreases self,
    {
        match self {
            Child::Primitive(i) => i < boxes.len() && outer.contains(box_or_zero(boxes[i as int])),
            Child::Node(n) => outer.contains(n.node_box) && n.encloses(boxes),
        }
    }

    /// The box of every primitive at or below this child lies within a box
    /// that this child is enclosed by.
    pub proof fn lemma_enclosed(self, boxes: Seq<Option<AABB>>, outer: AABB, i: usize)
        requires
            self.enclosed_by(boxes, outer),
            self.primitives().contains(i),
        ensures
            i < boxes.len(),
            outer.contains(box_or_zero(boxes[i as int])),
        decreases self,
    {
        match self {
            Child::Primitive(_) => {},
            Child::Node(n) => {
                n.lemma_encloses(boxes, i);
                AABB::lemma_contains_transitive(outer, n.node_box, box_or_zero(boxes[i as int]));
            },
        }
    }

    /// Below a child that is enclosed, the search returns a closest hit among
    /// the primitives there.
    pub proof fn lemma_hit_is_closest(
        self,
        boxes: Seq<Option<AABB>>,
        outer: AABB,
        test: BoxTest,
        answer: Probe,
        t_min: Scalar,
        t_max: Scalar,
    )
        requires
            self.enclosed_by(boxes, outer),
            answers_nearest_first(answer, self.primitives()),
            boxes_are_safe(test, answer, boxes, self.primitives()),
            test_grows_with_box(test),
        ensures
            is_closest(
                self.closest_hit(test, answer, t_min, t_max),
                self.primitives(),
                answer,
                t_min,
                t_max,
            ),
        decreases self,
    {
        match self {
            Child::Primitive(i) => {
                assert(self.primitives().contains(i));
            },
            Child::Node(n) => {
                n.lemma_hit_is_closest(boxes, test, answer, t_min, t_max);
            },
        }
    }
}

impl BvhNode {
    /// The box of every node of the tree lies around the boxes of all the
    /// primitives and nodes below it.
    pub open spec fn encloses(self, boxes: Seq<Option<AABB>>) -> bool
        decreases self,
    {
        self.left.enclosed_by(boxes, self.node_box) && self.right.enclosed_by(boxes, self.node_box)
    }

    /// In a tree that encloses, the box of the root lies around the box of
    /// every primitive of the tree.
    pub proof fn lemma_encloses(self, boxes: Seq<Option<AABB>>, i: usize)
        requires
            self.encloses(boxes),
            self.primitives().contains(i),
        ensures
            i < boxes.len(),
            self.node_box.contains(box_or_zero(boxes[i as int])),
        decreases self,
    {
        if self.left.primitives().contains(i) {
            self.left.lemma_enclosed(boxes, self.node_box, i);
        } else {
            self.right.lemma_enclosed(boxes, self.node_box, i);
        }
    }

    /// A ray that misses the box of a tree meets no primitive of the tree,
    /// provided that no primitive's box is too small.
    pub proof fn lemma_miss_box_miss_all(
        self,
        boxes: Seq<Option<AABB>>,
        test: BoxTest,
        answer: Probe,
        t_min: Scalar,
        t_max: Scalar,
        i: usize,
    )
        requires
            self.encloses(boxes),
            boxes_are_safe(test, answer, boxes, self.primitives()),
            test_grows_with_box(test),
            !test(self.node_box, t_min, t_max),
            self.primitives().contains(i),
        ensures
            answer(i, t_min, t_max) is None,
    {
        self.lemma_encloses(boxes, i);
        if answer(i, t_min, t_max) is Some {
            assert(test(box_or_zero(boxes[i as int]), t_min, t_max));
            assert(self.node_box.contains(box_or_zero(boxes[i as int])));
        }
    }

    /// The search of a tree returns a closest hit among the primitives of the
    /// tree: nothing where the ray meets none of them, and else the answer
    /// of a primitive than which none is met earlier. This holds where every
    /// box in the tree lies around what is below it, no primitive's box is
    /// too small, a primitive answers with its first meeting point, and a
    /// ray that crosses a box crosses the boxes around it.
    pub proof fn lemma_hit_is_closest(
        self,
        boxes: Seq<Option<AABB>>,
        test: BoxTest,
        answer: Probe,
        t_min: Scalar,
        t_max: Scalar,
    )
        requires
            self.encloses(boxes),
            answers_nearest_first(answer, self.primitives()),
            boxes_are_safe(test, answer, boxes, self.primitives()),
            test_grows_with_box(test),
        ensures
            is_closest(
                self.closest_hit(test, answer, t_min, t_max),
                self.primitives(),
                answer,
                t_min,
                t_max,
            ),
        decreases self,
    {
        let among = self.primitives();
        let found = self.closest_hit(test, answer, t_min, t_max);
        if !test(self.node_box, t_min, t_max) {
            assert forall|i: usize| among.contains(i) implies (#[trigger] answer(
                i,
                t_min,
                t_max,
            )) is None by {
                self.lemma_miss_box_miss_all(boxes, test, answer, t_min, t_max, i);
            }
        } else {
            let lefts = self.left.primitives();
            let rights = self.right.primitives();
            self.left.lemma_hit_is_closest(boxes, self.node_box, test, answer, t_min, t_max);
            match self.left.closest_hit(test, answer, t_min, t_max) {
                Some(hit_left) => {
                    let on_left = choose|i: usize|
                        lefts.contains(i) && #[trigger] answer(i, t_min, t_max) == Some(hit_left);
                    assert(among.contains(on_left));
                    assert(hit_left.t <= t_max);
                    self.right.lemma_hit_is_closest(
                        boxes,
                        self.node_box,
                        test,
                        answer,
                        t_min,
                        hit_left.t,
                    );
                    match self.right.closest_hit(test, answer, t_min, hit_left.t) {
                        Some(hit_right) => {
                            let on_right = choose|i: usize|
                                rights.contains(i) && #[trigger] answer(i, t_min, hit_left.t)
                                    == Some(hit_right);
                            assert(among.contains(on_right));
                            assert(hit_right.t <= hit_left.t);
                            assert(answer(on_right, t_min, t_max) == Some(hit_right));
                            assert forall|i: usize| among.contains(i) implies match #[trigger] answer(
                                i,
                                t_min,
                                t_max,
                            ) {
                                Some(other) => hit_right.t <= other.t,
                                None => true,
                            } by {
                                if rights.contains(i) {
                                    if let Some(other) = answer(i, t_min, t_max) {
                                        if other.t <= hit_left.t {
                                            assert(answer(i, t_min, hit_left.t) == Some(other));
                                        }
                                    }
                                }
                            }
                        },
                        None => {
                            assert forall|i: usize| among.contains(i) implies match #[trigger] answer(
                                i,
                                t_min,
                                t_max,
                            ) {
                                Some(other) => hit_left.t <= other.t,
                                None => true,
                            } by {
                                if rights.contains(i) {
                                    if let Some(other) = answer(i, t_min, t_max) {
                                        if other.t <= hit_left.t {
                                            assert(answer(i, t_min, hit_left.t) == Some(other));
                                        }
                                    }
                                }
                            }
                        },
                    }
                },
                None => {
                    self.right.lemma_hit_is_closest(
                        boxes,
                        self.node_box,
                        test,
                        answer,
                        t_min,
                        t_max,
                    );
                    match self.right.closest_hit(test, answer, t_min, t_max) {
                        Some(hit_right) => {
                            let on_right = choose|i: usize|
                                rights.contains(i) && #[trigger] answer(i, t_min, t_max) == Some(
                                    hit_right,
                                );
                            assert(among.contains(on_right));
                        },
                        None => {},
                    }
                },
            }
        }
    }

    /// A tree that median splits made of `items` holds the items of `items`
    /// and no others, and the box of each of its nodes lies around all that
    /// is below the node.
    pub proof fn lemma_median_split_encloses(self, boxes: Seq<Option<AABB>>, items: Seq<usize>)
        requires
            in_range(items, boxes),
            self.is_median_split(boxes, items),
        ensures
            self.encloses(boxes),
            self.primitives() == items.to_set(),
        decreases items.len(),
    {
        if items.len() == 1 {
            assert(items[0] < boxes.len());
            assert forall|x: usize| self.primitives().contains(x) == items.to_set().contains(
                x,
            ) by {
                if items.contains(x) {
                    let k = choose|k: int| 0 <= k < items.len() && items[k] == x;
                }
                assert(items.contains(items[0]));
            }
            assert(self.primitives() =~= items.to_set());
        } else if items.len() == 2 {
            assert(items[0] < boxes.len());
            assert(items[1] < boxes.len());
            assert forall|x: usize| self.primitives().contains(x) == items.to_set().contains(
                x,
            ) by {
                if items.contains(x) {
                    let k = choose|k: int| 0 <= k < items.len() && items[k] == x;
                }
                assert(items.contains(items[0]));
                assert(items.contains(items[1]));
            }
            assert(self.primitives() =~= items.to_set());
        } else {
            let (axis, lower, upper) = choose|axis: u8, lower: Seq<usize>, upper: Seq<usize>|
                {
                    &&& axis < AXES
                    &&& lower.len() == items.len() / 2
                    &&& upper.len() == items.len() - items.len() / 2
                    &&& #[trigger] is_stable_sort(lower + upper, items, boxes, axis)
                    &&& self.below_are(boxes, lower, upper)
                };
            lemma_same_items(lower + upper, items);
            lemma_items_of_both(lower, upper);
            lemma_halves_in_range(lower, upper, items, boxes);
            match (self.left, self.right) {
                (Child::Node(l), Child::Node(r)) => {
                    l.lemma_median_split_encloses(boxes, lower);
                    r.lemma_median_split_encloses(boxes, upper);
                    AABB::lemma_union_contains(l.node_box, r.node_box);
                },
                _ => {},
            }
        }
    }

    /// The box of every node is ordered.
    pub open spec fn is_ordered(self) -> bool
        decreases self,
    {
        &&& self.node_box.is_ordered()
        &&& self.left matches Child::Node(l) ==> l.is_ordered()
        &&& self.right matches Child::Node(r) ==> r.is_ordered()
    }

    /// A tree that median splits made of primitives with ordered boxes has
    /// ordered boxes throughout.
    pub proof fn lemma_median_split_is_ordered(self, boxes: Seq<Option<AABB>>, items: Seq<usize>)
        requires
            in_range(items, boxes),
            all_ordered(boxes),
            self.is_median_split(boxes, items),
        ensures
            self.is_ordered(),
        decreases items.len(),
    {
        if items.len() == 1 {
            assert(box_or_zero(boxes[items[0] as int]).is_ordered());
        } else if items.len() == 2 {
            assert(box_or_zero(boxes[items[0] as int]).is_ordered());
            assert(box_or_zero(boxes[items[1] as int]).is_ordered());
        } else {
            let (axis, lower, upper) = choose|axis: u8, lower: Seq<usize>, upper: Seq<usize>|
                {
                    &&& axis < AXES
                    &&& lower.len() == items.len() / 2
                    &&& upper.len() == items.len() - items.len() / 2
                    &&& #[trigger] is_stable_sort(lower + upper, items, boxes, axis)
                    &&& self.below_are(boxes, lower, upper)
                };
            lemma_halves_in_range(lower, upper, items, boxes);
            match (self.left, self.right) {
                (Child::Node(l), Child::Node(r)) => {
                    l.lemma_median_split_is_ordered(boxes, lower);
                    r.lemma_median_split_is_ordered(boxes, upper);
                    AABB::lemma_union_ordered(l.node_box, r.node_box);
                },
                _ => {},
            }
        }
    }

    /// The search of a tree built over a list of primitives and the search
    /// through that list one after the other agree: both meet nothing, or
    /// both meet something at the same distance. This holds where no
    /// primitive's box is too small, a primitive answers with its first
    /// meeting point, and a ray that crosses a box crosses the boxes around
    /// it.
    pub proof fn lemma_tree_agrees_with_scan(
        self,
        boxes: Seq<Option<AABB>>,
        items: Seq<usize>,
        test: BoxTest,
        answer: Probe,
        t_min: Scalar,
        t_max: Scalar,
    )
        requires
            in_range(items, boxes),
            self.is_median_split(boxes, items),
            answers_nearest_first(answer, items.to_set()),
            boxes_are_safe(test, answer, boxes, items.to_set()),
            test_grows_with_box(test),
        ensures
            same_distance(
                self.closest_hit(test, answer, t_min, t_max),
                scan(items, answer, t_min, t_max),
            ),
    {
        self.lemma_median_split_encloses(boxes, items);
        self.lemma_hit_is_closest(boxes, test, answer, t_min, t_max);
        lemma_scan_is_closest(items, answer, t_min, t_max);
        let among = items.to_set();
        let in_tree = self.closest_hit(test, answer, t_min, t_max);
        let in_list = scan(items, answer, t_min, t_max);
        if let Some(record) = in_tree {
            let at = choose|i: usize| among.contains(i) && #[trigger] answer(i, t_min, t_max)
                == in_tree;
        }
        if let Some(record) = in_list {
            let at = choose|i: usize| among.contains(i) && #[trigger] answer(i, t_min, t_max)
                == in_list;
        }
    }

    /// The search of a tree built over a list of primitives and the search
    /// through that list agree on the place as well: both meet nothing, or
    /// both meet something at the same distance and point, and that distance
    /// lies within reach. This holds under what the agreement on the
    /// distance holds under, where answers at one distance name one point.
    pub proof fn lemma_tree_agrees_with_scan_on_place(
        self,
        boxes: Seq<Option<AABB>>,
        items: Seq<usize>,
        test: BoxTest,
        answer: Probe,
        t_min: Scalar,
        t_max: Scalar,
    )
        requires
            in_range(items, boxes),
            self.is_median_split(boxes, items),
            answers_nearest_first(answer, items.to_set()),
            boxes_are_safe(test, answer, boxes, items.to_set()),
            test_grows_with_box(test),
            point_follows_distance(answer, items.to_set()),
        ensures
            same_place(
                self.closest_hit(test, answer, t_min, t_max),
                scan(items, answer, t_min, t_max),
            ),
            self.closest_hit(test, answer, t_min, t_max) matches Some(record) ==> t_min <= record.t
                <= t_max,
    {
        self.lemma_median_split_encloses(boxes, items);
        self.lemma_hit_is_closest(boxes, test, answer, t_min, t_max);
        lemma_scan_is_closest(items, answer, t_min, t_max);
        self.lemma_tree_agrees_with_scan(boxes, items, test, answer, t_min, t_max);
        let among = items.to_set();
        let in_tree = self.closest_hit(test, answer, t_min, t_max);
        let in_list = scan(items, answer, t_min, t_max);
        lemma_closest_is_within_reach(in_tree, among, answer, t_min, t_max);
        if in_tree is Some && in_list is Some {
            let i = choose|i: usize| among.contains(i) && #[trigger] answer(i, t_min, t_max)
                == in_tree;
            let j = choose|j: usize| among.contains(j) && #[trigger] answer(j, t_min, t_max)
                == in_list;
        }
    }
}

} // verus!

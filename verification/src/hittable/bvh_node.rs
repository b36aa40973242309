//! The bounding-volume hierarchy: built once over a primitive list,
//! queried with the exact slab test.

use vstd::prelude::*;
use vstd::seq_lib::lemma_multiset_commutative;
use crate::aabb::Aabb;
use crate::hittable::{Hittable, leaves, lemma_bbox_wf, list_deterministic, list_wf};
use crate::rng::random_index;
use crate::vec3::Vec3;

verus! {

pub struct BvhNode {
    pub left: Box<Hittable>,
    pub right: Option<Box<Hittable>>,
    pub bb: Aabb,
}

/// No member is itself a hierarchy, so the built tree's leaves are exactly
/// the members.
pub open spec fn no_nested(s: Seq<Hittable>) -> bool {
    forall|i: int| 0 <= i < s.len() ==> !((#[trigger] s[i]) is Bvh)
}

/// Taking an element out and putting it back elsewhere leaves the
/// multiset of members unchanged.
proof fn lemma_move_multiset<A>(s: Seq<A>, from: int, to: int)
    requires
        0 <= from < s.len(),
        0 <= to <= s.len() - 1,
    ensures
        s.remove(from).insert(to, s[from]).to_multiset() =~= s.to_multiset(),
{
    broadcast use vstd::seq_lib::group_to_multiset_ensures;

    assert(s.remove(from).to_multiset() =~= s.to_multiset().remove(s[from]));
    assert(s.remove(from).insert(to, s[from]).to_multiset()
        =~= s.remove(from).to_multiset().insert(s[from]));
    assert(s.to_multiset().contains(s[from]));
}

/// Sameness of multisets carries validity, determinism and flatness from
/// one ordering of the members to another.
proof fn lemma_multiset_carries(s1: Seq<Hittable>, s2: Seq<Hittable>)
    requires
        s1.to_multiset() == s2.to_multiset(),
        list_wf(s1),
    ensures
        list_wf(s2),
        s2.len() == s1.len(),
        list_deterministic(s1) ==> list_deterministic(s2),
        no_nested(s1) ==> no_nested(s2),
{
    broadcast use vstd::seq_lib::group_to_multiset_ensures;

    assert forall|i: int| 0 <= i < s2.len()
        implies (#[trigger] s2[i]).wf() && s2[i].bbox_spec() is Some
            && (list_deterministic(s1) ==> s2[i].deterministic())
            && (no_nested(s1) ==> !(s2[i] is Bvh)) by {
        assert(s2.contains(s2[i]));
        assert(s2.to_multiset().count(s2[i]) > 0);
        assert(s1.to_multiset().count(s2[i]) > 0);
        assert(s1.contains(s2[i]));
        let j = choose|j: int| 0 <= j < s1.len() && s1[j] == s2[i];
        assert(s1[j].wf() && s1[j].bbox_spec() is Some);
    }
    assert(s1.len() == s1.to_multiset().len());
    assert(s2.len() == s2.to_multiset().len());
}

/// The comparison key: the box's smaller corner on the chosen axis.
fn box_key(h: &Hittable, axis: usize) -> (k: i64)
    requires
        h.wf(),
        axis < 3,
{
    match h.bounding_box(0, crate::math::SCALE) {
        Option::Some(b) => b.min.axis(axis),
        Option::None => 0,
    }
}

/// Order the members by box minimum along `axis`; only the multiset of
/// members is part of the contract, the order is a performance matter.
fn sort_by_axis(v: &mut Vec<Hittable>, axis: usize)
    requires
        axis < 3,
        list_wf(old(v)@),
    ensures
        final(v)@.to_multiset() == old(v)@.to_multiset(),
        final(v)@.len() == old(v)@.len(),
        list_wf(final(v)@),
{
    let ghost orig = v@;
    let n = v.len();
    let mut i: usize = 0;
    while i < n
        invariant
            i <= n,
            n == v@.len(),
            v@.to_multiset() == orig.to_multiset(),
            list_wf(orig),
            list_wf(v@),
            axis < 3,
        decreases n - i,
    {
        let mut mi: usize = i;
        let mut j: usize = i + 1;
        while j < n
            invariant
                i < n,
                i < j,
                i <= mi < n,
                n == v@.len(),
                list_wf(v@),
                axis < 3,
            decreases n - j,
        {
            if box_key(&v[j], axis) < box_key(&v[mi], axis) {
                mi = j;
            }
            j = j + 1;
        }
        if mi > i {
            let ghost before = v@;
            let x = v.remove(mi);
            v.insert(i, x);
            proof {
                lemma_move_multiset(before, mi as int, i as int);
                lemma_multiset_carries(orig, v@);
            }
        }
        i = i + 1;
    }
}

/// A fallback box; unreachable under the constructor's preconditions.
fn zero_box() -> (b: Aabb)
    ensures
        b.wf(),
{
    Aabb {
        min: Vec3 { x: 0, y: 0, z: 0 },
        max: Vec3 { x: 0, y: 0, z: 0 },
    }
}

impl BvhNode {
    /// Build the hierarchy: pick a random axis, order the members by box
    /// minimum, split at the middle and recurse.  The tree is well-formed
    /// and its leaves are exactly the given members.
    pub fn new(objects: Vec<Hittable>, time0: i64, time1: i64) -> (node: BvhNode)
        requires
            objects@.len() >= 1,
            list_wf(objects@),
            no_nested(objects@),
        ensures
            Hittable::Bvh(node).wf(),
            leaves(Hittable::Bvh(node)).to_multiset() == objects@.to_multiset(),
            list_deterministic(objects@) ==> Hittable::Bvh(node).deterministic(),
        decreases objects@.len(),
    {
        broadcast use vstd::seq_lib::group_to_multiset_ensures;

        let ghost orig = objects@;
        let mut objects = objects;
        let axis = random_index(3);
        if objects.len() == 1 {
            let o = objects.remove(0);
            let bb = match o.bounding_box(time0, time1) {
                Option::Some(b) => b,
                Option::None => {
                    proof {
                        assert(orig[0].bbox_spec() is Some);
                        assert(false);
                    }
                    zero_box()
                },
            };
            proof {
                lemma_bbox_wf(o);
                assert(leaves(o) =~= seq![o]);
                assert(seq![o] =~= orig);
                assert(leaves(Hittable::Bvh(BvhNode {
                    left: Box::new(o),
                    right: None,
                    bb,
                })) =~= leaves(o) + Seq::empty());
                assert(leaves(o) + Seq::empty() =~= leaves(o));
            }
            BvhNode { left: Box::new(o), right: None, bb }
        } else if objects.len() == 2 {
            let o1 = objects.remove(1);
            let o0 = objects.remove(0);
            let k0 = box_key(&o0, axis);
            let k1 = box_key(&o1, axis);
            let (a, b) = if k0 < k1 {
                (o0, o1)
            } else {
                (o1, o0)
            };
            let ba = match a.bounding_box(time0, time1) {
                Option::Some(x) => x,
                Option::None => {
                    proof {
                        assert(false);
                    }
                    zero_box()
                },
            };
            let bbx = match b.bounding_box(time0, time1) {
                Option::Some(x) => x,
                Option::None => {
                    proof {
                        assert(false);
                    }
                    zero_box()
                },
            };
            proof {
                lemma_bbox_wf(a);
                lemma_bbox_wf(b);
                crate::aabb::lemma_union_contains(ba, bbx);
            }
            let bb = Aabb::surrounding(&ba, &bbx);
            proof {
                assert(leaves(a) =~= seq![a]);
                assert(leaves(b) =~= seq![b]);
                lemma_multiset_commutative(seq![a], seq![b]);
                lemma_multiset_commutative(seq![o0], seq![o1]);
                assert(seq![o0] + seq![o1] =~= orig);
                assert((seq![a] + seq![b]).to_multiset() =~= orig.to_multiset());
            }
            BvhNode {
                left: Box::new(a),
                right: Some(Box::new(b)),
                bb,
            }
        } else {
            sort_by_axis(&mut objects, axis);
            proof {
                lemma_multiset_carries(orig, objects@);
            }
            let ghost presplit = objects@;
            let mid = objects.len() / 2;
            let right_vec = objects.split_off(mid);
            proof {
                assert(presplit =~= objects@ + right_vec@);
                assert(list_wf(objects@));
                assert(list_wf(right_vec@));
                assert(no_nested(objects@));
                assert(no_nested(right_vec@));
                lemma_multiset_commutative(objects@, right_vec@);
                assert((objects@ + right_vec@).to_multiset() =~= orig.to_multiset());
            }
            let ghost left_seq = objects@;
            let ghost right_seq = right_vec@;
            let left_node = BvhNode::new(objects, time0, time1);
            let right_node = BvhNode::new(right_vec, time0, time1);
            proof {
                crate::aabb::lemma_union_contains(left_node.bb, right_node.bb);
            }
            let bb = Aabb::surrounding(&left_node.bb, &right_node.bb);
            let node = BvhNode {
                left: Box::new(Hittable::Bvh(left_node)),
                right: Some(Box::new(Hittable::Bvh(right_node))),
                bb,
            };
            proof {
                assert(leaves(Hittable::Bvh(node)) == leaves(Hittable::Bvh(left_node))
                    + leaves(Hittable::Bvh(right_node)));
                lemma_multiset_commutative(leaves(Hittable::Bvh(left_node)),
                    leaves(Hittable::Bvh(right_node)));
                assert(leaves(Hittable::Bvh(left_node)).to_multiset()
                    == left_seq.to_multiset());
                assert(leaves(Hittable::Bvh(right_node)).to_multiset()
                    == right_seq.to_multiset());
                lemma_multiset_commutative(left_seq, right_seq);
                assert((left_seq + right_seq).to_multiset() =~= orig.to_multiset());
                assert(leaves(Hittable::Bvh(node)).to_multiset()
                    =~= orig.to_multiset());
            }
            node
        }
    }
}

} // verus!

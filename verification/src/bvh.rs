//! Building the bounding-volume hierarchy, and its one theorem: a built
//! hierarchy finds the same closest hit (same parameter, hence the same
//! point) as the brute-force linear scan of all its objects, for any ray
//! and any search window.

use vstd::prelude::*;
use vstd::seq_lib::lemma_multiset_commutative;
use vstd::multiset::Multiset;
use crate::vec3::Vec3;
use crate::ray::{Ray, ray_ok, window_ok, T_INF, CMAX};
use crate::aabb::{
    AABB, box_ok, contains_box, ray_in_box, surrounding_box, surrounding_spec, lemma_box_monotone,
    lemma_slab_sees_hit, slab_spec, axis_of,
};
use crate::hit::{HitRecord, rec_ok};
use crate::object::{
    Object, BvhNode, HittableList, o_hit_spec, o_bbox_spec, scan_from, post_check, deterministic,
    det_all,
};
use crate::rng::random_index;

verus! {

/// Free of media and of nested hierarchies: such an object's intersection
/// is deterministic and narrows with the window.
pub open spec fn plain(o: Object) -> bool
    decreases o, 0int,
{
    match o {
        Object::Medium(_) => false,
        Object::Bvh(_) => false,
        Object::Translate(t) => plain(*t.inner),
        Object::Rotate(t) => plain(*t.inner),
        Object::Cube(c) => plain_all(c.side.objects@),
        Object::List(l) => plain_all(l.objects@),
        _ => true,
    }
}

pub open spec fn plain_all(s: Seq<Object>) -> bool
    decreases s, s.len(),
{
    if s.len() == 0 {
        true
    } else {
        plain(s[0]) && plain_all(s.drop_first())
    }
}

/// The objects stored under a node, in tree order.
pub open spec fn tree_objs(o: Object) -> Seq<Object>
    decreases o,
{
    match o {
        Object::Bvh(b) => tree_objs(*b.left) + (match b.right {
            Some(rn) => tree_objs(*rn),
            None => Seq::<Object>::empty(),
        }),
        _ => seq![o],
    }
}

/// Well-formed hierarchy: every node's box is in range and contains its
/// children's boxes; every stored object is not itself a hierarchy and
/// reports a box in range.
pub open spec fn bvh_wf(o: Object) -> bool
    decreases o,
{
    match o {
        Object::Bvh(b) => {
            &&& bvh_wf(*b.left)
            &&& box_ok(b.box_aabb)
            &&& o_bbox_spec(*b.left) matches Some(bl) && contains_box(b.box_aabb, bl)
            &&& match b.right {
                Some(rn) => bvh_wf(*rn) && (o_bbox_spec(*rn) matches Some(br) && contains_box(
                    b.box_aabb,
                    br,
                )),
                None => true,
            }
        },
        _ => {
            &&& !(o is Bvh)
            &&& o_bbox_spec(o) matches Some(b) && box_ok(b)
        },
    }
}

/// In a built hierarchy every node's box is exactly the union of its
/// children's boxes — not merely a superset — all the way down.
pub open spec fn bvh_boxes_exact(o: Object) -> bool
    decreases o,
{
    match o {
        Object::Bvh(b) => {
            &&& bvh_boxes_exact(*b.left)
            &&& match b.right {
                Some(rn) => bvh_boxes_exact(*rn) && (o_bbox_spec(*b.left) matches Some(bl)
                    && (o_bbox_spec(*rn) matches Some(br) && b.box_aabb == surrounding_spec(
                    bl,
                    br,
                ))),
                None => Some(b.box_aabb) == o_bbox_spec(*b.left),
            }
        },
        _ => true,
    }
}

/// What the builder accepts: a nonempty set of objects, none itself a
/// hierarchy, each reporting a bounding box in range.  Anything else is
/// fatal to the scene build and yields no hierarchy.
pub open spec fn buildable(s: Seq<Object>) -> bool {
    &&& s.len() > 0
    &&& forall|k: int|
        0 <= k < s.len() ==> !(#[trigger] s[k] is Bvh) && (o_bbox_spec(s[k]) matches Some(b)
            && box_ok(b))
}

/// The hit parameter, the one thing tie-breaking cannot change.
pub open spec fn opt_t(h: Option<HitRecord>) -> Option<int> {
    match h {
        Some(rec) => Some(rec.t as int),
        None => None,
    }
}

/// A key to order objects on: the low corner of the box on the chosen axis.
fn axis_key(o: &Object, axis: usize) -> (r: i64)
    requires
        axis < 3,
{
    match o.bounding_box(0, crate::fx::FX_ONE) {
        Some(b) => axis_of(&b.mini, axis),
        None => 0,
    }
}

/// Move the object with the least key to the front of what remains:
/// a selection sort, which visibly only permutes the vector.
fn sort_by_axis(v: &mut Vec<Object>, axis: usize)
    requires
        axis < 3,
    ensures
        final(v)@.to_multiset() =~= old(v)@.to_multiset(),
        final(v)@.len() == old(v)@.len(),
{
    let ghost orig = v@;
    let mut out: Vec<Object> = Vec::new();
    proof {
        broadcast use vstd::seq_lib::group_to_multiset_ensures;

        assert(out@.to_multiset().add(v@.to_multiset()) =~= orig.to_multiset());
    }
    while v.len() > 0
        invariant
            axis < 3,
            out@.to_multiset().add(v@.to_multiset()) =~= orig.to_multiset(),
            out@.len() + v@.len() == orig.len(),
        decreases v@.len(),
    {
        let mut best: usize = 0;
        let mut bk = axis_key(&v[0], axis);
        let mut j: usize = 1;
        while j < v.len()
            invariant
                axis < 3,
                v@.len() > 0,
                best < v@.len(),
                1 <= j <= v@.len(),
            decreases v@.len() - j,
        {
            let k = axis_key(&v[j], axis);
            if k < bk {
                best = j;
                bk = k;
            }
            j = j + 1;
        }
        let ghost vpre = v@;
        let ghost outpre = out@;
        let picked = v.remove(best);
        out.push(picked);
        proof {
            broadcast use vstd::seq_lib::group_to_multiset_ensures;

            assert(v@ =~= vpre.remove(best as int));
            assert(v@.to_multiset() =~= vpre.to_multiset().remove(vpre[best as int]));
            assert(out@.to_multiset() =~= outpre.to_multiset().insert(picked));
            assert(out@.to_multiset().add(v@.to_multiset()) =~= orig.to_multiset()) by {
                assert(vpre.to_multiset().contains(picked)) by {
                    assert(vpre[best as int] == picked);
                }
                assert(out@.to_multiset().add(v@.to_multiset()) =~= outpre.to_multiset().add(
                    vpre.to_multiset(),
                ));
            }
        }
    }
    *v = out;
}

/// A member of an all-buildable collection is itself fit to store.
proof fn lemma_good_member(objs: Seq<Object>, x: Object)
    requires
        forall|k: int|
            0 <= k < objs.len() ==> !(#[trigger] objs[k] is Bvh) && (o_bbox_spec(objs[k])
                matches Some(b) && box_ok(b)),
        objs.to_multiset().contains(x),
    ensures
        !(x is Bvh),
        o_bbox_spec(x) matches Some(b) && box_ok(b),
{
    broadcast use vstd::seq_lib::group_to_multiset_ensures;

    assert(objs.contains(x));
    let j = choose|j: int| 0 <= j < objs.len() && objs[j] == x;
    assert(!(objs[j] is Bvh) && (o_bbox_spec(objs[j]) matches Some(b) && box_ok(b)));
}

/// Fitness carries to any part of a permuted split.
proof fn lemma_part_good(objs: Seq<Object>, part: Seq<Object>, other: Multiset<Object>)
    requires
        forall|k: int|
            0 <= k < objs.len() ==> !(#[trigger] objs[k] is Bvh) && (o_bbox_spec(objs[k])
                matches Some(b) && box_ok(b)),
        part.to_multiset().add(other) =~= objs.to_multiset(),
    ensures
        forall|k: int|
            0 <= k < part.len() ==> !(#[trigger] part[k] is Bvh) && (o_bbox_spec(part[k])
                matches Some(b) && box_ok(b)),
{
    broadcast use vstd::seq_lib::group_to_multiset_ensures;
    broadcast use vstd::multiset::group_multiset_axioms;

    assert forall|k: int|
        0 <= k < part.len() implies !(#[trigger] part[k] is Bvh) && (o_bbox_spec(part[k])
        matches Some(b) && box_ok(b)) by {
        let x = part[k];
        assert(part.contains(x));
        assert(part.to_multiset().count(x) > 0);
        assert(objs.to_multiset().count(x) == part.to_multiset().count(x) + other.count(x));
        assert(objs.to_multiset().contains(x));
        lemma_good_member(objs, x);
    }
}

impl BvhNode {
    pub fn new(left: Object, right: Option<Object>, box_aabb: AABB) -> (r: BvhNode)
        ensures
            *r.left == left,
            match (r.right, right) {
                (Some(a), Some(b)) => *a == b,
                (None, None) => true,
                _ => false,
            },
            r.box_aabb == box_aabb,
    {
        let rb = match right {
            Some(o) => Some(Box::new(o)),
            None => None,
        };
        BvhNode { left: Box::new(left), right: rb, box_aabb }
    }

    /// Build a hierarchy over the given objects: pick a random axis, order
    /// by it, split at the middle and recurse; a single object becomes a
    /// one-child node.  Nothing is built over an empty set, over an object
    /// without a bounding box in range, or over a nested hierarchy.
    pub fn new_from_vec(obj: Vec<Object>, time0: i64, time1: i64) -> (res: Option<BvhNode>)
        ensures
            res is Some <==> buildable(obj@),
            res matches Some(n) ==> {
                &&& bvh_wf(Object::Bvh(n))
                &&& o_bbox_spec(Object::Bvh(n)) == Some(n.box_aabb)
                &&& tree_objs(Object::Bvh(n)).to_multiset() =~= obj@.to_multiset()
                &&& bvh_boxes_exact(Object::Bvh(n))
            },
        decreases obj@.len(),
    {
        let n = obj.len();
        if n == 0 {
            return None;
        }
        let mut i: usize = 0;
        while i < obj.len()
            invariant
                0 <= i <= obj@.len(),
                forall|k: int|
                    0 <= k < i ==> !(#[trigger] obj@[k] is Bvh) && (o_bbox_spec(obj@[k])
                        matches Some(b) && box_ok(b)),
            decreases obj@.len() - i,
        {
            proof {
                assert(obj@[i as int] == obj[i as int]);
            }
            let is_nested = match &obj[i] {
                Object::Bvh(_) => true,
                _ => false,
            };
            if is_nested {
                proof {
                    assert(!buildable(obj@));
                }
                return None;
            }
            match obj[i].bounding_box(time0, time1) {
                None => {
                    proof {
                        assert(!buildable(obj@));
                    }
                    return None;
                },
                Some(b) => {
                    if !b.is_ok() {
                        proof {
                            assert(!buildable(obj@));
                        }
                        return None;
                    }
                },
            }
            i = i + 1;
        }
        proof {
            assert(buildable(obj@));
        }
        let mut v = obj;
        if n == 1 {
            let ghost pre = v@;
            let o = match v.pop() {
                Some(o) => o,
                None => {
                    proof {
                        assert(false);
                    }
                    return None;
                },
            };
            proof {
                assert(o == obj@[0]);
            }
            let nested = match &o {
                Object::Bvh(_) => true,
                _ => false,
            };
            if nested {
                proof {
                    assert(false);
                }
                return None;
            }
            let bb = match o.bounding_box(time0, time1) {
                Some(b) => b,
                None => {
                    proof {
                        assert(false);
                    }
                    return None;
                },
            };
            if !bb.is_ok() {
                proof {
                    assert(false);
                }
                return None;
            }
            let node = BvhNode { left: Box::new(o), right: None, box_aabb: bb };
            proof {
                broadcast use vstd::seq_lib::group_to_multiset_ensures;

                reveal_with_fuel(tree_objs, 3);
                reveal_with_fuel(bvh_wf, 3);
                reveal_with_fuel(bvh_boxes_exact, 3);
                assert(pre =~= v@.push(o));
                assert(!(o is Bvh));
                assert(bvh_wf(o));
                assert(bvh_boxes_exact(o));
                assert(tree_objs(o) =~= seq![o]);
                assert(tree_objs(Object::Bvh(node)) =~= seq![o] + Seq::<Object>::empty());
                assert(tree_objs(Object::Bvh(node)) =~= seq![o]);
                assert(pre.to_multiset() =~= v@.to_multiset().insert(o));
                assert(v@.len() == 0);
                assert(seq![o].to_multiset() =~= Seq::<Object>::empty().to_multiset().insert(o))
                    by {
                    assert(seq![o] =~= Seq::<Object>::empty().push(o));
                }
                assert(tree_objs(Object::Bvh(node)).to_multiset() =~= pre.to_multiset());
            }
            return Some(node);
        }
        let axis = random_index(3);
        sort_by_axis(&mut v, axis);
        let ghost sorted = v@;
        proof {
            broadcast use vstd::multiset::group_multiset_axioms;

            lemma_part_good(obj@, sorted, Multiset::<Object>::empty());
        }
        if v.len() != n {
            proof {
                assert(false);
            }
            return None;
        }
        if n == 2 {
            let o1 = match v.pop() {
                Some(o) => o,
                None => {
                    proof {
                        assert(false);
                    }
                    return None;
                },
            };
            let o0 = match v.pop() {
                Some(o) => o,
                None => {
                    proof {
                        assert(false);
                    }
                    return None;
                },
            };
            proof {
                assert(o1 == sorted[1] && o0 == sorted[0]);
            }
            let b0 = match o0.bounding_box(time0, time1) {
                Some(b) => b,
                None => {
                    proof {
                        assert(false);
                    }
                    return None;
                },
            };
            let b1 = match o1.bounding_box(time0, time1) {
                Some(b) => b,
                None => {
                    proof {
                        assert(false);
                    }
                    return None;
                },
            };
            if !(b0.is_ok() && b1.is_ok()) {
                proof {
                    assert(false);
                }
                return None;
            }
            let nested0 = match &o0 {
                Object::Bvh(_) => true,
                _ => false,
            };
            let nested1 = match &o1 {
                Object::Bvh(_) => true,
                _ => false,
            };
            if nested0 || nested1 {
                proof {
                    assert(false);
                }
                return None;
            }
            let bc = surrounding_box(b0, b1);
            let node = BvhNode { left: Box::new(o0), right: Some(Box::new(o1)), box_aabb: bc };
            proof {
                broadcast use vstd::seq_lib::group_to_multiset_ensures;

                reveal_with_fuel(tree_objs, 3);
                reveal_with_fuel(bvh_wf, 3);
                reveal_with_fuel(bvh_boxes_exact, 3);
                assert(bvh_wf(o0));
                assert(bvh_wf(o1));
                assert(bvh_boxes_exact(o0));
                assert(bvh_boxes_exact(o1));
                assert(tree_objs(o0) =~= seq![o0]);
                assert(tree_objs(o1) =~= seq![o1]);
                assert(tree_objs(Object::Bvh(node)) =~= seq![o0] + seq![o1]);
                assert(tree_objs(Object::Bvh(node)) =~= seq![o0, o1]);
                assert(sorted =~= v@.push(o0).push(o1));
                assert(v@.len() == 0);
                assert(sorted.to_multiset() =~= seq![o0, o1].to_multiset()) by {
                    assert(v@.push(o0).push(o1) =~= seq![o0, o1]);
                }
            }
            return Some(node);
        }
        let mid = n / 2;
        let mut right_vec: Vec<Object> = Vec::new();
        proof {
            broadcast use vstd::seq_lib::group_to_multiset_ensures;

        }
        while v.len() > mid
            invariant
                mid >= 1,
                v@.len() >= mid,
                v@.to_multiset().add(right_vec@.to_multiset()) =~= sorted.to_multiset(),
                v@.len() + right_vec@.len() == sorted.len(),
            decreases v@.len(),
        {
            proof {
                broadcast use vstd::seq_lib::group_to_multiset_ensures;

            }
            let ghost vpre = v@;
            let ghost rpre = right_vec@;
            let x = match v.pop() {
                Some(x) => x,
                None => {
                    return None;
                },
            };
            right_vec.push(x);
            proof {
                broadcast use vstd::seq_lib::group_to_multiset_ensures;

                assert(vpre =~= v@.push(x));
                assert(vpre.to_multiset() =~= v@.to_multiset().insert(x));
                assert(right_vec@.to_multiset() =~= rpre.to_multiset().insert(x));
                assert(v@.to_multiset().add(right_vec@.to_multiset()) =~= sorted.to_multiset());
            }
        }
        let ghost left_seq = v@;
        let ghost right_seq = right_vec@;
        proof {
            broadcast use vstd::multiset::group_multiset_axioms;

            lemma_part_good(obj@, left_seq, right_seq.to_multiset());
            lemma_part_good(obj@, right_seq, left_seq.to_multiset());
            assert(buildable(left_seq));
            assert(buildable(right_seq));
        }
        let left_node = match Self::new_from_vec(v, time0, time1) {
            Some(x) => x,
            None => {
                proof {
                    assert(false);
                }
                return None;
            },
        };
        let right_node = match Self::new_from_vec(right_vec, time0, time1) {
            Some(x) => x,
            None => {
                proof {
                    assert(false);
                }
                return None;
            },
        };
        let lb = left_node.box_aabb;
        let rb = right_node.box_aabb;
        if !(lb.is_ok() && rb.is_ok()) {
            proof {
                assert(false);
            }
            return None;
        }
        let bc = surrounding_box(lb, rb);
        let node = BvhNode {
            left: Box::new(Object::Bvh(left_node)),
            right: Some(Box::new(Object::Bvh(right_node))),
            box_aabb: bc,
        };
        proof {
            broadcast use vstd::seq_lib::group_to_multiset_ensures;

            let tl = tree_objs(Object::Bvh(left_node));
            let tr = tree_objs(Object::Bvh(right_node));
            lemma_multiset_commutative(tl, tr);
            assert(tree_objs(Object::Bvh(node)) =~= tl + tr);
            assert((tl + tr).to_multiset() =~= obj@.to_multiset()) by {
                assert(tl.to_multiset() =~= left_seq.to_multiset());
                assert(tr.to_multiset() =~= right_seq.to_multiset());
            }
        }
        Some(node)
    }
}


/// A hit filtered by a nearer far end of the window.
pub open spec fn filter_hit(h: Option<HitRecord>, t1: int) -> Option<HitRecord> {
    match h {
        Some(rec) => if rec.t <= t1 {
            Some(rec)
        } else {
            None
        },
        None => None,
    }
}

/// The right-preferring combination the hierarchy uses.
pub open spec fn prefer_second(a: Option<HitRecord>, b: Option<HitRecord>) -> Option<HitRecord> {
    match b {
        Some(x) => Some(x),
        None => a,
    }
}

/// Every reported hit is well formed and lies in the window; when the
/// object has a bounding box in range, the hit lies inside it.
#[verifier::rlimit(100)]
#[verifier::spinoff_prover]
pub proof fn lemma_hit_props(o: Object, r: Ray, t_min: int, t_max: int)
    ensures
        o_hit_spec(o, r, t_min, t_max) matches Some(rec) ==> {
            &&& rec_ok(rec)
            &&& t_min <= rec.t <= t_max
            &&& (o_bbox_spec(o) matches Some(b) ==> (box_ok(b) ==> ray_in_box(
                r,
                rec.t as int,
                b,
            )))
        },
    decreases o, 1int,
{
    match o {
        Object::Sphere(q) => {
            crate::sphere::lemma_sphere_hit_props(q, r, t_min, t_max);
        },
        Object::MoveSphere(q) => {
            crate::sphere::lemma_move_sphere_hit_props(q, r, t_min, t_max);
        },
        Object::RectXy(q) => {
            crate::rect::lemma_rect_xy_hit_props(q, r, t_min, t_max);
        },
        Object::RectXz(q) => {
            crate::rect::lemma_rect_xz_hit_props(q, r, t_min, t_max);
        },
        Object::RectYz(q) => {
            crate::rect::lemma_rect_yz_hit_props(q, r, t_min, t_max);
        },
        Object::Tri(q) => {
            crate::triangle::lemma_tri_hit_props(q, r, t_min, t_max);
        },
        Object::Cube(c) => {
            if ray_ok(r) && window_ok(t_min, t_max) {
                lemma_scan_props(c.side.objects@, 0, r, t_min, t_max, t_max, None);
            }
        },
        Object::List(l) => {
            if ray_ok(r) && window_ok(t_min, t_max) {
                lemma_scan_props(l.objects@, 0, r, t_min, t_max, t_max, None);
            }
        },
        Object::Translate(t) => {
            if ray_ok(r) && window_ok(t_min, t_max) && t.offset.bounded((CMAX as int) / 2) {
                let moved = Ray { orig: crate::vec3::minus_spec(r.orig, t.offset), dir: r.dir, tm: r.tm };
                lemma_hit_props(*t.inner, moved, t_min, t_max);
            }
        },
        Object::Rotate(t) => {
            if ray_ok(r) && window_ok(t_min, t_max) {
                let c = t.cos_theta as int;
                let sn = t.sin_theta as int;
                let moved = Ray {
                    orig: Vec3 {
                        x: (crate::fx::fx_mul_spec(c, r.orig.x as int) + crate::fx::fx_mul_spec(
                            -sn,
                            r.orig.z as int,
                        )) as i64,
                        y: r.orig.y,
                        z: (crate::fx::fx_mul_spec(sn, r.orig.x as int) + crate::fx::fx_mul_spec(
                            c,
                            r.orig.z as int,
                        )) as i64,
                    },
                    dir: Vec3 {
                        x: (crate::fx::fx_mul_spec(c, r.dir.x as int) + crate::fx::fx_mul_spec(
                            -sn,
                            r.dir.z as int,
                        )) as i64,
                        y: r.dir.y,
                        z: (crate::fx::fx_mul_spec(sn, r.dir.x as int) + crate::fx::fx_mul_spec(
                            c,
                            r.dir.z as int,
                        )) as i64,
                    },
                    tm: r.tm,
                };
                lemma_hit_props(*t.inner, moved, t_min, t_max);
            }
        },
        Object::Medium(_) => {},
        Object::Bvh(b) => {
            if ray_ok(r) && window_ok(t_min, t_max) {
                lemma_hit_props(*b.left, r, t_min, t_max);
                let left = o_hit_spec(*b.left, r, t_min, t_max);
                let shrunk = match left {
                    Some(rec) => rec.t as int,
                    None => t_max,
                };
                match b.right {
                    Some(rn) => {
                        lemma_hit_props(*rn, r, t_min, shrunk);
                    },
                    None => {},
                }
            }
        },
    }
}

/// Scans return well-formed hits inside `[t_min, cap]`.
proof fn lemma_scan_props(
    s: Seq<Object>,
    i: int,
    r: Ray,
    t_min: int,
    cap: int,
    closest: int,
    best: Option<HitRecord>,
)
    requires
        closest <= cap,
        best matches Some(b) ==> rec_ok(b) && t_min <= b.t <= cap,
    ensures
        scan_from(s, i, r, t_min, closest, best) matches Some(rec) ==> rec_ok(rec) && t_min
            <= rec.t <= cap,
    decreases s, s.len() - i,
{
    if 0 <= i < s.len() {
        lemma_hit_props(s[i], r, t_min, closest);
        match o_hit_spec(s[i], r, t_min, closest) {
            Some(rec) => {
                lemma_scan_props(s, i + 1, r, t_min, cap, rec.t as int, Some(rec));
            },
            None => {
                lemma_scan_props(s, i + 1, r, t_min, cap, closest, best);
            },
        }
    }
}

/// Every member of an all-plain sequence is plain.
pub proof fn lemma_plain_all_index(s: Seq<Object>, i: int)
    requires
        plain_all(s),
        0 <= i < s.len(),
    ensures
        plain(s[i]),
    decreases i,
{
    if i > 0 {
        lemma_plain_all_index(s.drop_first(), i - 1);
        assert(s.drop_first()[i - 1] == s[i]);
    }
}

/// Narrowing the far end of the window only filters a plain object's hit.
#[verifier::rlimit(100)]
#[verifier::spinoff_prover]
pub proof fn lemma_hit_window(o: Object, r: Ray, t_min: int, t1: int, t2: int)
    requires
        plain(o),
        window_ok(t_min, t1),
        window_ok(t_min, t2),
        t1 <= t2,
    ensures
        o_hit_spec(o, r, t_min, t1) == filter_hit(o_hit_spec(o, r, t_min, t2), t1),
    decreases o, 1int,
{
    match o {
        Object::Sphere(q) => {
            crate::sphere::lemma_sphere_window(q, r, t_min, t1, t2);
        },
        Object::MoveSphere(q) => {
            crate::sphere::lemma_move_sphere_window(q, r, t_min, t1, t2);
        },
        Object::RectXy(q) => {
            crate::rect::lemma_rect_xy_window(q, r, t_min, t1, t2);
        },
        Object::RectXz(q) => {
            crate::rect::lemma_rect_xz_window(q, r, t_min, t1, t2);
        },
        Object::RectYz(q) => {
            crate::rect::lemma_rect_yz_window(q, r, t_min, t1, t2);
        },
        Object::Tri(q) => {
            crate::triangle::lemma_tri_window(q, r, t_min, t1, t2);
        },
        Object::Cube(c) => {
            if ray_ok(r) {
                lemma_scan_window(c.side.objects@, 0, r, t_min, t1, t1, None, t2, None);
            }
        },
        Object::List(l) => {
            if ray_ok(r) {
                lemma_scan_window(l.objects@, 0, r, t_min, t1, t1, None, t2, None);
            }
        },
        Object::Translate(t) => {
            if ray_ok(r) && t.offset.bounded((CMAX as int) / 2) {
                let moved = Ray { orig: crate::vec3::minus_spec(r.orig, t.offset), dir: r.dir, tm: r.tm };
                lemma_hit_window(*t.inner, moved, t_min, t1, t2);
            }
        },
        Object::Rotate(t) => {
            if ray_ok(r) && crate::object::rot_ok(t) {
                let c = t.cos_theta as int;
                let sn = t.sin_theta as int;
                let moved = Ray {
                    orig: Vec3 {
                        x: (crate::fx::fx_mul_spec(c, r.orig.x as int) + crate::fx::fx_mul_spec(
                            -sn,
                            r.orig.z as int,
                        )) as i64,
                        y: r.orig.y,
                        z: (crate::fx::fx_mul_spec(sn, r.orig.x as int) + crate::fx::fx_mul_spec(
                            c,
                            r.orig.z as int,
                        )) as i64,
                    },
                    dir: Vec3 {
                        x: (crate::fx::fx_mul_spec(c, r.dir.x as int) + crate::fx::fx_mul_spec(
                            -sn,
                            r.dir.z as int,
                        )) as i64,
                        y: r.dir.y,
                        z: (crate::fx::fx_mul_spec(sn, r.dir.x as int) + crate::fx::fx_mul_spec(
                            c,
                            r.dir.z as int,
                        )) as i64,
                    },
                    tm: r.tm,
                };
                lemma_hit_window(*t.inner, moved, t_min, t1, t2);
            }
        },
        Object::Medium(_) => {},
        Object::Bvh(_) => {},
    }
}

/// The scan's window-narrowing invariant: a scan whose running state is the
/// filtered image of another scan's state stays its filtered image.
#[verifier::rlimit(100)]
#[verifier::spinoff_prover]
proof fn lemma_scan_window(
    s: Seq<Object>,
    i: int,
    r: Ray,
    t_min: int,
    t1: int,
    c1: int,
    b1: Option<HitRecord>,
    c2: int,
    b2: Option<HitRecord>,
)
    requires
        plain_all(s),
        -T_INF <= t_min <= T_INF,
        -T_INF <= t1 <= T_INF,
        -T_INF <= c2 <= T_INF,
        c1 == (if c2 <= t1 {
            c2
        } else {
            t1
        }),
        b1 == (match b2 {
            Some(b) => if b.t <= t1 {
                Some(b)
            } else {
                Option::<HitRecord>::None
            },
            None => Option::<HitRecord>::None,
        }),
        b2 matches Some(b) ==> c2 == b.t && t_min <= b.t,
    ensures
        scan_from(s, i, r, t_min, c1, b1) == filter_hit(scan_from(s, i, r, t_min, c2, b2), t1),
    decreases s, s.len() - i,
{
    if 0 <= i < s.len() {
        lemma_plain_all_index(s, i);
        lemma_hit_props(s[i], r, t_min, c2);
        lemma_hit_window(s[i], r, t_min, c1, c2);
        match o_hit_spec(s[i], r, t_min, c2) {
            Some(rec) => {
                if rec.t <= c1 {
                    lemma_scan_window(s, i + 1, r, t_min, t1, rec.t as int, Some(rec),
                        rec.t as int, Some(rec));
                } else {
                    lemma_scan_window(s, i + 1, r, t_min, t1, c1, b1, rec.t as int, Some(rec));
                }
            },
            None => {
                lemma_scan_window(s, i + 1, r, t_min, t1, c1, b1, c2, b2);
            },
        }
    }
}


/// Scanning past the first part of a concatenation is scanning the second
/// part from the state the first part left behind.
proof fn lemma_scan_shift(s1: Seq<Object>, s2: Seq<Object>, j: int, r: Ray, t_min: int, c: int, b: Option<HitRecord>)
    requires
        0 <= j <= s2.len(),
    ensures
        scan_from(s1 + s2, s1.len() + j, r, t_min, c, b) == scan_from(s2, j, r, t_min, c, b),
    decreases s2.len() - j,
{
    if j < s2.len() {
        assert((s1 + s2)[s1.len() + j] == s2[j]);
        match o_hit_spec(s2[j], r, t_min, c) {
            Some(rec) => {
                lemma_scan_shift(s1, s2, j + 1, r, t_min, rec.t as int, Some(rec));
            },
            None => {
                lemma_scan_shift(s1, s2, j + 1, r, t_min, c, b);
            },
        }
    } else {
        assert((s1 + s2).len() == s1.len() + s2.len());
    }
}

proof fn lemma_scan_concat_from(s1: Seq<Object>, s2: Seq<Object>, i: int, r: Ray, t_min: int, c: int, b: Option<HitRecord>)
    requires
        0 <= i <= s1.len(),
        b matches Some(x) ==> c == x.t,
    ensures
        scan_from(s1 + s2, i, r, t_min, c, b) == scan_from(
            s2,
            0,
            r,
            t_min,
            match scan_from(s1, i, r, t_min, c, b) {
                Some(x) => x.t as int,
                None => c,
            },
            scan_from(s1, i, r, t_min, c, b),
        ),
    decreases s1.len() - i,
{
    if i < s1.len() {
        assert((s1 + s2)[i] == s1[i]);
        match o_hit_spec(s1[i], r, t_min, c) {
            Some(rec) => {
                assert(scan_from(s1, i, r, t_min, c, b) == scan_from(s1, i + 1, r, t_min,
                    rec.t as int, Some(rec)));
                assert(scan_from(s1 + s2, i, r, t_min, c, b) == scan_from(s1 + s2, i + 1, r,
                    t_min, rec.t as int, Some(rec)));
                lemma_scan_detach(s1, i + 1, r, t_min, rec.t as int, rec);
                lemma_scan_concat_from(s1, s2, i + 1, r, t_min, rec.t as int, Some(rec));
            },
            None => {
                assert(scan_from(s1, i, r, t_min, c, b) == scan_from(s1, i + 1, r, t_min, c, b));
                assert(scan_from(s1 + s2, i, r, t_min, c, b) == scan_from(s1 + s2, i + 1, r,
                    t_min, c, b));
                lemma_scan_concat_from(s1, s2, i + 1, r, t_min, c, b);
            },
        }
    } else {
        lemma_scan_shift(s1, s2, 0, r, t_min, c, b);
        assert(scan_from(s1, i, r, t_min, c, b) == b);
        match b {
            Some(x) => {
                assert(c == x.t);
            },
            None => {},
        }
    }
}

/// The carried best hit only matters when nothing later beats it.
proof fn lemma_scan_detach(s: Seq<Object>, i: int, r: Ray, t_min: int, c: int, bx: HitRecord)
    ensures
        scan_from(s, i, r, t_min, c, Some(bx)) == prefer_second(
            Some(bx),
            scan_from(s, i, r, t_min, c, None),
        ),
    decreases s, s.len() - i,
{
    if 0 <= i < s.len() {
        match o_hit_spec(s[i], r, t_min, c) {
            Some(rec) => {
                assert(scan_from(s, i, r, t_min, c, Some(bx)) == scan_from(s, i + 1, r, t_min,
                    rec.t as int, Some(rec)));
                assert(scan_from(s, i, r, t_min, c, None) == scan_from(s, i + 1, r, t_min,
                    rec.t as int, Some(rec)));
                lemma_scan_detach(s, i + 1, r, t_min, rec.t as int, rec);
            },
            None => {
                lemma_scan_detach(s, i + 1, r, t_min, c, bx);
            },
        }
    }
}

/// A scan that starts with nothing and returns a hit got it from one of
/// the objects, searched inside the original window.
proof fn lemma_scan_exists(s: Seq<Object>, i: int, r: Ray, t_min: int, c: int)
    ensures
        scan_from(s, i, r, t_min, c, None) matches Some(rec) ==> exists|j: int, cw: int|
            i <= j < s.len() && cw <= c && #[trigger] o_hit_spec(s[j], r, t_min, cw) == Some(rec),
    decreases s, s.len() - i,
{
    if 0 <= i < s.len() {
        lemma_hit_props(s[i], r, t_min, c);
        match o_hit_spec(s[i], r, t_min, c) {
            Some(rec0) => {
                lemma_scan_detach(s, i + 1, r, t_min, rec0.t as int, rec0);
                lemma_scan_exists(s, i + 1, r, t_min, rec0.t as int);
                let res = scan_from(s, i, r, t_min, c, None);
                if res is Some {
                    let rec = res->Some_0;
                    let rest = scan_from(s, i + 1, r, t_min, rec0.t as int, None);
                    if rest is Some {
                        assert(rec == rest->Some_0);
                        let (j, cw): (int, int) = choose|j: int, cw: int|
                            i + 1 <= j < s.len() && cw <= rec0.t as int && #[trigger] o_hit_spec(
                                s[j],
                                r,
                                t_min,
                                cw,
                            ) == Some(rec);
                        assert(i <= j < s.len() && cw <= c && o_hit_spec(s[j], r, t_min, cw)
                            == Some(rec));
                    } else {
                        assert(rec == rec0);
                        assert(i <= i < s.len() && c <= c && o_hit_spec(s[i], r, t_min, c) == Some(
                            rec,
                        ));
                    }
                }
            },
            None => {
                lemma_scan_exists(s, i + 1, r, t_min, c);
            },
        }
    }
}

/// Splitting plainness over a concatenation.
proof fn lemma_plain_all_parts(s1: Seq<Object>, s2: Seq<Object>)
    requires
        plain_all(s1 + s2),
    ensures
        plain_all(s1),
        plain_all(s2),
{
    lemma_plain_all_from_forall(s1);
    lemma_plain_all_from_forall(s2);
    assert forall|i: int| 0 <= i < s1.len() implies plain(#[trigger] s1[i]) by {
        assert((s1 + s2)[i] == s1[i]);
        lemma_plain_all_index(s1 + s2, i);
    }
    assert forall|i: int| 0 <= i < s2.len() implies plain(#[trigger] s2[i]) by {
        assert((s1 + s2)[s1.len() + i] == s2[i]);
        lemma_plain_all_index(s1 + s2, s1.len() + i);
    }
}

proof fn lemma_plain_all_from_forall(s: Seq<Object>)
    ensures
        (forall|i: int| 0 <= i < s.len() ==> plain(#[trigger] s[i])) ==> plain_all(s),
    decreases s.len(),
{
    if s.len() > 0 {
        lemma_plain_all_from_forall(s.drop_first());
        if forall|i: int| 0 <= i < s.len() ==> plain(#[trigger] s[i]) {
            assert forall|i: int| 0 <= i < s.drop_first().len() implies plain(
                #[trigger] s.drop_first()[i],
            ) by {
                assert(s.drop_first()[i] == s[i + 1]);
            }
            assert(plain(s[0]));
        }
    }
}

/// Plain objects are free of media.
proof fn lemma_plain_deterministic(o: Object)
    requires
        plain(o),
    ensures
        deterministic(o),
    decreases o, 1int,
{
    match o {
        Object::Translate(t) => {
            lemma_plain_deterministic(*t.inner);
        },
        Object::Rotate(t) => {
            lemma_plain_deterministic(*t.inner);
        },
        Object::Cube(c) => {
            lemma_plain_det_all(c.side.objects@);
        },
        Object::List(l) => {
            lemma_plain_det_all(l.objects@);
        },
        _ => {},
    }
}

proof fn lemma_plain_det_all(s: Seq<Object>)
    requires
        plain_all(s),
    ensures
        det_all(s),
    decreases s, s.len() + 1,
{
    if s.len() > 0 {
        lemma_plain_deterministic(s[0]);
        lemma_plain_det_all(s.drop_first());
    }
}

/// A well-formed node or object always reports a box in range.
pub proof fn lemma_wf_box_ok(o: Object)
    requires
        bvh_wf(o),
    ensures
        o_bbox_spec(o) matches Some(bb) && box_ok(bb),
{
    match o {
        Object::Bvh(b) => {
            assert(o_bbox_spec(o) == Some(b.box_aabb));
        },
        _ => {},
    }
}

/// The theorem the hierarchy is built for: over well-formed nodes holding
/// plain objects, the hierarchy's hit has exactly the parameter the linear
/// scan of all its objects finds — the same decision and the same distance,
/// for every ray and every nondegenerate window.
#[verifier::rlimit(100)]
#[verifier::spinoff_prover]
pub proof fn lemma_bvh_scan_equiv(o: Object, r: Ray, t_min: int, t_max: int)
    requires
        bvh_wf(o),
        plain_all(tree_objs(o)),
        ray_ok(r),
        window_ok(t_min, t_max),
        t_min <= t_max,
    ensures
        t_min < t_max ==> opt_t(o_hit_spec(o, r, t_min, t_max)) == opt_t(
            scan_from(tree_objs(o), 0, r, t_min, t_max, None),
        ),
        o_hit_spec(o, r, t_min, t_max) matches Some(rec) ==> opt_t(
            scan_from(tree_objs(o), 0, r, t_min, t_max, None),
        ) == Some(rec.t as int),
    decreases o,
{
    if !(o is Bvh) {
        reveal_with_fuel(scan_from, 3);
        assert(tree_objs(o) =~= seq![o]);
        lemma_hit_props(o, r, t_min, t_max);
        assert(scan_from(seq![o], 0, r, t_min, t_max, None) == (
        match o_hit_spec(o, r, t_min, t_max) {
            Some(rec) => scan_from(seq![o], 1, r, t_min, rec.t as int, Some(rec)),
            None => scan_from(seq![o], 1, r, t_min, t_max, None),
        }));
    } else {
        let b = o->Bvh_0;
        let s1 = tree_objs(*b.left);
        let s2 = match b.right {
            Some(rn) => tree_objs(*rn),
            None => Seq::<Object>::empty(),
        };
        assert(tree_objs(o) =~= s1 + s2);
        lemma_plain_all_parts(s1, s2);
        lemma_wf_box_ok(*b.left);
        match b.right {
            Some(rn) => {
                lemma_wf_box_ok(*rn);
            },
            None => {},
        }
        let bl = o_bbox_spec(*b.left)->Some_0;
        lemma_hit_props(*b.left, r, t_min, t_max);
        let left = o_hit_spec(*b.left, r, t_min, t_max);
        let shrunk = match left {
            Some(rec) => rec.t as int,
            None => t_max,
        };
        lemma_bvh_scan_equiv(*b.left, r, t_min, t_max);
        let b1 = scan_from(s1, 0, r, t_min, t_max, None);
        lemma_scan_props(s1, 0, r, t_min, t_max, t_max, None);
        let c1 = match b1 {
            Some(x) => x.t as int,
            None => t_max,
        };
        lemma_scan_concat_from(s1, s2, 0, r, t_min, t_max, None);
        let scan2 = scan_from(s2, 0, r, t_min, c1, None);
        lemma_scan_props(s2, 0, r, t_min, c1, c1, None);
        match b1 {
            Some(x) => {
                lemma_scan_detach(s2, 0, r, t_min, c1, x);
            },
            None => {},
        }
        // whole-scan value in terms of the parts
        let whole = scan_from(s1 + s2, 0, r, t_min, t_max, None);
        assert(whole == prefer_second(b1, scan2));

        if !slab_spec(b.box_aabb, r, t_min, t_max) {
            // the box prunes; show the scan also finds nothing when the
            // window is nondegenerate
            assert(o_hit_spec(o, r, t_min, t_max) is None);
            if t_min < t_max {
                if left is Some {
                    let lrec = left->Some_0;
                    assert(box_ok(bl));
                    assert(ray_in_box(r, lrec.t as int, bl));
                    lemma_box_monotone(r, lrec.t as int, bl, b.box_aabb);
                    lemma_slab_sees_hit(b.box_aabb, r, t_min, t_max, lrec.t as int);
                    assert(false);
                }
                assert(b1 is None) by {
                    assert(opt_t(left) == opt_t(b1));
                }
                assert(c1 == t_max);
                if scan2 is Some {
                    match b.right {
                        Some(rn) => {
                            lemma_bvh_scan_equiv(*rn, r, t_min, t_max);
                            let right = o_hit_spec(*rn, r, t_min, t_max);
                            assert(opt_t(right) == opt_t(scan2));
                            let rrec = right->Some_0;
                            lemma_hit_props(*rn, r, t_min, t_max);
                            let br = o_bbox_spec(*rn)->Some_0;
                            assert(box_ok(br));
                            assert(ray_in_box(r, rrec.t as int, br));
                            lemma_box_monotone(r, rrec.t as int, br, b.box_aabb);
                            lemma_slab_sees_hit(b.box_aabb, r, t_min, t_max, rrec.t as int);
                            assert(false);
                        },
                        None => {
                            assert(scan_from(s2, 0, r, t_min, c1, None) is None);
                        },
                    }
                }
                assert(whole is None);
            }
        } else {
            // the box passes: the node combines its children, then
            // re-checks the result against its own box, which cannot
            // reject a hit the children vouch for
            let right = match b.right {
                Some(rn) => o_hit_spec(*rn, r, t_min, shrunk),
                None => Option::<HitRecord>::None,
            };
            let res0 = prefer_second(left, right);
            assert(o_hit_spec(o, r, t_min, t_max) == post_check(res0, o_bbox_spec(o), r));
            assert(o_bbox_spec(o) == Some(b.box_aabb));

            // membership of whichever child hit survives
            match b.right {
                Some(rn) => {
                    lemma_hit_props(*rn, r, t_min, shrunk);
                },
                None => {},
            }
            if res0 is Some {
                if right is Some {
                    let rr = right->Some_0;
                    let br = o_bbox_spec(*b.right->Some_0)->Some_0;
                    assert(box_ok(br));
                    assert(ray_in_box(r, rr.t as int, br));
                    lemma_box_monotone(r, rr.t as int, br, b.box_aabb);
                } else {
                    let lrec = left->Some_0;
                    assert(box_ok(bl));
                    assert(ray_in_box(r, lrec.t as int, bl));
                    lemma_box_monotone(r, lrec.t as int, bl, b.box_aabb);
                }
                assert(post_check(res0, o_bbox_spec(o), r) == res0);
            }

            // relate the right search to the scan of the second part
            if t_min < t_max {
                assert(opt_t(left) == opt_t(b1));
                assert(c1 == shrunk);
                match b.right {
                    Some(rn) => {
                        lemma_bvh_scan_equiv(*rn, r, t_min, shrunk);
                        if t_min < shrunk {
                            assert(opt_t(right) == opt_t(scan2));
                        } else {
                            // degenerate right window: a scan hit pins the
                            // parameter at the window, where the left hit
                            // already sits
                            if right is Some {
                                assert(opt_t(scan2) == Some(right->Some_0.t as int));
                            }
                            if scan2 is Some {
                                let sr = scan2->Some_0;
                                assert(t_min <= sr.t <= c1);
                                assert(sr.t == t_min);
                                assert(shrunk == t_min);
                                assert(left is Some && left->Some_0.t == t_min);
                            }
                        }
                    },
                    None => {
                        assert(right is None);
                        assert(scan2 is None);
                    },
                }
                assert(opt_t(prefer_second(left, right)) == opt_t(prefer_second(b1, scan2)));
                assert(opt_t(o_hit_spec(o, r, t_min, t_max)) == opt_t(whole));
            } else {
                // degenerate window at this node: only the forward
                // direction is claimed
                if o_hit_spec(o, r, t_min, t_max) is Some {
                    let rec = o_hit_spec(o, r, t_min, t_max)->Some_0;
                    assert(res0 is Some && res0->Some_0.t == rec.t);
                    assert(rec.t == t_min);
                    if right is Some {
                        let rr2 = right->Some_0;
                        match b.right {
                            Some(rn) => {
                                lemma_bvh_scan_equiv(*rn, r, t_min, shrunk);
                                assert(opt_t(scan2) == Some(rr2.t as int));
                                assert(whole is Some && whole->Some_0.t == rec.t);
                            },
                            None => {},
                        }
                    } else {
                        let lrec = left->Some_0;
                        assert(opt_t(b1) == Some(lrec.t as int));
                        if scan2 is Some {
                            let sr = scan2->Some_0;
                            assert(t_min <= sr.t <= c1);
                            assert(whole is Some && whole->Some_0.t == rec.t);
                        } else {
                            assert(whole == b1);
                        }
                    }
                }
            }
        }
    }
}


/// The linear scan is the closest-hit rule: when it reports a hit, no
/// child hits nearer over the same window; when it reports nothing, no
/// child hits at all.
pub proof fn lemma_scan_optimal(s: Seq<Object>, r: Ray, t_min: int, t_max: int)
    requires
        plain_all(s),
        window_ok(t_min, t_max),
    ensures
        scan_from(s, 0, r, t_min, t_max, None) is None ==> forall|j: int|
            0 <= j < s.len() ==> o_hit_spec(#[trigger] s[j], r, t_min, t_max) is None,
        scan_from(s, 0, r, t_min, t_max, None) matches Some(rec) ==> forall|j: int|
            0 <= j < s.len() ==> (o_hit_spec(#[trigger] s[j], r, t_min, t_max) matches Some(h)
                ==> rec.t <= h.t),
{
    lemma_scan_optimal_from(s, 0, r, t_min, t_max, None);
}

#[verifier::rlimit(100)]
#[verifier::spinoff_prover]
proof fn lemma_scan_optimal_from(
    s: Seq<Object>,
    i: int,
    r: Ray,
    t_min: int,
    c: int,
    best: Option<HitRecord>,
)
    requires
        plain_all(s),
        0 <= i <= s.len(),
        -T_INF <= t_min <= T_INF,
        -T_INF <= c <= T_INF,
        best matches Some(b) ==> t_min <= b.t && b.t == c,
    ensures
        scan_from(s, i, r, t_min, c, best) is None ==> best is None && forall|j: int|
            i <= j < s.len() ==> o_hit_spec(#[trigger] s[j], r, t_min, c) is None,
        scan_from(s, i, r, t_min, c, best) matches Some(rec) ==> rec.t <= c && (best
            matches Some(b) ==> rec.t <= b.t) && forall|j: int|
            i <= j < s.len() ==> (o_hit_spec(#[trigger] s[j], r, t_min, c) matches Some(h)
                ==> rec.t <= h.t),
    decreases s, s.len() - i,
{
    if 0 <= i < s.len() {
        lemma_plain_all_index(s, i);
        lemma_hit_props(s[i], r, t_min, c);
        match o_hit_spec(s[i], r, t_min, c) {
            Some(rec0) => {
                lemma_scan_optimal_from(s, i + 1, r, t_min, rec0.t as int, Some(rec0));
                let res = scan_from(s, i, r, t_min, c, best);
                assert(res == scan_from(s, i + 1, r, t_min, rec0.t as int, Some(rec0)));
                assert(res is Some);
                if res is Some {
                    let rec = res->Some_0;
                    assert forall|j: int|
                        i <= j < s.len() implies (o_hit_spec(#[trigger] s[j], r, t_min, c)
                        matches Some(h) ==> rec.t <= h.t) by {
                        if j == i {
                        } else {
                            lemma_plain_all_index(s, j);
                            lemma_hit_window(s[j], r, t_min, rec0.t as int, c);
                            if o_hit_spec(s[j], r, t_min, c) is Some {
                                let h = o_hit_spec(s[j], r, t_min, c)->Some_0;
                                if h.t <= rec0.t {
                                    assert(o_hit_spec(s[j], r, t_min, rec0.t as int) == Some(h));
                                } else {
                                    assert(rec.t <= rec0.t);
                                }
                            }
                        }
                    }
                }
            },
            None => {
                lemma_scan_optimal_from(s, i + 1, r, t_min, c, best);
            },
        }
    }
}

} // verus!

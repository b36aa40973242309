//! Surfaces a ray can strike: the hit-record protocol and the closed family
//! of scene nodes.

pub mod aa_rect;
pub mod box_obj;
pub mod bvh_node;
pub mod flip_face;
pub mod hittable_list;
pub mod medium;
pub mod moving_sphere;
pub mod rotate;
pub mod sphere;
pub mod translate;

use vstd::prelude::*;
use crate::aabb::Aabb;
use crate::material::Material;
use crate::math::SCALE;
use crate::ray::Ray;
use crate::vec3::Vec3;

verus! {

/// Everything the integrator learns about one intersection.  The material
/// is shared with the scene node that reported the hit.
pub struct HitRecord<'a> {
    pub p: Vec3,
    pub normal: Vec3,
    pub t: i64,
    pub u: i64,
    pub v: i64,
    pub front_face: bool,
    pub mat: &'a Material,
}

/// The mathematical content of a hit, with the material by value; what the
/// intersection specification functions return.
pub struct HitData {
    pub p: Vec3,
    pub normal: Vec3,
    pub t: i64,
    pub u: i64,
    pub v: i64,
    pub front_face: bool,
    pub mat: Material,
}

impl HitData {
    /// The geometric fields are in range; the normal is unit-scale.
    pub open spec fn wf_geom(self) -> bool {
        self.p.in_range()
            && self.normal.bounded(2 * SCALE as int)
            && 0 <= self.u <= SCALE
            && 0 <= self.v <= SCALE
    }
}

impl<'a> HitRecord<'a> {
    /// The geometric fields are in range; the normal is unit-scale.
    pub open spec fn wf_geom(self) -> bool {
        self.p.in_range()
            && self.normal.bounded(2 * SCALE as int)
            && 0 <= self.u <= SCALE
            && 0 <= self.v <= SCALE
    }

    /// The record carries exactly the fields of the specified hit.
    pub open spec fn agrees(self, hd: HitData) -> bool {
        self.p == hd.p
            && self.normal == hd.normal
            && self.t == hd.t
            && self.u == hd.u
            && self.v == hd.v
            && self.front_face == hd.front_face
            && *self.mat == hd.mat
    }

    /// Orient the outward normal against the ray: `front_face` records
    /// whether the ray arrived from the outside.
    pub fn new(p: Vec3, outward_normal: Vec3, t: i64, u: i64, v: i64, r: &Ray, mat: &'a Material)
        -> (rec: HitRecord<'a>)
        requires
            r.wf(),
            outward_normal.bounded(0x4000_0000),
        ensures
            rec.p == p,
            rec.t == t,
            rec.u == u,
            rec.v == v,
            rec.mat == mat,
            rec.front_face == (Vec3::dot_spec(r.direction, outward_normal) < 0),
            rec.front_face ==> rec.normal == outward_normal,
            !rec.front_face ==> rec.normal.x == -outward_normal.x
                && rec.normal.y == -outward_normal.y
                && rec.normal.z == -outward_normal.z,
    {
        let front_face = r.direction.dot(&outward_normal) < 0;
        let normal = if front_face {
            outward_normal
        } else {
            outward_normal.neg()
        };
        HitRecord { p, normal, t, u, v, front_face, mat }
    }
}

/// How a specification-level hit orients the stored normal, mirroring
/// `HitRecord::new`.
pub open spec fn oriented_normal(dir: Vec3, outward: Vec3) -> Vec3 {
    if Vec3::dot_spec(dir, outward) < 0 {
        outward
    } else {
        Vec3 { x: (-(outward.x as int)) as i64, y: (-(outward.y as int)) as i64,
            z: (-(outward.z as int)) as i64 }
    }
}

/// The stored normal never points along the ray: its dot product with the
/// ray direction is zero or negative, and `front_face` holds exactly when
/// the geometric outward normal opposed the ray.
pub proof fn lemma_normal_opposes_ray(dir: Vec3, outward: Vec3, front: bool, normal: Vec3)
    requires
        front == (Vec3::dot_spec(dir, outward) < 0),
        front ==> normal == outward,
        !front ==> normal.x == -outward.x && normal.y == -outward.y && normal.z == -outward.z,
    ensures
        Vec3::dot_spec(dir, normal) <= 0,
{
    if !front {
        assert(Vec3::dot_spec(dir, normal) == -Vec3::dot_spec(dir, outward)) by (nonlinear_arith)
            requires
                normal.x == -outward.x && normal.y == -outward.y && normal.z == -outward.z,
        ;
    }
}

/// Every kind of scene node a ray can strike.
pub enum Hittable {
    Sphere(sphere::Sphere),
    MovingSphere(moving_sphere::MovingSphere),
    XyRect(aa_rect::XyRect),
    XzRect(aa_rect::XzRect),
    YzRect(aa_rect::YzRect),
    BoxObj(box_obj::BoxObj),
    Medium(medium::constant::ConstantMedium),
    Translate(translate::Translate),
    RotateY(rotate::RotateY),
    FlipFace(flip_face::FlipFace),
    List(hittable_list::HittableList),
    Bvh(bvh_node::BvhNode),
}

impl Hittable {
    /// Geometric validity of the whole subtree: coordinates in range,
    /// boxes consistent with children.
    pub open spec fn wf(self) -> bool
        decreases self,
    {
        match self {
            Hittable::Sphere(s) => s.wf(),
            Hittable::MovingSphere(s) => s.wf(),
            Hittable::XyRect(s) => s.wf(),
            Hittable::XzRect(s) => s.wf(),
            Hittable::YzRect(s) => s.wf(),
            Hittable::BoxObj(b) => list_wf(b.sides.objects@),
            Hittable::Medium(m) => m.boundary.wf() && m.boundary.bbox_spec() is Some
                && 1 <= m.density && m.phase_function.wf(),
            Hittable::Translate(t) => t.ptr.wf() && t.offset.in_range()
                && (match t.ptr.bbox_spec() {
                    Option::Some(b) => {
                        &&& -(crate::math::VMAX as int) <= b.min.x + t.offset.x
                        &&& b.max.x + t.offset.x <= crate::math::VMAX as int
                        &&& -(crate::math::VMAX as int) <= b.min.y + t.offset.y
                        &&& b.max.y + t.offset.y <= crate::math::VMAX as int
                        &&& -(crate::math::VMAX as int) <= b.min.z + t.offset.z
                        &&& b.max.z + t.offset.z <= crate::math::VMAX as int
                    },
                    Option::None => true,
                }),
            Hittable::RotateY(rt) => rt.ptr.wf() && rt.bbox.wf()
                && -SCALE <= rt.sin_theta <= SCALE && -SCALE <= rt.cos_theta <= SCALE,
            Hittable::FlipFace(f) => f.ptr.wf(),
            Hittable::List(l) => list_wf(l.objects@),
            Hittable::Bvh(n) => {
                &&& n.left.wf()
                &&& n.bb.wf()
                &&& (n.left.bbox_spec() matches Option::Some(bl) && n.bb.contains_box(bl))
                &&& (match n.right {
                    Option::Some(rt) => rt.wf()
                        && (rt.bbox_spec() matches Option::Some(br) && n.bb.contains_box(br)),
                    Option::None => true,
                })
            },
        }
    }

    /// Whether the subtree's intersection answer is a function of the ray
    /// alone: false as soon as a participating medium is inside.
    pub open spec fn deterministic(self) -> bool
        decreases self,
    {
        match self {
            Hittable::Sphere(_) => true,
            Hittable::MovingSphere(_) => true,
            Hittable::XyRect(_) => true,
            Hittable::XzRect(_) => true,
            Hittable::YzRect(_) => true,
            Hittable::BoxObj(b) => list_deterministic(b.sides.objects@),
            Hittable::Medium(_) => false,
            Hittable::Translate(t) => t.ptr.deterministic(),
            Hittable::RotateY(rt) => rt.ptr.deterministic(),
            Hittable::FlipFace(f) => f.ptr.deterministic(),
            Hittable::List(l) => list_deterministic(l.objects@),
            Hittable::Bvh(n) => n.left.deterministic() && (match n.right {
                Option::Some(rt) => rt.deterministic(),
                Option::None => true,
            }),
        }
    }

    /// The box the node reports: absent only for an empty aggregate.
    pub open spec fn bbox_spec(self) -> Option<Aabb>
        decreases self, 1int, 0int,
    {
        match self {
            Hittable::Sphere(s) => Some(s.bbox()),
            Hittable::MovingSphere(s) => Some(moving_sphere::moving_sphere_bbox_spec(s)),
            Hittable::XyRect(s) => Some(s.bbox()),
            Hittable::XzRect(s) => Some(s.bbox()),
            Hittable::YzRect(s) => Some(s.bbox()),
            Hittable::BoxObj(b) => list_bbox_spec(b.sides.objects@),
            Hittable::Medium(m) => m.boundary.bbox_spec(),
            Hittable::Translate(t) => match t.ptr.bbox_spec() {
                Option::Some(b) => Some(Aabb {
                    min: Vec3 {
                        x: (b.min.x + t.offset.x) as i64,
                        y: (b.min.y + t.offset.y) as i64,
                        z: (b.min.z + t.offset.z) as i64,
                    },
                    max: Vec3 {
                        x: (b.max.x + t.offset.x) as i64,
                        y: (b.max.y + t.offset.y) as i64,
                        z: (b.max.z + t.offset.z) as i64,
                    },
                }),
                Option::None => None,
            },
            Hittable::RotateY(rt) => Some(rt.bbox),
            Hittable::FlipFace(f) => f.ptr.bbox_spec(),
            Hittable::List(l) => list_bbox_spec(l.objects@),
            Hittable::Bvh(n) => Some(n.bb),
        }
    }

    /// The node's box, exactly as `bbox_spec` states it; the time span is
    /// accepted for interface fidelity, a moving sphere always reports its
    /// own keyframe span.
    pub fn bounding_box(&self, time0: i64, time1: i64) -> (res: Option<Aabb>)
        requires
            self.wf(),
        ensures
            res == self.bbox_spec(),
            res matches Option::Some(b) ==> b.wf(),
        decreases *self,
    {
        proof {
            lemma_bbox_wf(*self);
        }
        match self {
            Hittable::Sphere(s) => Some(Aabb {
                min: Vec3 {
                    x: s.center.x - s.radius,
                    y: s.center.y - s.radius,
                    z: s.center.z - s.radius,
                },
                max: Vec3 {
                    x: s.center.x + s.radius,
                    y: s.center.y + s.radius,
                    z: s.center.z + s.radius,
                },
            }),
            Hittable::MovingSphere(s) => Some(s.bbox_exec()),
            Hittable::XyRect(s) => Some(Aabb {
                min: Vec3 { x: s.x0, y: s.y0, z: s.k - aa_rect::RECT_PAD },
                max: Vec3 { x: s.x1, y: s.y1, z: s.k + aa_rect::RECT_PAD },
            }),
            Hittable::XzRect(s) => Some(Aabb {
                min: Vec3 { x: s.x0, y: s.k - aa_rect::RECT_PAD, z: s.z0 },
                max: Vec3 { x: s.x1, y: s.k + aa_rect::RECT_PAD, z: s.z1 },
            }),
            Hittable::YzRect(s) => Some(Aabb {
                min: Vec3 { x: s.k - aa_rect::RECT_PAD, y: s.y0, z: s.z0 },
                max: Vec3 { x: s.k + aa_rect::RECT_PAD, y: s.y1, z: s.z1 },
            }),
            Hittable::BoxObj(b) => bounding_box_list(&b.sides.objects, time0, time1),
            Hittable::Medium(m) => m.boundary.bounding_box(time0, time1),
            Hittable::Translate(t) => {
                match t.ptr.bounding_box(time0, time1) {
                    Option::Some(b) => Some(Aabb {
                        min: Vec3 {
                            x: b.min.x + t.offset.x,
                            y: b.min.y + t.offset.y,
                            z: b.min.z + t.offset.z,
                        },
                        max: Vec3 {
                            x: b.max.x + t.offset.x,
                            y: b.max.y + t.offset.y,
                            z: b.max.z + t.offset.z,
                        },
                    }),
                    Option::None => None,
                }
            },
            Hittable::RotateY(rt) => Some(rt.bbox),
            Hittable::FlipFace(f) => f.ptr.bounding_box(time0, time1),
            Hittable::List(l) => bounding_box_list(&l.objects, time0, time1),
            Hittable::Bvh(n) => Some(n.bb),
        }
    }
}

/// Validity of every node of an aggregate, each with a box.
pub open spec fn list_wf(s: Seq<Hittable>) -> bool
    decreases s,
{
    forall|i: int| 0 <= i < s.len() ==> (#[trigger] s[i]).wf() && s[i].bbox_spec() is Some
}

/// No randomized node anywhere in the aggregate.
pub open spec fn list_deterministic(s: Seq<Hittable>) -> bool
    decreases s,
{
    forall|i: int| 0 <= i < s.len() ==> (#[trigger] s[i]).deterministic()
}

/// The box a node reports, or a degenerate point box when it has none;
/// only read under `list_wf`, which rules the degenerate case out.
pub open spec fn box_of(h: Hittable) -> Aabb
    decreases h, 2int, 0int,
{
    match h.bbox_spec() {
        Option::Some(b) => b,
        Option::None => Aabb {
            min: Vec3 { x: 0i64, y: 0i64, z: 0i64 },
            max: Vec3 { x: 0i64, y: 0i64, z: 0i64 },
        },
    }
}

/// Fold the members' boxes from position `i` onward into `acc`.
pub open spec fn list_box_from(s: Seq<Hittable>, i: int, acc: Aabb) -> Aabb
    decreases s, 0int, s.len() - i,
{
    if i < 0 || i >= s.len() {
        acc
    } else {
        list_box_from(s, i + 1, Aabb::union_spec(acc, box_of(s[i])))
    }
}

/// The box around an aggregate: the union over its members.
pub open spec fn list_bbox_spec(s: Seq<Hittable>) -> Option<Aabb>
    decreases s, 1int, 0int,
{
    if s.len() == 0 {
        None
    } else {
        Some(list_box_from(s, 1, box_of(s[0])))
    }
}

/// The fold only grows: the accumulator and every remaining member's box
/// end up inside the result.
pub proof fn lemma_list_box_from_contains(s: Seq<Hittable>, i: int, acc: Aabb)
    requires
        0 <= i,
    ensures
        list_box_from(s, i, acc).contains_box(acc),
        forall|j: int| i <= j < s.len() && 0 <= j
            ==> list_box_from(s, i, acc).contains_box(#[trigger] box_of(s[j])),
    decreases s.len() - i,
{
    if !(i < 0 || i >= s.len()) {
        let step = Aabb::union_spec(acc, box_of(s[i]));
        crate::aabb::lemma_union_contains(acc, box_of(s[i]));
        lemma_list_box_from_contains(s, i + 1, step);
        let whole = list_box_from(s, i, acc);
        assert(whole == list_box_from(s, i + 1, step));
        lemma_contains_box_transitive(whole, step, acc);
        lemma_contains_box_transitive(whole, step, box_of(s[i]));
        assert forall|j: int| i <= j < s.len() && 0 <= j
            implies whole.contains_box(#[trigger] box_of(s[j])) by {
            if j == i {
            } else {
                assert(list_box_from(s, i + 1, step).contains_box(box_of(s[j])));
            }
        }
    }
}

/// Box containment chains.
pub proof fn lemma_contains_box_transitive(a: Aabb, b: Aabb, c: Aabb)
    requires
        a.contains_box(b),
        b.contains_box(c),
    ensures
        a.contains_box(c),
{
}

/// Every member's box sits inside the aggregate's box.
pub proof fn lemma_list_bbox_contains(s: Seq<Hittable>, j: int)
    requires
        0 <= j < s.len(),
    ensures
        list_bbox_spec(s) matches Option::Some(b) ==> b.contains_box(box_of(s[j])),
{
    lemma_list_box_from_contains(s, 1, box_of(s[0]));
}

/// The aggregate box, exactly as `list_bbox_spec` states it.
fn bounding_box_list(objects: &Vec<Hittable>, time0: i64, time1: i64) -> (res: Option<Aabb>)
    requires
        list_wf(objects@),
    ensures
        res == list_bbox_spec(objects@),
        res matches Option::Some(b) ==> b.wf(),
    decreases objects@,
{
    if objects.len() == 0 {
        return None;
    }
    let first = objects[0].bounding_box(time0, time1);
    let mut acc = match first {
        Option::Some(b) => b,
        Option::None => {
            proof {
                assert(objects@[0].bbox_spec() is Some);
                assert(false);
            }
            Aabb {
                min: Vec3 { x: 0, y: 0, z: 0 },
                max: Vec3 { x: 0, y: 0, z: 0 },
            }
        },
    };
    let ghost s = objects@;
    let mut i: usize = 1;
    while i < objects.len()
        invariant
            1 <= i <= s.len(),
            s == objects@,
            list_wf(s),
            acc.wf(),
            list_box_from(s, 1, box_of(s[0])) == list_box_from(s, i as int, acc),
        decreases objects@.len() - i,
    {
        let bi = match objects[i].bounding_box(time0, time1) {
            Option::Some(b) => b,
            Option::None => {
                proof {
                    assert(objects@[i as int].bbox_spec() is Some);
                    assert(false);
                }
                acc
            },
        };
        let ghost prev = acc;
        acc = Aabb::surrounding(&acc, &bi);
        proof {
            assert(box_of(s[i as int]) == bi);
            assert(list_box_from(s, i as int, prev)
                == list_box_from(s, i as int + 1, Aabb::union_spec(prev, box_of(s[i as int]))));
        }
        i = i + 1;
    }
    Some(acc)
}

/// A well-formed node's box is itself well-formed.
pub proof fn lemma_bbox_wf(h: Hittable)
    requires
        h.wf(),
    ensures
        h.bbox_spec() matches Option::Some(b) ==> b.wf(),
    decreases h, 1int, 0int,
{
    match h {
        Hittable::BoxObj(b) => {
            lemma_list_bbox_wf(b.sides.objects@);
        },
        Hittable::Medium(m) => {
            lemma_bbox_wf(*m.boundary);
        },
        Hittable::Translate(t) => {
            lemma_bbox_wf(*t.ptr);
        },
        Hittable::FlipFace(f) => {
            lemma_bbox_wf(*f.ptr);
        },
        Hittable::List(l) => {
            lemma_list_bbox_wf(l.objects@);
        },
        _ => {},
    }
}

/// A well-formed aggregate's box is well-formed.
pub proof fn lemma_list_bbox_wf(s: Seq<Hittable>)
    requires
        list_wf(s),
    ensures
        list_bbox_spec(s) matches Option::Some(b) ==> b.wf(),
    decreases s, 0int, s.len() + 1,
{
    if s.len() >= 1 {
        lemma_bbox_wf(s[0]);
        lemma_list_box_from_wf(s, 1, box_of(s[0]));
    }
}

/// Folding well-formed boxes keeps the box well-formed.
pub proof fn lemma_list_box_from_wf(s: Seq<Hittable>, i: int, acc: Aabb)
    requires
        list_wf(s),
        acc.wf(),
    ensures
        list_box_from(s, i, acc).wf(),
    decreases s, 0int, s.len() - i,
{
    if !(i < 0 || i >= s.len()) {
        lemma_bbox_wf(s[i]);
        lemma_list_box_from_wf(s, i + 1, Aabb::union_spec(acc, box_of(s[i])));
    }
}

/// Clamp a coordinate into the stored range.
pub open spec fn clamp_coord(x: int) -> int {
    let v = crate::math::VMAX as int;
    if x < -v {
        -v
    } else if x > v {
        v
    } else {
        x
    }
}

/// The ray a translation hands to its child: the origin shifted back.
pub open spec fn moved_ray_spec(r: Ray, offset: Vec3) -> Ray {
    Ray {
        origin: Vec3 {
            x: (r.origin.x - offset.x) as i64,
            y: (r.origin.y - offset.y) as i64,
            z: (r.origin.z - offset.z) as i64,
        },
        direction: r.direction,
        time: r.time,
    }
}

/// The record a translation reports: the child's hit carried back into
/// world space and re-oriented, with the point clamped into stored range.
pub open spec fn translate_back_spec(hd: HitData, offset: Vec3, moved: Ray) -> HitData {
    let p2 = Vec3 {
        x: clamp_coord(hd.p.x + offset.x) as i64,
        y: clamp_coord(hd.p.y + offset.y) as i64,
        z: clamp_coord(hd.p.z + offset.z) as i64,
    };
    HitData {
        p: p2,
        normal: oriented_normal(moved.direction, hd.normal),
        t: hd.t,
        u: hd.u,
        v: hd.v,
        front_face: Vec3::dot_spec(moved.direction, hd.normal) < 0,
        mat: hd.mat,
    }
}

/// The ray a rotation hands to its child: spun into object space, with
/// components clamped into the ray range.
pub open spec fn rotated_ray_spec(rt: rotate::RotateY, r: Ray) -> Ray {
    let cs = rt.cos_theta as int;
    let sn = rt.sin_theta as int;
    Ray {
        origin: Vec3 {
            x: ((cs * r.origin.x - sn * r.origin.z) / 1024) as i64,
            y: r.origin.y,
            z: ((sn * r.origin.x + cs * r.origin.z) / 1024) as i64,
        },
        direction: Vec3 {
            x: clamp_dir((cs * r.direction.x - sn * r.direction.z) / 1024) as i64,
            y: r.direction.y,
            z: clamp_dir((sn * r.direction.x + cs * r.direction.z) / 1024) as i64,
        },
        time: r.time,
    }
}

/// Clamp a direction component into the ray range.
pub open spec fn clamp_dir(x: int) -> int {
    if x < -0x200_0000 {
        -0x200_0000
    } else if x > 0x200_0000 {
        0x200_0000
    } else {
        x
    }
}

/// The record a rotation reports: the child's hit spun back into world
/// space and re-oriented against the object-space ray.
pub open spec fn rotate_back_spec(rt: rotate::RotateY, rotated: Ray, hd: HitData) -> HitData {
    let cs = rt.cos_theta as int;
    let sn = rt.sin_theta as int;
    let p2 = Vec3 {
        x: clamp_coord((cs * hd.p.x + sn * hd.p.z) / 1024) as i64,
        y: hd.p.y,
        z: clamp_coord((cs * hd.p.z - sn * hd.p.x) / 1024) as i64,
    };
    let n2 = Vec3 {
        x: clamp_normal((cs * hd.normal.x + sn * hd.normal.z) / 1024) as i64,
        y: hd.normal.y,
        z: clamp_normal((cs * hd.normal.z - sn * hd.normal.x) / 1024) as i64,
    };
    HitData {
        p: p2,
        normal: oriented_normal(rotated.direction, n2),
        t: hd.t,
        u: hd.u,
        v: hd.v,
        front_face: Vec3::dot_spec(rotated.direction, n2) < 0,
        mat: hd.mat,
    }
}

/// Clamp a normal component into unit scale.
pub open spec fn clamp_normal(x: int) -> int {
    if x < -2048 {
        -2048
    } else if x > 2048 {
        2048
    } else {
        x
    }
}

/// The intersection semantics of a whole scene node, for the deterministic
/// fragment: what the nearest hit inside the open window is.
pub open spec fn hit_spec(h: Hittable, r: Ray, t_min: int, t_max: int) -> Option<HitData>
    decreases h,
{
    match h {
        Hittable::Sphere(s) => sphere::sphere_hit_spec(s, r, t_min, t_max),
        Hittable::MovingSphere(s) => moving_sphere::moving_sphere_hit_spec(s, r, t_min, t_max),
        Hittable::XyRect(s) => aa_rect::xy_rect_hit_spec(s, r, t_min, t_max),
        Hittable::XzRect(s) => aa_rect::xz_rect_hit_spec(s, r, t_min, t_max),
        Hittable::YzRect(s) => aa_rect::yz_rect_hit_spec(s, r, t_min, t_max),
        Hittable::BoxObj(b) => list_hit_spec(b.sides.objects@, r, t_min, t_max),
        Hittable::Medium(_) => None,
        Hittable::Translate(t) => {
            if !translate_in_bounds(r, t.offset) {
                None
            } else {
                let moved = moved_ray_spec(r, t.offset);
                match hit_spec(*t.ptr, moved, t_min, t_max) {
                    Option::None => None,
                    Option::Some(hd) => Some(translate_back_spec(hd, t.offset, moved)),
                }
            }
        },
        Hittable::RotateY(rt) => {
            if !rotate_in_bounds(rt, r) {
                None
            } else {
                let rotated = rotated_ray_spec(rt, r);
                match hit_spec(*rt.ptr, rotated, t_min, t_max) {
                    Option::None => None,
                    Option::Some(hd) => {
                        if rt.bbox.contains_ray_at(r, hd.t as int) {
                            Some(rotate_back_spec(rt, rotated, hd))
                        } else {
                            None
                        }
                    },
                }
            }
        },
        Hittable::FlipFace(f) => match hit_spec(*f.ptr, r, t_min, t_max) {
            Option::None => None,
            Option::Some(hd) => Some(HitData { front_face: !hd.front_face, ..hd }),
        },
        Hittable::List(l) => list_hit_spec(l.objects@, r, t_min, t_max),
        Hittable::Bvh(n) => {
            if !n.bb.ray_hit_spec(r, t_min, t_max) {
                None
            } else {
                let lh = hit_spec(*n.left, r, t_min, t_max);
                let cutoff: int = match lh {
                    Option::Some(hd) => hd.t as int,
                    Option::None => t_max,
                };
                let rh: Option<HitData> = match n.right {
                    Option::Some(rt) => hit_spec(*rt, r, t_min, cutoff),
                    Option::None => None,
                };
                match rh {
                    Option::Some(hd) => Some(hd),
                    Option::None => lh,
                }
            }
        },
    }
}

/// Whether the translated ray origin stays inside the ray range; outside
/// it the wrapper reports a miss.
pub open spec fn translate_in_bounds(r: Ray, offset: Vec3) -> bool {
    -0x3000_0000 <= r.origin.x - offset.x <= 0x3000_0000
        && -0x3000_0000 <= r.origin.y - offset.y <= 0x3000_0000
        && -0x3000_0000 <= r.origin.z - offset.z <= 0x3000_0000
}

/// Whether the rotated ray origin stays inside the ray range; outside it
/// the wrapper reports a miss.
pub open spec fn rotate_in_bounds(rt: rotate::RotateY, r: Ray) -> bool {
    let cs = rt.cos_theta as int;
    let sn = rt.sin_theta as int;
    -0x3000_0000 <= (cs * r.origin.x - sn * r.origin.z) / 1024 <= 0x3000_0000
        && -0x3000_0000 <= (sn * r.origin.x + cs * r.origin.z) / 1024 <= 0x3000_0000
}

/// The nearest hit of a linear scan over an aggregate: each member after
/// the first is searched only up to the closest hit so far.
pub open spec fn list_hit_spec(s: Seq<Hittable>, r: Ray, t_min: int, t_max: int)
    -> Option<HitData>
    decreases s,
{
    if s.len() == 0 {
        None
    } else {
        match hit_spec(s[0], r, t_min, t_max) {
            Option::None => list_hit_spec(s.drop_first(), r, t_min, t_max),
            Option::Some(hd) => match list_hit_spec(s.drop_first(), r, t_min, hd.t as int) {
                Option::Some(h2) => Some(h2),
                Option::None => Some(hd),
            },
        }
    }
}

/// Agreement of an executable answer with the specified one.
pub open spec fn hit_agrees<'a>(res: Option<HitRecord<'a>>, s: Option<HitData>) -> bool {
    match (res, s) {
        (Option::None, Option::None) => true,
        (Option::Some(rec), Option::Some(hd)) => rec.agrees(hd),
        _ => false,
    }
}

/// Any hit the specification reports lies strictly inside the query
/// window, carries in-range fields and a well-formed material, and the
/// point the ray reaches at its parameter lies in the node's box.
pub proof fn lemma_hit_spec_props(h: Hittable, r: Ray, t_min: int, t_max: int)
    requires
        h.wf(),
        r.wf(),
        -crate::math::TMAX < t_min,
        t_max < crate::math::TMAX,
    ensures
        match hit_spec(h, r, t_min, t_max) {
            Option::Some(hd) => {
                &&& t_min < hd.t < t_max
                &&& hd.wf_geom()
                &&& hd.mat.wf()
                &&& (h.bbox_spec() matches Option::Some(b) ==> b.contains_ray_at(r, hd.t as int))
            },
            Option::None => true,
        },
    decreases h,
{
    match h {
        Hittable::Sphere(s) => {
            if hit_spec(h, r, t_min, t_max) is Some {
                let hd = hit_spec(h, r, t_min, t_max)->Some_0;
                lemma_sphere_at_props(s, r, t_min, t_max);
            }
        },
        Hittable::MovingSphere(s) => {
            if hit_spec(h, r, t_min, t_max) is Some {
                lemma_moving_sphere_at_props(s, r, t_min, t_max);
            }
        },
        Hittable::XyRect(s) => {
            if hit_spec(h, r, t_min, t_max) is Some {
                lemma_rect_uv_bounds();
            }
        },
        Hittable::XzRect(s) => {
            if hit_spec(h, r, t_min, t_max) is Some {
                lemma_rect_uv_bounds();
            }
        },
        Hittable::YzRect(s) => {
            if hit_spec(h, r, t_min, t_max) is Some {
                lemma_rect_uv_bounds();
            }
        },
        Hittable::BoxObj(b) => {
            lemma_list_hit_props(b.sides.objects@, r, t_min, t_max);
            if list_hit_spec(b.sides.objects@, r, t_min, t_max) is Some {
                let hd = list_hit_spec(b.sides.objects@, r, t_min, t_max)->Some_0;
                if list_bbox_spec(b.sides.objects@) is Some {
                    let bb = list_bbox_spec(b.sides.objects@)->Some_0;
                    assert forall|i: int| 0 <= i < b.sides.objects@.len()
                        implies bb.contains_box(#[trigger] box_of(b.sides.objects@[i])) by {
                        lemma_list_bbox_contains(b.sides.objects@, i);
                    }
                    lemma_list_hit_in_box(b.sides.objects@, r, t_min, t_max, bb);
                }
            }
        },
        Hittable::Medium(_) => {},
        Hittable::Translate(t) => {
            if translate_in_bounds(r, t.offset) {
                let moved = moved_ray_spec(r, t.offset);
                lemma_hit_spec_props(*t.ptr, moved, t_min, t_max);
            }
        },
        Hittable::RotateY(rt) => {
            if rotate_in_bounds(rt, r) {
                let rotated = rotated_ray_spec(rt, r);
                lemma_hit_spec_props(*rt.ptr, rotated, t_min, t_max);
            }
        },
        Hittable::FlipFace(f) => {
            lemma_hit_spec_props(*f.ptr, r, t_min, t_max);
        },
        Hittable::List(l) => {
            lemma_list_hit_props(l.objects@, r, t_min, t_max);
            if list_hit_spec(l.objects@, r, t_min, t_max) is Some {
                if list_bbox_spec(l.objects@) is Some {
                    let bb = list_bbox_spec(l.objects@)->Some_0;
                    assert forall|i: int| 0 <= i < l.objects@.len()
                        implies bb.contains_box(#[trigger] box_of(l.objects@[i])) by {
                        lemma_list_bbox_contains(l.objects@, i);
                    }
                    lemma_list_hit_in_box(l.objects@, r, t_min, t_max, bb);
                }
            }
        },
        Hittable::Bvh(n) => {
            if n.bb.ray_hit_spec(r, t_min, t_max) {
                lemma_hit_spec_props(*n.left, r, t_min, t_max);
                let lh = hit_spec(*n.left, r, t_min, t_max);
                let cutoff: int = match lh {
                    Option::Some(hd) => hd.t as int,
                    Option::None => t_max,
                };
                match n.right {
                    Option::Some(rt) => {
                        if t_min < cutoff {
                            lemma_hit_spec_props(*rt, r, t_min, cutoff);
                        }
                    },
                    Option::None => {},
                }
                match hit_spec(h, r, t_min, t_max) {
                    Option::Some(hd) => {
                        if lh is Some && hd == lh->Some_0 {
                            let bl = n.left.bbox_spec()->Some_0;
                            crate::aabb::lemma_contains_ray_monotone(n.bb, bl, r, hd.t as int);
                        } else {
                            let rt = n.right->0;
                            let br = rt.bbox_spec()->Some_0;
                            crate::aabb::lemma_contains_ray_monotone(n.bb, br, r, hd.t as int);
                        }
                    },
                    Option::None => {},
                }
            }
        },
    }
}

/// Window, field and material properties of a linear scan's answer.
pub proof fn lemma_list_hit_props(s: Seq<Hittable>, r: Ray, t_min: int, t_max: int)
    requires
        list_wf(s),
        r.wf(),
        -crate::math::TMAX < t_min,
        t_max < crate::math::TMAX,
    ensures
        match list_hit_spec(s, r, t_min, t_max) {
            Option::Some(hd) => t_min < hd.t < t_max && hd.wf_geom() && hd.mat.wf(),
            Option::None => true,
        },
    decreases s,
{
    if s.len() > 0 {
        lemma_hit_spec_props(s[0], r, t_min, t_max);
        assert(list_wf(s.drop_first()));
        match hit_spec(s[0], r, t_min, t_max) {
            Option::None => {
                lemma_list_hit_props(s.drop_first(), r, t_min, t_max);
            },
            Option::Some(hd) => {
                lemma_list_hit_props(s.drop_first(), r, t_min, hd.t as int);
            },
        }
    }
}

/// If every member's box lies inside `bigbox`, so does the point of any
/// hit the scan reports, at the reported parameter.
pub proof fn lemma_list_hit_in_box(s: Seq<Hittable>, r: Ray, t_min: int, t_max: int,
    bigbox: Aabb)
    requires
        list_wf(s),
        r.wf(),
        -crate::math::TMAX < t_min,
        t_max < crate::math::TMAX,
        forall|i: int| 0 <= i < s.len() ==> bigbox.contains_box(#[trigger] box_of(s[i])),
    ensures
        match list_hit_spec(s, r, t_min, t_max) {
            Option::Some(hd) => bigbox.contains_ray_at(r, hd.t as int),
            Option::None => true,
        },
    decreases s,
{
    if s.len() > 0 {
        lemma_hit_spec_props(s[0], r, t_min, t_max);
        assert(list_wf(s.drop_first()));
        assert(forall|i: int| 0 <= i < s.drop_first().len()
            ==> bigbox.contains_box(#[trigger] box_of(s.drop_first()[i])));
        match hit_spec(s[0], r, t_min, t_max) {
            Option::None => {
                lemma_list_hit_in_box(s.drop_first(), r, t_min, t_max, bigbox);
            },
            Option::Some(hd) => {
                lemma_list_hit_in_box(s.drop_first(), r, t_min, hd.t as int, bigbox);
                match list_hit_spec(s.drop_first(), r, t_min, hd.t as int) {
                    Option::Some(_) => {},
                    Option::None => {
                        let b0 = s[0].bbox_spec()->Some_0;
                        assert(box_of(s[0]) == b0);
                        crate::aabb::lemma_contains_ray_monotone(bigbox, b0, r, hd.t as int);
                    },
                }
            },
        }
    }
}

/// Field bounds of a sphere hit.
proof fn lemma_sphere_at_props(s: sphere::Sphere, r: Ray, t_min: int, t_max: int)
    requires
        s.wf(),
        r.wf(),
        -crate::math::TMAX < t_min,
        t_max < crate::math::TMAX,
    ensures
        match sphere::sphere_hit_spec(s, r, t_min, t_max) {
            Option::Some(hd) => {
                &&& t_min < hd.t < t_max
                &&& hd.wf_geom()
                &&& hd.mat.wf()
                &&& s.bbox().contains_ray_at(r, hd.t as int)
            },
            Option::None => true,
        },
{
    match sphere::sphere_hit_spec(s, r, t_min, t_max) {
        Option::Some(hd) => {
            let root = hd.t as int;
            crate::hittable::sphere::lemma_scaled_radius(r.at_axis(root, 0), s.center.x as int,
                s.radius as int);
            crate::hittable::sphere::lemma_scaled_radius(r.at_axis(root, 1), s.center.y as int,
                s.radius as int);
            crate::hittable::sphere::lemma_scaled_radius(r.at_axis(root, 2), s.center.z as int,
                s.radius as int);
            lemma_sphere_uv_bounds();
        },
        Option::None => {},
    }
}

/// Field bounds of a moving-sphere hit.
proof fn lemma_moving_sphere_at_props(s: moving_sphere::MovingSphere, r: Ray, t_min: int,
    t_max: int)
    requires
        s.wf(),
        r.wf(),
        -crate::math::TMAX < t_min,
        t_max < crate::math::TMAX,
    ensures
        match moving_sphere::moving_sphere_hit_spec(s, r, t_min, t_max) {
            Option::Some(hd) => {
                &&& t_min < hd.t < t_max
                &&& hd.wf_geom()
                &&& hd.mat.wf()
                &&& moving_sphere::moving_sphere_bbox_spec(s).contains_ray_at(r, hd.t as int)
            },
            Option::None => true,
        },
{
    match moving_sphere::moving_sphere_hit_spec(s, r, t_min, t_max) {
        Option::Some(hd) => {
            let root = hd.t as int;
            let ctr = moving_sphere::center_spec(s, r.time as int);
            crate::hittable::sphere::lemma_scaled_radius(r.at_axis(root, 0), ctr.0,
                s.radius as int);
            crate::hittable::sphere::lemma_scaled_radius(r.at_axis(root, 1), ctr.1,
                s.radius as int);
            crate::hittable::sphere::lemma_scaled_radius(r.at_axis(root, 2), ctr.2,
                s.radius as int);
            moving_sphere::lemma_center_spec_within(s, r.time as int);
        },
        Option::None => {},
    }
}

/// Texture coordinates of a sphere hit stay inside one unit.
proof fn lemma_sphere_uv_bounds()
    ensures
        forall|p: Vec3| {
            let uv = #[trigger] sphere::sphere_uv_spec(p);
            0 <= uv.0 <= 1024 && 0 <= uv.1 <= 1024
        },
{
    assert forall|p: Vec3| {
        let uv = #[trigger] sphere::sphere_uv_spec(p);
        0 <= uv.0 <= 1024 && 0 <= uv.1 <= 1024
    } by {
        let theta = crate::math::acos_spec(-p.y);
        let phi = (crate::math::atan2_spec(-p.z, p.x as int) + crate::math::PI_FP)
            % (crate::math::TAU_FP as int);
        vstd::arithmetic::div_mod::lemma_mod_bound(
            crate::math::atan2_spec(-p.z, p.x as int) + crate::math::PI_FP,
            crate::math::TAU_FP as int);
        lemma_uv_scale(phi, 6434);
        lemma_uv_scale(theta, 3217);
    }
}

/// Texture coordinates of a rectangle hit stay inside one unit.
proof fn lemma_rect_uv_bounds()
    ensures
        forall|x: int, x0: int, x1: int| x0 <= x < x1
            ==> 0 <= #[trigger] (((x - x0) * 1024) / (x1 - x0)) <= 1024,
{
    assert forall|x: int, x0: int, x1: int| x0 <= x < x1
        implies 0 <= #[trigger] (((x - x0) * 1024) / (x1 - x0)) <= 1024 by {
        assert((x - x0) * 1024 >= 0 && (x - x0) * 1024 <= 1024 * (x1 - x0)) by (nonlinear_arith)
            requires
                x0 <= x < x1,
        ;
        crate::math::lemma_div_bound((x - x0) * 1024, 1024, x1 - x0);
    }
}

/// An angle within `limit` rescaled by `1024 / limit` stays inside one
/// unit.
proof fn lemma_uv_scale(angle: int, limit: int)
    requires
        1 <= limit,
        0 <= angle <= limit,
    ensures
        0 <= (angle * 1024) / limit <= 1024,
{
    assert(angle * 1024 >= 0 && angle * 1024 <= 1024 * limit) by (nonlinear_arith)
        requires
            0 <= angle <= limit,
    ;
    crate::math::lemma_div_bound(angle * 1024, 1024, limit);
}


/// Combine a kept best hit with the answer of the remaining scan.
pub open spec fn combine_hits(best: Option<HitData>, rest: Option<HitData>) -> Option<HitData> {
    match rest {
        Option::Some(_) => rest,
        Option::None => best,
    }
}

/// A box shifted by an offset covers the original ray wherever the
/// original box covered the shifted ray.
proof fn lemma_shift_contains(b: Aabb, off: Vec3, r: Ray, moved: Ray, t: int)
    requires
        moved.direction == r.direction,
        moved.origin.x == r.origin.x - off.x,
        moved.origin.y == r.origin.y - off.y,
        moved.origin.z == r.origin.z - off.z,
        b.contains_ray_at(moved, t),
        -(crate::math::VMAX as int) <= b.min.x + off.x,
        b.max.x + off.x <= crate::math::VMAX as int,
        -(crate::math::VMAX as int) <= b.min.y + off.y,
        b.max.y + off.y <= crate::math::VMAX as int,
        -(crate::math::VMAX as int) <= b.min.z + off.z,
        b.max.z + off.z <= crate::math::VMAX as int,
    ensures
        (Aabb {
            min: Vec3 {
                x: (b.min.x + off.x) as i64,
                y: (b.min.y + off.y) as i64,
                z: (b.min.z + off.z) as i64,
            },
            max: Vec3 {
                x: (b.max.x + off.x) as i64,
                y: (b.max.y + off.y) as i64,
                z: (b.max.z + off.z) as i64,
            },
        }).contains_ray_at(r, t),
{
}

impl Hittable {
    /// The nearest intersection in the open window.  For a deterministic
    /// subtree the answer is exactly `hit_spec`; any answer lies strictly
    /// inside the window, carries in-range fields and a well-formed
    /// material, and its parameter puts the ray inside the node's box.
    pub fn hit(&self, ray: &Ray, t_min: i64, t_max: i64) -> (res: Option<HitRecord<'_>>)
        requires
            self.wf(),
            ray.wf(),
            -crate::math::TMAX < t_min,
            t_max < crate::math::TMAX,
        ensures
            self.deterministic() ==> hit_agrees(res, hit_spec(*self, *ray, t_min as int,
                t_max as int)),
            res matches Option::Some(rec) ==> {
                &&& t_min < rec.t < t_max
                &&& rec.wf_geom()
                &&& rec.mat.wf()
                &&& (self.bbox_spec() matches Option::Some(b)
                    ==> b.contains_ray_at(*ray, rec.t as int))
            },
        decreases *self, 0int,
    {
        proof {
            if self.deterministic() {
                lemma_hit_spec_props(*self, *ray, t_min as int, t_max as int);
            }
        }
        match self {
            Hittable::Sphere(s) => s.hit(ray, t_min, t_max),
            Hittable::MovingSphere(s) => s.hit(ray, t_min, t_max),
            Hittable::XyRect(s) => s.hit(ray, t_min, t_max),
            Hittable::XzRect(s) => s.hit(ray, t_min, t_max),
            Hittable::YzRect(s) => s.hit(ray, t_min, t_max),
            Hittable::BoxObj(b) => hit_list(&b.sides.objects, ray, t_min, t_max),
            Hittable::Medium(m) => hit_medium(m, ray, t_min, t_max),
            Hittable::Translate(t) => {
                let ox = ray.origin.x - t.offset.x;
                let oy = ray.origin.y - t.offset.y;
                let oz = ray.origin.z - t.offset.z;
                if ox < -0x3000_0000 || ox > 0x3000_0000 || oy < -0x3000_0000
                    || oy > 0x3000_0000 || oz < -0x3000_0000 || oz > 0x3000_0000 {
                    return None;
                }
                let moved = Ray {
                    origin: Vec3 { x: ox, y: oy, z: oz },
                    direction: ray.direction,
                    time: ray.time,
                };
                match t.ptr.hit(&moved, t_min, t_max) {
                    Option::None => None,
                    Option::Some(rec) => {
                        let p2 = Vec3 {
                            x: crate::math::clamp64(rec.p.x + t.offset.x,
                                -crate::math::VMAX, crate::math::VMAX),
                            y: crate::math::clamp64(rec.p.y + t.offset.y,
                                -crate::math::VMAX, crate::math::VMAX),
                            z: crate::math::clamp64(rec.p.z + t.offset.z,
                                -crate::math::VMAX, crate::math::VMAX),
                        };
                        proof {
                            match t.ptr.bbox_spec() {
                                Option::Some(b) => {
                                    lemma_shift_contains(b, t.offset, *ray, moved,
                                        rec.t as int);
                                },
                                Option::None => {},
                            }
                        }
                        Some(HitRecord::new(p2, rec.normal, rec.t, rec.u, rec.v, &moved,
                            rec.mat))
                    },
                }
            },
            Hittable::RotateY(rt) => {
                proof {
                    crate::math::lemma_mul_bound(rt.cos_theta as int, ray.origin.x as int,
                        1024, 0x3000_0000);
                    crate::math::lemma_mul_bound(rt.sin_theta as int, ray.origin.z as int,
                        1024, 0x3000_0000);
                    crate::math::lemma_mul_bound(rt.sin_theta as int, ray.origin.x as int,
                        1024, 0x3000_0000);
                    crate::math::lemma_mul_bound(rt.cos_theta as int, ray.origin.z as int,
                        1024, 0x3000_0000);
                    crate::math::lemma_mul_bound(rt.cos_theta as int, ray.direction.x as int,
                        1024, 0x200_0000);
                    crate::math::lemma_mul_bound(rt.sin_theta as int, ray.direction.z as int,
                        1024, 0x200_0000);
                    crate::math::lemma_mul_bound(rt.sin_theta as int, ray.direction.x as int,
                        1024, 0x200_0000);
                    crate::math::lemma_mul_bound(rt.cos_theta as int, ray.direction.z as int,
                        1024, 0x200_0000);
                    crate::math::lemma_div_bound(
                        rt.cos_theta * ray.origin.x - rt.sin_theta * ray.origin.z,
                        0x1800_0000_0000, 1024);
                    crate::math::lemma_div_bound(
                        rt.sin_theta * ray.origin.x + rt.cos_theta * ray.origin.z,
                        0x1800_0000_0000, 1024);
                    crate::math::lemma_div_bound(
                        rt.cos_theta * ray.direction.x - rt.sin_theta * ray.direction.z,
                        0x100_0000_0000, 1024);
                    crate::math::lemma_div_bound(
                        rt.sin_theta * ray.direction.x + rt.cos_theta * ray.direction.z,
                        0x100_0000_0000, 1024);
                }
                let rox = crate::math::div_floor(
                    rt.cos_theta * ray.origin.x - rt.sin_theta * ray.origin.z, 1024);
                let roz = crate::math::div_floor(
                    rt.sin_theta * ray.origin.x + rt.cos_theta * ray.origin.z, 1024);
                if rox < -0x3000_0000 || rox > 0x3000_0000 || roz < -0x3000_0000
                    || roz > 0x3000_0000 {
                    return None;
                }
                let rdx = crate::math::clamp64(crate::math::div_floor(
                    rt.cos_theta * ray.direction.x - rt.sin_theta * ray.direction.z, 1024),
                    -0x200_0000, 0x200_0000);
                let rdz = crate::math::clamp64(crate::math::div_floor(
                    rt.sin_theta * ray.direction.x + rt.cos_theta * ray.direction.z, 1024),
                    -0x200_0000, 0x200_0000);
                let rotated = Ray {
                    origin: Vec3 { x: rox, y: ray.origin.y, z: roz },
                    direction: Vec3 { x: rdx, y: ray.direction.y, z: rdz },
                    time: ray.time,
                };
                match rt.ptr.hit(&rotated, t_min, t_max) {
                    Option::None => None,
                    Option::Some(rec) => {
                        let q = ray.at(rec.t);
                        if !(rt.bbox.min.x <= q.x && q.x <= rt.bbox.max.x
                            && rt.bbox.min.y <= q.y && q.y <= rt.bbox.max.y
                            && rt.bbox.min.z <= q.z && q.z <= rt.bbox.max.z) {
                            return None;
                        }
                        proof {
                            crate::math::lemma_mul_bound(rt.cos_theta as int, rec.p.x as int,
                                1024, 0x100_0000);
                            crate::math::lemma_mul_bound(rt.sin_theta as int, rec.p.z as int,
                                1024, 0x100_0000);
                            crate::math::lemma_mul_bound(rt.sin_theta as int, rec.p.x as int,
                                1024, 0x100_0000);
                            crate::math::lemma_mul_bound(rt.cos_theta as int, rec.p.z as int,
                                1024, 0x100_0000);
                            crate::math::lemma_mul_bound(rt.cos_theta as int,
                                rec.normal.x as int, 1024, 2048);
                            crate::math::lemma_mul_bound(rt.sin_theta as int,
                                rec.normal.z as int, 1024, 2048);
                            crate::math::lemma_mul_bound(rt.sin_theta as int,
                                rec.normal.x as int, 1024, 2048);
                            crate::math::lemma_mul_bound(rt.cos_theta as int,
                                rec.normal.z as int, 1024, 2048);
                        }
                        let p2 = Vec3 {
                            x: crate::math::clamp64(crate::math::div_floor(
                                rt.cos_theta * rec.p.x + rt.sin_theta * rec.p.z, 1024),
                                -crate::math::VMAX, crate::math::VMAX),
                            y: rec.p.y,
                            z: crate::math::clamp64(crate::math::div_floor(
                                rt.cos_theta * rec.p.z - rt.sin_theta * rec.p.x, 1024),
                                -crate::math::VMAX, crate::math::VMAX),
                        };
                        let n2 = Vec3 {
                            x: crate::math::clamp64(crate::math::div_floor(
                                rt.cos_theta * rec.normal.x + rt.sin_theta * rec.normal.z,
                                1024), -2048, 2048),
                            y: rec.normal.y,
                            z: crate::math::clamp64(crate::math::div_floor(
                                rt.cos_theta * rec.normal.z - rt.sin_theta * rec.normal.x,
                                1024), -2048, 2048),
                        };
                        Some(HitRecord::new(p2, n2, rec.t, rec.u, rec.v, &rotated, rec.mat))
                    },
                }
            },
            Hittable::FlipFace(f) => {
                match f.ptr.hit(ray, t_min, t_max) {
                    Option::None => None,
                    Option::Some(rec) => Some(HitRecord {
                        p: rec.p,
                        normal: rec.normal,
                        t: rec.t,
                        u: rec.u,
                        v: rec.v,
                        front_face: !rec.front_face,
                        mat: rec.mat,
                    }),
                }
            },
            Hittable::List(l) => hit_list(&l.objects, ray, t_min, t_max),
            Hittable::Bvh(n) => {
                if !n.bb.hit(ray, t_min, t_max) {
                    return None;
                }
                let lh = n.left.hit(ray, t_min, t_max);
                let cutoff = match &lh {
                    Option::Some(rec) => rec.t,
                    Option::None => t_max,
                };
                let rh = match &n.right {
                    Option::Some(rt) => rt.hit(ray, t_min, cutoff),
                    Option::None => None,
                };
                proof {
                    match &lh {
                        Option::Some(rec) => {
                            let bl = n.left.bbox_spec()->Some_0;
                            crate::aabb::lemma_contains_ray_monotone(n.bb, bl, *ray,
                                rec.t as int);
                        },
                        Option::None => {},
                    }
                    match &rh {
                        Option::Some(rec) => {
                            let rtn = n.right->0;
                            let br = rtn.bbox_spec()->Some_0;
                            crate::aabb::lemma_contains_ray_monotone(n.bb, br, *ray,
                                rec.t as int);
                        },
                        Option::None => {},
                    }
                }
                match rh {
                    Option::Some(rec) => Some(rec),
                    Option::None => lh,
                }
            },
        }
    }
}

/// Scan the aggregate in order, shrinking the window to the closest hit.
fn hit_list<'a>(objects: &'a Vec<Hittable>, ray: &Ray, t_min: i64, t_max: i64)
    -> (res: Option<HitRecord<'a>>)
    requires
        list_wf(objects@),
        ray.wf(),
        -crate::math::TMAX < t_min,
        t_max < crate::math::TMAX,
    ensures
        list_deterministic(objects@) ==> hit_agrees(res, list_hit_spec(objects@, *ray,
            t_min as int, t_max as int)),
        res matches Option::Some(rec) ==> {
            &&& t_min < rec.t < t_max
            &&& rec.wf_geom()
            &&& rec.mat.wf()
            &&& (list_bbox_spec(objects@) matches Option::Some(b)
                ==> b.contains_ray_at(*ray, rec.t as int))
        },
    decreases objects@, 1int,
{
    let ghost s = objects@;
    proof {
        assert(s.skip(0) =~= s);
    }
    let mut best: Option<HitRecord<'a>> = None;
    let ghost mut best_hd: Option<HitData> = None;
    let mut closest = t_max;
    let mut i: usize = 0;
    while i < objects.len()
        invariant
            0 <= i <= s.len(),
            s == objects@,
            list_wf(s),
            ray.wf(),
            -crate::math::TMAX < t_min,
            t_max < crate::math::TMAX,
            t_min < closest <= t_max || (best is None && closest == t_max),
            closest == (match best {
                Option::Some(rec) => rec.t as int,
                Option::None => t_max as int,
            }),
            hit_agrees(best, best_hd),
            list_deterministic(s) ==> list_hit_spec(s, *ray, t_min as int, t_max as int)
                == combine_hits(best_hd, list_hit_spec(s.skip(i as int), *ray, t_min as int,
                    closest as int)),
            best matches Option::Some(rec) ==> {
                &&& t_min < rec.t < t_max
                &&& rec.wf_geom()
                &&& rec.mat.wf()
                &&& (list_bbox_spec(s) matches Option::Some(b)
                    ==> b.contains_ray_at(*ray, rec.t as int))
            },
        decreases s.len() - i,
    {
        let ghost closest_before = closest;
        let ghost best_hd_before = best_hd;
        let child = objects[i].hit(ray, t_min, closest);
        proof {
            assert(s.skip(i as int).len() == s.len() - i);
            assert(s.skip(i as int)[0] == s[i as int]);
            assert(s.skip(i as int).drop_first() =~= s.skip(i as int + 1));
        }
        match child {
            Option::Some(rec) => {
                proof {
                    if list_bbox_spec(s) is Some {
                        lemma_list_bbox_contains(s, i as int);
                        let b = list_bbox_spec(s)->Some_0;
                        let bi = s[i as int].bbox_spec()->Some_0;
                        assert(box_of(s[i as int]) == bi);
                        crate::aabb::lemma_contains_ray_monotone(b, bi, *ray, rec.t as int);
                    }
                    best_hd = Some(HitData {
                        p: rec.p,
                        normal: rec.normal,
                        t: rec.t,
                        u: rec.u,
                        v: rec.v,
                        front_face: rec.front_face,
                        mat: *rec.mat,
                    });
                }
                closest = rec.t;
                best = Some(rec);
            },
            Option::None => {},
        }
        i = i + 1;
    }
    proof {
        assert(s.skip(i as int).len() == 0);
    }
    best
}


/// What the volume decides once the boundary's entry and exit parameters
/// and the drawn free path are fixed: clip the interval to the query
/// window and the forward half-line, convert the free path to a parameter
/// step, and scatter there unless the path leaves the boundary first or
/// the step lands outside the window or the boundary's box.
pub open spec fn medium_core_spec(m: medium::constant::ConstantMedium, r: Ray, t_min: int,
    t_max: int, entry: int, exit: int, free_path: int, bb: Aabb) -> Option<int> {
    let t1 = vstd::math::max(vstd::math::max(entry, t_min), 0);
    let t2 = vstd::math::min(exit, t_max);
    if t1 >= t2 {
        None
    } else {
        let dd = Vec3::dot_spec(r.direction, r.direction);
        let len = crate::math::sqrt_floor(dd);
        if len == 0 {
            None
        } else {
            let inside = ((t2 - t1) * len) / 1024;
            let hd = (free_path * 1024) / (m.density as int);
            if hd > inside {
                None
            } else {
                let dt = (hd * 1024) / len;
                if dt < 0 || dt > crate::math::TMAX as int {
                    None
                } else {
                    let t = t1 + dt;
                    if !(t_min < t < t_max) {
                        None
                    } else if !(bb.min.x <= r.at_axis(t, 0) <= bb.max.x
                        && bb.min.y <= r.at_axis(t, 1) <= bb.max.y
                        && bb.min.z <= r.at_axis(t, 2) <= bb.max.z) {
                        None
                    } else {
                        Some(t)
                    }
                }
            }
        }
    }
}

/// The deterministic remainder of a volume intersection: exactly
/// `medium_core_spec` of the probe results and the drawn free path.
fn medium_core<'a>(m: &'a medium::constant::ConstantMedium, ray: &Ray, t_min: i64, t_max: i64,
    entry: i64, exit: i64, free_path: i64, bb: &Aabb) -> (res: Option<HitRecord<'a>>)
    requires
        m.phase_function.wf(),
        1 <= m.density,
        ray.wf(),
        -crate::math::TMAX < t_min,
        t_max < crate::math::TMAX,
        -crate::math::TMAX < entry < crate::math::TMAX,
        -crate::math::TMAX < exit < crate::math::TMAX,
        0 <= free_path <= 8 * SCALE,
        bb.wf(),
    ensures
        match (res, medium_core_spec(*m, *ray, t_min as int, t_max as int, entry as int,
            exit as int, free_path as int, *bb)) {
            (Option::None, Option::None) => true,
            (Option::Some(rec), Option::Some(t)) => {
                &&& rec.t == t
                &&& t_min < rec.t < t_max
                &&& rec.wf_geom()
                &&& rec.mat.wf()
                &&& *rec.mat == m.phase_function
                &&& rec.front_face
                &&& rec.u == 0 && rec.v == 0
                &&& rec.normal == (Vec3 { x: SCALE, y: 0i64, z: 0i64 })
                &&& rec.p.x == ray.at_axis(rec.t as int, 0)
                &&& rec.p.y == ray.at_axis(rec.t as int, 1)
                &&& rec.p.z == ray.at_axis(rec.t as int, 2)
                &&& bb.contains_ray_at(*ray, rec.t as int)
            },
            _ => false,
        },
{
    let t1 = crate::math::max64(crate::math::max64(entry, t_min), 0);
    let t2 = crate::math::min64(exit, t_max);
    if t1 >= t2 {
        return None;
    }
    let dd = ray.direction.dot(&ray.direction);
    proof {
        crate::vec3::lemma_dot_self_nonneg(ray.direction);
    }
    let len_u = crate::math::isqrt(dd as u128);
    proof {
        assert(len_u <= 0x8000_0000) by (nonlinear_arith)
            requires
                (len_u as int) * (len_u as int) <= dd,
                dd <= 3 * 0x4000_0000 * 0x4000_0000,
                len_u >= 0,
        ;
    }
    let len = len_u as i64;
    if len == 0 {
        return None;
    }
    proof {
        crate::math::lemma_mul_bound((t2 - t1) as int, len as int, 0x8000_0000int,
            0x8000_0000int);
        crate::math::lemma_div_bound((t2 - t1) * len, 0x10_0000_0000_0000int, 1024int);
        crate::math::lemma_mul_bound(free_path as int, 1024, 8192int, 1024int);
        assert(8388608int * (m.density as int) >= 8388608) by (nonlinear_arith)
            requires m.density >= 1;
        crate::math::lemma_div_bound(free_path * 1024, 8388608int, m.density as int);
    }
    let inside = crate::math::div_floor((t2 - t1) * len, 1024);
    let hd = crate::math::div_floor(free_path * 1024, m.density);
    if hd > inside {
        return None;
    }
    proof {
        crate::math::lemma_mul_bound(hd as int, 1024, 0x10_0000_0000_0000int, 1024int);
    }
    let dt = crate::math::div_floor(hd * 1024, len);
    if dt < 0 || dt > crate::math::TMAX {
        return None;
    }
    let t = t1 + dt;
    if !(t_min < t && t < t_max) {
        return None;
    }
    let p = ray.at(t);
    if !(bb.min.x <= p.x && p.x <= bb.max.x && bb.min.y <= p.y && p.y <= bb.max.y
        && bb.min.z <= p.z && p.z <= bb.max.z) {
        return None;
    }
    Some(HitRecord {
        p,
        normal: Vec3 { x: SCALE, y: 0, z: 0 },
        t,
        u: 0,
        v: 0,
        front_face: true,
        mat: &m.phase_function,
    })
}

/// Intersect a constant-density volume: find the entry and exit of the
/// boundary, draw an exponential free path, and hand the deterministic
/// remainder to `medium_core`.  The draws make the answer randomized;
/// every answer still lies inside the window and the boundary's box,
/// carries the phase function with the synthesized front-facing record the
/// volume convention asks for, and a deterministic boundary the ray misses
/// entirely gives no answer.
fn hit_medium<'a>(m: &'a medium::constant::ConstantMedium, ray: &Ray, t_min: i64, t_max: i64)
    -> (res: Option<HitRecord<'a>>)
    requires
        m.boundary.wf(),
        m.boundary.bbox_spec() is Some,
        1 <= m.density,
        m.phase_function.wf(),
        ray.wf(),
        -crate::math::TMAX < t_min,
        t_max < crate::math::TMAX,
    ensures
        res matches Option::Some(rec) ==> {
            &&& t_min < rec.t < t_max
            &&& rec.wf_geom()
            &&& rec.mat.wf()
            &&& (m.boundary.bbox_spec() matches Option::Some(b)
                ==> b.contains_ray_at(*ray, rec.t as int))
            &&& *rec.mat == m.phase_function
            &&& rec.front_face
            &&& rec.u == 0 && rec.v == 0
            &&& rec.normal == (Vec3 { x: SCALE, y: 0i64, z: 0i64 })
            &&& rec.p.x == ray.at_axis(rec.t as int, 0)
            &&& rec.p.y == ray.at_axis(rec.t as int, 1)
            &&& rec.p.z == ray.at_axis(rec.t as int, 2)
        },
        m.boundary.deterministic()
            && hit_spec(*m.boundary, *ray, -crate::math::TMAX + 1, crate::math::TMAX - 1)
                is None
            ==> res is None,
    decreases *m.boundary, 1int,
{
    let rec1 = match m.boundary.hit(ray, -crate::math::TMAX + 1, crate::math::TMAX - 1) {
        Option::Some(rec) => rec,
        Option::None => {
            return None;
        },
    };
    let rec2 = match m.boundary.hit(ray, rec1.t + 1, crate::math::TMAX - 1) {
        Option::Some(rec) => rec,
        Option::None => {
            return None;
        },
    };
    let bb = match m.boundary.bounding_box(0, SCALE) {
        Option::Some(b) => b,
        Option::None => {
            proof {
                assert(false);
            }
            return None;
        },
    };
    let u = crate::rng::random_in_range(1, SCALE + 1);
    let free_path = crate::math::neg_ln_fp(u);
    medium_core(m, ray, t_min, t_max, rec1.t, rec2.t, free_path, &bb)
}

/// The primitives a hierarchy stands over: every non-hierarchy node is a
/// leaf of its own.
pub open spec fn leaves(h: Hittable) -> Seq<Hittable>
    decreases h,
{
    match h {
        Hittable::Bvh(n) => leaves(*n.left) + (match n.right {
            Option::Some(rt) => leaves(*rt),
            Option::None => Seq::empty(),
        }),
        _ => seq![h],
    }
}

/// Scanning a concatenation is scanning the first part and then the
/// second, restricted to the closest hit the first part found.
pub proof fn lemma_list_hit_concat(s1: Seq<Hittable>, s2: Seq<Hittable>, r: Ray, t_min: int,
    t_max: int)
    ensures
        list_hit_spec(s1 + s2, r, t_min, t_max) == (match list_hit_spec(s1, r, t_min, t_max) {
            Option::None => list_hit_spec(s2, r, t_min, t_max),
            Option::Some(hd) => combine_hits(Some(hd), list_hit_spec(s2, r, t_min, hd.t as int)),
        }),
    decreases s1,
{
    if s1.len() == 0 {
        assert(s1 + s2 =~= s2);
    } else {
        assert((s1 + s2)[0] == s1[0]);
        assert((s1 + s2).drop_first() =~= s1.drop_first() + s2);
        assert((s1 + s2).len() > 0);
        match hit_spec(s1[0], r, t_min, t_max) {
            Option::None => {
                lemma_list_hit_concat(s1.drop_first(), s2, r, t_min, t_max);
            },
            Option::Some(hd) => {
                lemma_list_hit_concat(s1.drop_first(), s2, r, t_min, hd.t as int);
            },
        }
    }
}

/// When the enclosing box rejects the ray over the whole window, a linear
/// scan over the node's primitives finds nothing in any subwindow.
pub proof fn lemma_box_miss_scan(h: Hittable, r: Ray, t_min: int, t_max: int, a: int, b: int,
    bigbox: Aabb)
    requires
        h.wf(),
        r.wf(),
        h.bbox_spec() matches Option::Some(bh) && bigbox.contains_box(bh),
        !bigbox.ray_hit_spec(r, t_min, t_max),
        t_min <= a,
        b <= t_max,
        -crate::math::TMAX < a,
        b < crate::math::TMAX,
    ensures
        list_hit_spec(leaves(h), r, a, b) == Option::<HitData>::None,
    decreases h,
{
    match h {
        Hittable::Bvh(n) => {
            let bh = h.bbox_spec()->Some_0;
            let bl = n.left.bbox_spec()->Some_0;
            lemma_contains_box_transitive(bigbox, bh, bl);
            lemma_box_miss_scan(*n.left, r, t_min, t_max, a, b, bigbox);
            match n.right {
                Option::Some(rt) => {
                    let br = rt.bbox_spec()->Some_0;
                    lemma_contains_box_transitive(bigbox, bh, br);
                    lemma_box_miss_scan(*rt, r, t_min, t_max, a, b, bigbox);
                    lemma_list_hit_concat(leaves(*n.left), leaves(*rt), r, a, b);
                    assert(leaves(h) == leaves(*n.left) + leaves(*rt));
                },
                Option::None => {
                    assert(leaves(h) == leaves(*n.left) + Seq::empty());
                    lemma_list_hit_concat(leaves(*n.left), Seq::empty(), r, a, b);
                    assert(list_hit_spec(Seq::empty(), r, a, b) is None);
                },
            }
        },
        _ => {
            assert(leaves(h) =~= seq![h]);
            lemma_hit_spec_props(h, r, a, b);
            match hit_spec(h, r, a, b) {
                Option::Some(hd) => {
                    let bh = h.bbox_spec()->Some_0;
                    crate::aabb::lemma_contains_ray_monotone(bigbox, bh, r, hd.t as int);
                    assert(t_min < hd.t < t_max && bigbox.contains_ray_at(r, hd.t as int));
                    assert(bigbox.ray_hit_spec(r, t_min, t_max));
                    assert(false);
                },
                Option::None => {
                    assert(seq![h].drop_first() =~= Seq::<Hittable>::empty());
                },
            }
        },
    }
}

/// The acceleration theorem: over the deterministic fragment, a hierarchy
/// answers every query exactly as a linear scan over its primitives does.
#[verifier::rlimit(100)]
pub proof fn lemma_bvh_matches_linear_scan(h: Hittable, r: Ray, t_min: int, t_max: int)
    requires
        h.wf(),
        h.deterministic(),
        r.wf(),
        -crate::math::TMAX < t_min,
        t_max < crate::math::TMAX,
    ensures
        hit_spec(h, r, t_min, t_max) == list_hit_spec(leaves(h), r, t_min, t_max),
    decreases h,
{
    match h {
        Hittable::Bvh(n) => {
            if !n.bb.ray_hit_spec(r, t_min, t_max) {
                lemma_box_miss_scan(h, r, t_min, t_max, t_min, t_max, n.bb);
                assert(hit_spec(h, r, t_min, t_max) is None);
                assert(list_hit_spec(leaves(h), r, t_min, t_max) is None);
            } else {
                lemma_bvh_matches_linear_scan(*n.left, r, t_min, t_max);
                let lh = hit_spec(*n.left, r, t_min, t_max);
                let cutoff: int = match lh {
                    Option::Some(hd) => hd.t as int,
                    Option::None => t_max,
                };
                lemma_hit_spec_props(*n.left, r, t_min, t_max);
                match n.right {
                    Option::Some(rt) => {
                        lemma_bvh_matches_linear_scan(*rt, r, t_min, cutoff);
                        lemma_list_hit_concat(leaves(*n.left), leaves(*rt), r, t_min, t_max);
                        assert(leaves(h) == leaves(*n.left) + leaves(*rt));
                        let rh = hit_spec(*rt, r, t_min, cutoff);
                        match lh {
                            Option::Some(hd) => {
                                assert(cutoff == hd.t as int);
                                assert(list_hit_spec(leaves(h), r, t_min, t_max)
                                    == combine_hits(Some(hd),
                                        list_hit_spec(leaves(*rt), r, t_min, hd.t as int)));
                                assert(list_hit_spec(leaves(*rt), r, t_min, hd.t as int) == rh);
                                assert(hit_spec(h, r, t_min, t_max)
                                    == combine_hits(Some(hd), rh));
                            },
                            Option::None => {
                                assert(cutoff == t_max);
                                assert(list_hit_spec(leaves(h), r, t_min, t_max)
                                    == list_hit_spec(leaves(*rt), r, t_min, t_max));
                                assert(hit_spec(h, r, t_min, t_max) == (match rh {
                                    Option::Some(hd2) => Some(hd2),
                                    Option::None => lh,
                                }));
                                assert(hit_spec(h, r, t_min, t_max) == rh);
                                assert(list_hit_spec(leaves(*rt), r, t_min, t_max) == rh);
                            },
                        }
                    },
                    Option::None => {
                        assert(leaves(h) == leaves(*n.left) + Seq::empty());
                        lemma_list_hit_concat(leaves(*n.left), Seq::empty(), r, t_min, t_max);
                        assert(list_hit_spec(Seq::empty(), r, t_min, t_max) is None);
                        match lh {
                            Option::Some(hd) => {
                                assert(list_hit_spec(Seq::empty(), r, t_min, hd.t as int)
                                    is None);
                            },
                            Option::None => {},
                        }
                        assert(list_hit_spec(leaves(h), r, t_min, t_max) == lh);
                        assert(hit_spec(h, r, t_min, t_max) == lh);
                    },
                }
            }
        },
        _ => {
            assert(leaves(h) =~= seq![h]);
            assert(seq![h].drop_first() =~= Seq::<Hittable>::empty());
            assert(list_hit_spec(Seq::<Hittable>::empty(), r, t_min, t_max) is None);
            match hit_spec(h, r, t_min, t_max) {
                Option::Some(hd) => {
                    assert(list_hit_spec(Seq::<Hittable>::empty(), r, t_min, hd.t as int)
                        is None);
                },
                Option::None => {},
            }
        },
    }
}


/// The sampling density a node assigns to direction `v` from `o`: the
/// sphere and the XZ rectangle answer their light-sampling formulas, an
/// aggregate answers the saturated average over its members, everything
/// else answers zero.
pub open spec fn pdf_value_spec(h: Hittable, o: Vec3, v: Vec3) -> int
    decreases h, 1int, 0int,
{
    match h {
        Hittable::Sphere(s) => sphere::sphere_pdf_value_spec(s, o, v),
        Hittable::XzRect(s) => aa_rect::xz_rect_pdf_value_spec(s, o, v),
        Hittable::List(l) => {
            let n = l.objects@.len() as int;
            if n == 0 {
                0
            } else {
                let avg = list_pdf_sum_spec(l.objects@, o, v, n) / n;
                if avg > crate::math::CMAX as int {
                    crate::math::CMAX as int
                } else {
                    avg
                }
            }
        },
        _ => 0,
    }
}

/// The sum of the first `i` members' densities.
pub open spec fn list_pdf_sum_spec(s: Seq<Hittable>, o: Vec3, v: Vec3, i: int) -> int
    decreases s, 0int, i,
{
    if i <= 0 || i > s.len() {
        0
    } else {
        list_pdf_sum_spec(s, o, v, i - 1) + pdf_value_spec(s[i - 1], o, v)
    }
}

impl Hittable {
    /// The density with which `random` would draw `v` from `o`: exactly
    /// `pdf_value_spec`.
    pub fn pdf_value(&self, o: Vec3, v: Vec3) -> (r: i64)
        requires
            self.wf(),
            o.in_range(),
            v.bounded(0x200_0000),
        ensures
            0 <= r <= crate::math::CMAX,
            r == pdf_value_spec(*self, o, v),
        decreases *self, 0int,
    {
        match self {
            Hittable::Sphere(s) => s.pdf_value(o, v),
            Hittable::XzRect(s) => s.pdf_value(o, v),
            Hittable::List(l) => pdf_value_list(&l.objects, o, v),
            _ => 0,
        }
    }

    /// A direction from `o` toward this node, matching `pdf_value` where a
    /// shape supports light sampling; an aggregate delegates to a random
    /// member, and every other node answers the fixed unit x direction.
    pub fn random(&self, o: Vec3) -> (r: Vec3)
        requires
            self.wf(),
            o.in_range(),
        ensures
            r.bounded(0x200_0000),
            !(*self is Sphere || *self is XzRect || *self is List)
                ==> r == (Vec3 { x: SCALE, y: 0i64, z: 0i64 }),
            *self matches Hittable::XzRect(s) ==> {
                &&& s.x0 <= o.x + r.x < s.x1
                &&& o.y + r.y == s.k
                &&& s.z0 <= o.z + r.z < s.z1
            },
        decreases *self, 0int,
    {
        match self {
            Hittable::Sphere(s) => s.random(o),
            Hittable::XzRect(s) => s.random(o),
            Hittable::List(l) => random_list(&l.objects, o),
            _ => Vec3 { x: SCALE, y: 0, z: 0 },
        }
    }
}

/// The unweighted average of the members' densities, saturated.
fn pdf_value_list(objects: &Vec<Hittable>, o: Vec3, v: Vec3) -> (r: i64)
    requires
        list_wf(objects@),
        o.in_range(),
        v.bounded(0x200_0000),
    ensures
        0 <= r <= crate::math::CMAX,
        objects@.len() == 0 ==> r == 0,
        objects@.len() > 0 ==> r == ({
            let n = objects@.len() as int;
            let avg = list_pdf_sum_spec(objects@, o, v, n) / n;
            if avg > crate::math::CMAX as int {
                crate::math::CMAX as int
            } else {
                avg
            }
        }),
    decreases objects@, 1int,
{
    let n = objects.len();
    if n == 0 {
        return 0;
    }
    let mut acc: i128 = 0;
    let mut i: usize = 0;
    while i < n
        invariant
            i <= n,
            n == objects@.len(),
            list_wf(objects@),
            o.in_range(),
            v.bounded(0x200_0000),
            0 <= acc <= (i as int) * (crate::math::CMAX as int),
            acc == list_pdf_sum_spec(objects@, o, v, i as int),
        decreases n - i,
    {
        let p = objects[i].pdf_value(o, v);
        proof {
            assert(acc + p <= (i as int + 1) * (crate::math::CMAX as int))
                by (nonlinear_arith)
                requires
                    acc <= (i as int) * (crate::math::CMAX as int),
                    0 <= p <= crate::math::CMAX,
            ;
        }
        acc = acc + (p as i128);
        i = i + 1;
    }
    proof {
        crate::math::lemma_mul_bound(n as int, crate::math::CMAX as int,
            0x1_0000_0000_0000_0000int, 0x100_0000_0000int);
    }
    let avg = crate::math::div_floor_wide(acc, n as i128);
    if avg > crate::math::CMAX as i128 {
        crate::math::CMAX
    } else {
        avg as i64
    }
}

/// Delegate to one member, chosen uniformly at random.
fn random_list(objects: &Vec<Hittable>, o: Vec3) -> (r: Vec3)
    requires
        list_wf(objects@),
        o.in_range(),
    ensures
        r.bounded(0x200_0000),
    decreases objects@, 1int,
{
    let n = objects.len();
    if n == 0 {
        return Vec3 { x: SCALE, y: 0, z: 0 };
    }
    let k = crate::rng::random_index(n);
    objects[k].random(o)
}



/// Window restriction for the sphere kernel: the roots are ordered, so a
/// shrunk window can only lose the far root, never gain a nearer one.
proof fn lemma_sphere_restrict(sp: sphere::Sphere, r: Ray, a: int, b: int, b2: int)
    requires
        a < b2 <= b,
        -crate::math::TMAX < a,
        b < crate::math::TMAX,
    ensures
        sphere::sphere_hit_spec(sp, r, a, b2) == (match sphere::sphere_hit_spec(sp, r, a, b) {
            Option::None => Option::<HitData>::None,
            Option::Some(hd) => if hd.t < b2 {
                Some(hd)
            } else {
                Option::<HitData>::None
            },
        }),
{
    let aq = Vec3::dot_spec(r.direction, r.direction);
    if aq > 0 {
        let ocx = r.origin.x - sp.center.x;
        let ocy = r.origin.y - sp.center.y;
        let ocz = r.origin.z - sp.center.z;
        let half_b = ocx * r.direction.x + ocy * r.direction.y + ocz * r.direction.z;
        let c = ocx * ocx + ocy * ocy + ocz * ocz - sp.radius * sp.radius;
        let disc = half_b * half_b - aq * c;
        if disc >= 0 {
            let sq = crate::math::sqrt_floor(disc);
            crate::math::lemma_sqrt_floor_bounds(disc);
            let r1 = ((-half_b - sq) * 1024) / aq;
            let r2 = ((-half_b + sq) * 1024) / aq;
            assert((-half_b - sq) * 1024 <= (-half_b + sq) * 1024) by (nonlinear_arith)
                requires
                    sq >= 0,
            ;
            vstd::arithmetic::div_mod::lemma_div_is_ordered((-half_b - sq) * 1024,
                (-half_b + sq) * 1024, aq);
            assert(r1 <= r2);
        }
    }
}

/// Window restriction for the moving-sphere kernel: the same root
/// ordering argument against the interpolated center.
proof fn lemma_moving_sphere_restrict(sp: moving_sphere::MovingSphere, r: Ray, a: int, b: int,
    b2: int)
    requires
        a < b2 <= b,
        -crate::math::TMAX < a,
        b < crate::math::TMAX,
    ensures
        moving_sphere::moving_sphere_hit_spec(sp, r, a, b2)
            == (match moving_sphere::moving_sphere_hit_spec(sp, r, a, b) {
            Option::None => Option::<HitData>::None,
            Option::Some(hd) => if hd.t < b2 {
                Some(hd)
            } else {
                Option::<HitData>::None
            },
        }),
{
    let aq = Vec3::dot_spec(r.direction, r.direction);
    if aq > 0 {
        let ctr = moving_sphere::center_spec(sp, r.time as int);
        let ocx = r.origin.x - ctr.0;
        let ocy = r.origin.y - ctr.1;
        let ocz = r.origin.z - ctr.2;
        let half_b = ocx * r.direction.x + ocy * r.direction.y + ocz * r.direction.z;
        let c = ocx * ocx + ocy * ocy + ocz * ocz - sp.radius * sp.radius;
        let disc = half_b * half_b - aq * c;
        if disc >= 0 {
            let sq = crate::math::sqrt_floor(disc);
            crate::math::lemma_sqrt_floor_bounds(disc);
            let r1 = ((-half_b - sq) * 1024) / aq;
            let r2 = ((-half_b + sq) * 1024) / aq;
            assert((-half_b - sq) * 1024 <= (-half_b + sq) * 1024) by (nonlinear_arith)
                requires
                    sq >= 0,
            ;
            vstd::arithmetic::div_mod::lemma_div_is_ordered((-half_b - sq) * 1024,
                (-half_b + sq) * 1024, aq);
            assert(r1 <= r2);
        }
    }
}

/// Window restriction for the rectangle kernels.
proof fn lemma_rect_restrict(h: Hittable, r: Ray, a: int, b: int, b2: int)
    requires
        a < b2 <= b,
        -crate::math::TMAX < a,
        b < crate::math::TMAX,
        h is XyRect || h is XzRect || h is YzRect,
    ensures
        hit_spec(h, r, a, b2) == (match hit_spec(h, r, a, b) {
            Option::None => Option::<HitData>::None,
            Option::Some(hd) => if hd.t < b2 {
                Some(hd)
            } else {
                Option::<HitData>::None
            },
        }),
{
}

/// What shrinking the query window does to the answer: a hit before the
/// new bound survives unchanged, anything else becomes a miss.  This is
/// the sense in which the intersection semantics report the nearest hit.
#[verifier::rlimit(100)]
pub proof fn lemma_window_restrict(h: Hittable, r: Ray, a: int, b: int, b2: int)
    requires
        h.wf(),
        r.wf(),
        -crate::math::TMAX < a,
        b < crate::math::TMAX,
        a < b2 <= b,
    ensures
        hit_spec(h, r, a, b2) == (match hit_spec(h, r, a, b) {
            Option::None => Option::<HitData>::None,
            Option::Some(hd) => if hd.t < b2 {
                Some(hd)
            } else {
                Option::<HitData>::None
            },
        }),
    decreases h,
{
    match h {
        Hittable::Sphere(sp) => {
            lemma_sphere_restrict(sp, r, a, b, b2);
        },
        Hittable::MovingSphere(sp) => {
            lemma_moving_sphere_restrict(sp, r, a, b, b2);
        },
        Hittable::XyRect(_) => {
            lemma_rect_restrict(h, r, a, b, b2);
        },
        Hittable::XzRect(_) => {
            lemma_rect_restrict(h, r, a, b, b2);
        },
        Hittable::YzRect(_) => {
            lemma_rect_restrict(h, r, a, b, b2);
        },
        Hittable::BoxObj(bx) => {
            lemma_list_window_restrict(bx.sides.objects@, r, a, b, b2);
        },
        Hittable::Medium(_) => {},
        Hittable::Translate(t) => {
            if translate_in_bounds(r, t.offset) {
                lemma_window_restrict(*t.ptr, moved_ray_spec(r, t.offset), a, b, b2);
            }
        },
        Hittable::RotateY(rt) => {
            if rotate_in_bounds(rt, r) {
                lemma_window_restrict(*rt.ptr, rotated_ray_spec(rt, r), a, b, b2);
            }
        },
        Hittable::FlipFace(f) => {
            lemma_window_restrict(*f.ptr, r, a, b, b2);
        },
        Hittable::List(l) => {
            lemma_list_window_restrict(l.objects@, r, a, b, b2);
        },
        Hittable::Bvh(n) => {
            lemma_hit_spec_props(h, r, a, b);
            lemma_hit_spec_props(*n.left, r, a, b);
            if n.bb.ray_hit_spec(r, a, b2) {
                if !n.bb.ray_hit_spec(r, a, b) {
                    let t = choose|t: int| a < t < b2
                        && #[trigger] n.bb.contains_ray_at(r, t);
                    assert(a < t < b && n.bb.contains_ray_at(r, t));
                    assert(false);
                }
            }
            if n.bb.ray_hit_spec(r, a, b) {
                lemma_window_restrict(*n.left, r, a, b, b2);
                let lh = hit_spec(*n.left, r, a, b);
                let cutoff: int = match lh {
                    Option::Some(hd) => hd.t as int,
                    Option::None => b,
                };
                match n.right {
                    Option::Some(rt) => {
                        lemma_hit_spec_props(*rt, r, a, cutoff);
                        match lh {
                            Option::Some(hl) => {
                                if hl.t < b2 {
                                    // the shrunk query keeps the same cutoff
                                } else {
                                    // the left hit falls away; the right
                                    // subtree is searched only up to b2
                                    if a < b2 {
                                        lemma_window_restrict(*rt, r, a, cutoff, b2);
                                    }
                                }
                            },
                            Option::None => {
                                lemma_window_restrict(*rt, r, a, b, b2);
                            },
                        }
                        if hit_spec(h, r, a, b) is Some {
                            let hd = hit_spec(h, r, a, b)->Some_0;
                            if hd.t < b2 {
                                assert(a < hd.t < b2);
                                assert(n.bb.contains_ray_at(r, hd.t as int));
                                assert(n.bb.ray_hit_spec(r, a, b2));
                            }
                        }
                        match lh {
                            Option::Some(hl) => {
                                let rh = hit_spec(*rt, r, a, hl.t as int);
                                match rh {
                                    Option::Some(h2) => {
                                        if h2.t < b2 {
                                            assert(a < h2.t < b2);
                                            lemma_hit_spec_props(*rt, r, a, hl.t as int);
                                            assert(n.bb.ray_hit_spec(r, a, b2));
                                        }
                                    },
                                    Option::None => {},
                                }
                            },
                            Option::None => {},
                        }
                    },
                    Option::None => {
                        if hit_spec(h, r, a, b) is Some {
                            let hd = hit_spec(h, r, a, b)->Some_0;
                            if hd.t < b2 {
                                assert(n.bb.contains_ray_at(r, hd.t as int));
                                assert(n.bb.ray_hit_spec(r, a, b2));
                            }
                        }
                    },
                }
            }
        },
        _ => {},
    }
}

/// Window restriction for the linear scan.
pub proof fn lemma_list_window_restrict(s: Seq<Hittable>, r: Ray, a: int, b: int, b2: int)
    requires
        list_wf(s),
        r.wf(),
        -crate::math::TMAX < a,
        b < crate::math::TMAX,
        a < b2 <= b,
    ensures
        list_hit_spec(s, r, a, b2) == (match list_hit_spec(s, r, a, b) {
            Option::None => Option::<HitData>::None,
            Option::Some(hd) => if hd.t < b2 {
                Some(hd)
            } else {
                Option::<HitData>::None
            },
        }),
    decreases s,
{
    if s.len() > 0 {
        assert(list_wf(s.drop_first()));
        lemma_window_restrict(s[0], r, a, b, b2);
        lemma_hit_spec_props(s[0], r, a, b);
        match hit_spec(s[0], r, a, b) {
            Option::None => {
                lemma_list_window_restrict(s.drop_first(), r, a, b, b2);
            },
            Option::Some(h0) => {
                lemma_list_hit_props(s.drop_first(), r, a, h0.t as int);
                if h0.t < b2 {
                    // the head hit survives; the tail is queried with the
                    // same shrunk cutoff either way
                } else {
                    // the head hit falls away, and the tail cutoff tightens
                    lemma_list_window_restrict(s.drop_first(), r, a, h0.t as int, b2);
                }
            },
        }
    }
}

/// A scan that misses saw every member miss.
proof fn lemma_scan_none_members(s: Seq<Hittable>, r: Ray, a: int, b: int)
    requires
        list_hit_spec(s, r, a, b) is None,
    ensures
        forall|i: int| 0 <= i < s.len() ==> #[trigger] hit_spec(s[i], r, a, b) is None,
    decreases s,
{
    if s.len() > 0 {
        match hit_spec(s[0], r, a, b) {
            Option::Some(_) => {
                assert(false);
            },
            Option::None => {
                lemma_scan_none_members(s.drop_first(), r, a, b);
                assert forall|i: int| 0 <= i < s.len()
                    implies #[trigger] hit_spec(s[i], r, a, b) is None by {
                    if i > 0 {
                        assert(hit_spec(s.drop_first()[i - 1], r, a, b) is None);
                    }
                }
            },
        }
    }
}

/// The nearest-hit characterization: whatever the scan reports, no member
/// intersects the ray strictly before it; and a miss means no member
/// intersects at all.
pub proof fn lemma_scan_finds_nearest(s: Seq<Hittable>, r: Ray, a: int, b: int)
    requires
        list_wf(s),
        r.wf(),
        -crate::math::TMAX < a,
        b < crate::math::TMAX,
        a < b,
    ensures
        match list_hit_spec(s, r, a, b) {
            Option::Some(hd) => forall|i: int| 0 <= i < s.len()
                ==> #[trigger] hit_spec(s[i], r, a, hd.t as int) is None,
            Option::None => forall|i: int| 0 <= i < s.len()
                ==> #[trigger] hit_spec(s[i], r, a, b) is None,
        },
{
    match list_hit_spec(s, r, a, b) {
        Option::Some(hd) => {
            lemma_list_hit_props(s, r, a, b);
            lemma_list_window_restrict(s, r, a, b, hd.t as int);
            assert(list_hit_spec(s, r, a, hd.t as int) is None);
            lemma_scan_none_members(s, r, a, hd.t as int);
        },
        Option::None => {
            lemma_scan_none_members(s, r, a, b);
        },
    }
}

} // verus!

//! Primitive intersections and the hierarchy's agreement with linear
//! search.

use raytracer::bvh::{box_compare, box_compare_x, box_compare_y, box_compare_z, Bvh_Node};
use raytracer::fx::{FX_MAX, FX_ONE};
use raytracer::hit::{HitRecord, Hittable, Translate};
use raytracer::hit_list::HitList;
use raytracer::interval::Interval;
use raytracer::quad::{gen_box, Quad};
use raytracer::ray::Ray;
use raytracer::raster::{frame_index, ColBufId, IndBufId, PosBufId};
use raytracer::sphere::Sphere;
use raytracer::vec3::Vec3;

const S: i64 = FX_ONE;

fn fresh_rec() -> HitRecord {
    HitRecord::new(Vec3::zero(), Vec3::zero(), 0, false, None)
}

fn full() -> Interval {
    Interval::new(66, FX_MAX)
}

#[test]
fn sphere_round_trip_exact_t() {
    // A ray down -z through a unit sphere centred two units away:
    // the near root is exactly t = 1.
    let sp = Sphere::new(Vec3::new(0, 0, -2 * S), S, Some(0));
    let ray = Ray::new(Vec3::zero(), Vec3::new(0, 0, -S), 0);
    let mut rec = fresh_rec();
    assert!(sp.hit(&ray, full(), &mut rec));
    assert_eq!(rec.t, S);
    assert_eq!((rec.point.x, rec.point.y, rec.point.z), (0, 0, -S));
    assert_eq!((rec.normal.x, rec.normal.y, rec.normal.z), (0, 0, S));
    assert!(rec.front_face);
    assert_eq!(rec.mat, Some(0));
}

#[test]
fn sphere_inside_takes_far_root() {
    // From the centre, the near root is negative; the far root at t = 1
    // is taken and the normal is flipped inward.
    let sp = Sphere::new(Vec3::zero(), S, Some(3));
    let ray = Ray::new(Vec3::zero(), Vec3::new(0, 0, -S), 0);
    let mut rec = fresh_rec();
    assert!(sp.hit(&ray, full(), &mut rec));
    assert_eq!(rec.t, S);
    assert!(!rec.front_face);
    assert_eq!((rec.normal.x, rec.normal.y, rec.normal.z), (0, 0, S));
}

#[test]
fn sphere_miss_leaves_record() {
    let sp = Sphere::new(Vec3::new(0, 0, -2 * S), S, Some(0));
    let ray = Ray::new(Vec3::new(3 * S, 0, 0), Vec3::new(0, 0, -S), 0);
    let mut rec = fresh_rec();
    let before = rec.t;
    assert!(!sp.hit(&ray, full(), &mut rec));
    assert_eq!(rec.t, before);
}

#[test]
fn moving_sphere_center_translates() {
    let sp = Sphere::new_moving(Vec3::zero(), Vec3::new(S, 0, 0), S / 2, Some(0));
    let c0 = sp.sphere_center(0);
    let c1 = sp.sphere_center(S);
    assert_eq!((c0.x, c0.y, c0.z), (0, 0, 0));
    assert_eq!((c1.x, c1.y, c1.z), (S, 0, 0));
}

#[test]
fn quad_center_has_half_half_coordinates() {
    let q = Quad::new(
        Vec3::new(-S / 2, -S / 2, -S),
        Vec3::new(S, 0, 0),
        Vec3::new(0, S, 0),
        0,
    );
    let ray = Ray::new(Vec3::zero(), Vec3::new(0, 0, -S), 0);
    let mut rec = fresh_rec();
    assert!(q.hit(&ray, full(), &mut rec));
    assert_eq!(rec.t, S);
    assert_eq!(rec.u, S / 2);
    assert_eq!(rec.v, S / 2);
    assert_eq!(rec.mat, Some(0));
}

#[test]
fn quad_just_outside_edge_misses() {
    let q = Quad::new(
        Vec3::new(-S / 2, -S / 2, -S),
        Vec3::new(S, 0, 0),
        Vec3::new(0, S, 0),
        0,
    );
    // Aim past the +u edge.
    let ray = Ray::new(Vec3::new(S / 2 + 200, 0, 0), Vec3::new(0, 0, -S), 0);
    let mut rec = fresh_rec();
    assert!(!q.hit(&ray, full(), &mut rec));
    // Aim past the -v edge.
    let ray2 = Ray::new(Vec3::new(0, -S / 2 - 200, 0), Vec3::new(0, 0, -S), 0);
    assert!(!q.hit(&ray2, full(), &mut rec));
}

#[test]
fn quad_parallel_ray_misses() {
    let q = Quad::new(
        Vec3::new(-S, -S, -S),
        Vec3::new(2 * S, 0, 0),
        Vec3::new(0, 2 * S, 0),
        0,
    );
    let ray = Ray::new(Vec3::zero(), Vec3::new(S, 0, 0), 0);
    let mut rec = fresh_rec();
    assert!(!q.hit(&ray, full(), &mut rec));
}

#[test]
fn hit_list_keeps_nearest() {
    let mut world = HitList::new(Vec::new());
    world.add(Hittable::Sphere(Sphere::new(Vec3::new(0, 0, -5 * S), S, Some(0))));
    world.add(Hittable::Sphere(Sphere::new(Vec3::new(0, 0, -3 * S), S, Some(1))));
    let ray = Ray::new(Vec3::zero(), Vec3::new(0, 0, -S), 0);
    let mut rec = fresh_rec();
    assert!(world.hit(&ray, full(), &mut rec));
    assert_eq!(rec.t, 2 * S);
    assert_eq!(rec.mat, Some(1));
}

#[test]
fn gen_box_front_face_hit() {
    let b = gen_box(Vec3::new(-S, -S, -3 * S), Vec3::new(S, S, -S), 4);
    let ray = Ray::new(Vec3::zero(), Vec3::new(0, 0, -S), 0);
    let mut rec = fresh_rec();
    assert!(b.hit(&ray, full(), &mut rec));
    assert_eq!(rec.t, S);
    assert_eq!(rec.mat, Some(4));
    if let Hittable::List(l) = &b {
        assert_eq!(l.list.len(), 6);
    } else {
        panic!("gen_box should build a list");
    }
}

#[test]
fn bvh_agrees_with_linear_search() {
    let mut world = HitList::new(Vec::new());
    let centers = [
        (0, 0, -4),
        (2, 0, -6),
        (-2, 1, -5),
        (1, -1, -3),
        (0, 2, -8),
        (-1, -2, -7),
        (3, 3, -9),
    ];
    for (k, (x, y, z)) in centers.iter().enumerate() {
        world.add(Hittable::Sphere(Sphere::new(
            Vec3::new(x * S, y * S, z * S),
            S,
            Some(k),
        )));
    }
    // a compound member: a whole box of quads as one BVH leaf.
    world.add(gen_box(Vec3::new(-S, -S, -11 * S), Vec3::new(S, S, -10 * S), 7));
    let tree = Hittable::Node(Bvh_Node::new_by_list(&world));
    let flat = Hittable::List(world);
    let dirs = [
        (0, 0, -S),
        (S / 4, 0, -S),
        (-S / 4, S / 8, -S),
        (S / 2, S / 2, -S),
        (S, S, S),
        (0, S, 0),
    ];
    for (dx, dy, dz) in dirs {
        let ray = Ray::new(Vec3::new(0, 0, 0), Vec3::new(dx, dy, dz), 0);
        let mut rec_tree = fresh_rec();
        let mut rec_flat = fresh_rec();
        let hit_tree = tree.hit(&ray, full(), &mut rec_tree);
        let hit_flat = flat.hit(&ray, full(), &mut rec_flat);
        assert_eq!(hit_tree, hit_flat);
        if hit_tree {
            assert_eq!(rec_tree.t, rec_flat.t);
            assert_eq!(rec_tree.mat, rec_flat.mat);
            assert_eq!(
                (rec_tree.point.x, rec_tree.point.y, rec_tree.point.z),
                (rec_flat.point.x, rec_flat.point.y, rec_flat.point.z)
            );
        }
    }
}

#[test]
fn bvh_single_object_duplicates_leaf() {
    let mut world = HitList::new(Vec::new());
    world.add(Hittable::Sphere(Sphere::new(Vec3::new(0, 0, -2 * S), S, Some(0))));
    let tree = Hittable::Node(Bvh_Node::new_by_list(&world));
    let ray = Ray::new(Vec3::zero(), Vec3::new(0, 0, -S), 0);
    let mut rec = fresh_rec();
    assert!(tree.hit(&ray, full(), &mut rec));
    assert_eq!(rec.t, S);
}

#[test]
fn box_compare_orders_by_axis_minimum() {
    let a = Hittable::Sphere(Sphere::new(Vec3::new(0, 0, 0), S, Some(0)));
    let b = Hittable::Sphere(Sphere::new(Vec3::new(5 * S, -5 * S, 2 * S), S, Some(1)));
    assert!(box_compare_x(&a, &b));
    assert!(!box_compare_y(&a, &b));
    assert!(box_compare_z(&a, &b));
    assert!(box_compare(&b, &a, 1));
}

#[test]
fn translate_shifts_bounding_box() {
    let sp = Hittable::Sphere(Sphere::new(Vec3::new(0, 0, 0), S, Some(0)));
    let inner_box = sp.bounding_box();
    let t = Translate::new(Box::new(sp), Vec3::new(2 * S, 0, 0));
    assert_eq!(t.bbox.x.min, inner_box.x.min + 2 * S);
    assert_eq!(t.bbox.x.max, inner_box.x.max + 2 * S);
    assert_eq!(t.bbox.y.min, inner_box.y.min);
    assert_eq!((t.offset.x, t.offset.y, t.offset.z), (2 * S, 0, 0));
}

#[test]
fn frame_index_flips_rows() {
    assert_eq!(frame_index(4, 3, 0, 0), 8);
    assert_eq!(frame_index(4, 3, 3, 2), 3);
    let _ids = (PosBufId(0), IndBufId(1), ColBufId(2));
}

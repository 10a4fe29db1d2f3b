use rs_pbrt::bounds::{Bounds3f, RaySlopes};
use rs_pbrt::bvh::{BVHAccel, BvhNode, Primitive, SplitMethod};
use rs_pbrt::float::Float;
use rs_pbrt::geometry::{Point3f, Ray, Vector3f};

fn num(x: f32) -> Float {
    Float::from_bits(x.to_bits())
}

fn plain(a: Float) -> f32 {
    f32::from_bits(a.to_bits())
}

fn point(x: f32, y: f32, z: f32) -> Point3f {
    Point3f { x: num(x), y: num(y), z: num(z) }
}

fn ray(o: [f32; 3], d: [f32; 3], t_max: f32) -> Ray {
    Ray {
        o: point(o[0], o[1], o[2]),
        d: Vector3f { x: num(d[0]), y: num(d[1]), z: num(d[2]) },
        t_max: num(t_max),
        time: num(0.0),
        differential: None,
    }
}

fn cube(lo: [f32; 3], hi: [f32; 3]) -> Bounds3f {
    Bounds3f { p_min: point(lo[0], lo[1], lo[2]), p_max: point(hi[0], hi[1], hi[2]) }
}

/// A sphere, which tells its number when it is met.
#[derive(Clone, Copy)]
struct Sphere {
    id: usize,
    centre: [f32; 3],
    radius: f32,
}

impl Sphere {
    fn distance(&self, r: &Ray) -> Option<f32> {
        let o = [plain(r.o.x) as f64, plain(r.o.y) as f64, plain(r.o.z) as f64];
        let d = [plain(r.d.x) as f64, plain(r.d.y) as f64, plain(r.d.z) as f64];
        let c = [self.centre[0] as f64, self.centre[1] as f64, self.centre[2] as f64];
        let oc = [o[0] - c[0], o[1] - c[1], o[2] - c[2]];
        let a = d[0] * d[0] + d[1] * d[1] + d[2] * d[2];
        let b = 2.0 * (oc[0] * d[0] + oc[1] * d[1] + oc[2] * d[2]);
        let cc = oc[0] * oc[0] + oc[1] * oc[1] + oc[2] * oc[2] - (self.radius as f64) * (self.radius as f64);
        let disc = b * b - 4.0 * a * cc;
        if disc < 0.0 || a == 0.0 {
            return None;
        }
        let root = disc.sqrt();
        let mut t = (-b - root) / (2.0 * a);
        if t <= 0.0 {
            t = (-b + root) / (2.0 * a);
        }
        if t <= 0.0 || t as f32 >= plain(r.t_max) {
            return None;
        }
        Some(t as f32)
    }
}

impl Primitive for Sphere {
    type Found = usize;

    fn world_bound(&self) -> Bounds3f {
        let (c, r) = (self.centre, self.radius);
        cube([c[0] - r, c[1] - r, c[2] - r], [c[0] + r, c[1] + r, c[2] + r])
    }

    fn intersect(&self, ray: &Ray) -> Option<(usize, Float)> {
        self.distance(ray).map(|t| (self.id, num(t)))
    }

    fn intersect_p(&self, ray: &Ray) -> bool {
        self.distance(ray).is_some()
    }
}

/// A disk in the plane z = 0, centred at the origin and facing up the z axis.
struct Disk {
    radius: f32,
}

impl Disk {
    fn distance(&self, r: &Ray) -> Option<f32> {
        let dz = plain(r.d.z);
        if dz == 0.0 {
            return None;
        }
        let t = -plain(r.o.z) / dz;
        if t <= 0.0 || t >= plain(r.t_max) {
            return None;
        }
        let x = plain(r.o.x) + t * plain(r.d.x);
        let y = plain(r.o.y) + t * plain(r.d.y);
        if x * x + y * y > self.radius * self.radius {
            return None;
        }
        Some(t)
    }
}

impl Primitive for Disk {
    type Found = Point3f;

    fn world_bound(&self) -> Bounds3f {
        cube([-self.radius, -self.radius, 0.0], [self.radius, self.radius, 0.0])
    }

    fn intersect(&self, ray: &Ray) -> Option<(Point3f, Float)> {
        self.distance(ray).map(|t| {
            (
                point(
                    plain(ray.o.x) + t * plain(ray.d.x),
                    plain(ray.o.y) + t * plain(ray.d.y),
                    0.0,
                ),
                num(t),
            )
        })
    }

    fn intersect_p(&self, ray: &Ray) -> bool {
        self.distance(ray).is_some()
    }
}

struct Dice {
    state: u64,
}

impl Dice {
    fn unit(&mut self) -> f32 {
        self.state = self.state.wrapping_mul(6364136223846793005).wrapping_add(1442695040888963407);
        ((self.state >> 40) as f32) / 16_777_216.0
    }

    fn between(&mut self, lo: f32, hi: f32) -> f32 {
        lo + (hi - lo) * self.unit()
    }
}

fn cloud(n: usize, seed: u64) -> Vec<Sphere> {
    let mut dice = Dice { state: seed };
    (0..n)
        .map(|id| Sphere {
            id,
            centre: [dice.between(-10.0, 10.0), dice.between(-10.0, 10.0), dice.between(-10.0, 10.0)],
            radius: dice.between(0.1, 1.5),
        })
        .collect()
}

fn nearest_by_scan(spheres: &[Sphere], r: &Ray) -> Option<(usize, f32)> {
    let mut best: Option<(usize, f32)> = None;
    for s in spheres {
        if let Some(t) = s.distance(r) {
            if best.map_or(true, |(_, b)| t < b) {
                best = Some((s.id, t));
            }
        }
    }
    best
}

const METHODS: [SplitMethod; 3] =
    [SplitMethod::Middle, SplitMethod::EqualCounts, SplitMethod::SurfaceAreaHeuristic];

#[test]
fn the_hierarchy_agrees_with_a_scan_of_all_primitives() {
    for method in METHODS {
        for (n, seed) in [(1usize, 3u64), (2, 4), (7, 5), (64, 6), (300, 7)] {
            let spheres = cloud(n, seed);
            let bvh = BVHAccel::new(spheres.clone(), 4, method);
            let mut dice = Dice { state: seed + 100 };
            for _ in 0..400 {
                let o = [dice.between(-15.0, 15.0), dice.between(-15.0, 15.0), dice.between(-15.0, 15.0)];
                let d = [dice.between(-1.0, 1.0), dice.between(-1.0, 1.0), dice.between(-1.0, 1.0)];
                let r = ray(o, d, f32::INFINITY);
                let want = nearest_by_scan(&spheres, &r);
                let got = bvh.intersect(&r).map(|(id, t)| (id, plain(t)));
                match (got, want) {
                    (None, None) => {}
                    (Some((_, t)), Some((_, w))) => {
                        assert!((t - w).abs() <= 1.0e-4 * w.max(1.0), "{} for {}", t, w)
                    }
                    _ => panic!("{:?} for {:?}", got, want),
                }
                assert_eq!(bvh.intersect_p(&r), want.is_some());
            }
        }
    }
}

#[test]
fn rays_along_the_axes_are_found_too() {
    let spheres = cloud(100, 11);
    let bvh = BVHAccel::new(spheres.clone(), 1, SplitMethod::SurfaceAreaHeuristic);
    let mut dice = Dice { state: 12 };
    for _ in 0..300 {
        let o = [dice.between(-12.0, 12.0), dice.between(-12.0, 12.0), -20.0];
        for d in [[0.0f32, 0.0, 1.0], [0.0, 0.0, -1.0], [1.0, 0.0, 0.0], [0.0, -1.0, 0.0], [0.0, -0.0, 2.0]] {
            let r = ray(o, d, f32::INFINITY);
            let want = nearest_by_scan(&spheres, &r);
            let got = bvh.intersect(&r).map(|(id, t)| (id, plain(t)));
            assert_eq!(got.map(|g| g.0), want.map(|w| w.0));
            assert_eq!(bvh.intersect_p(&r), want.is_some());
        }
    }
}

#[test]
fn a_ray_ends_where_it_is_told_to() {
    let spheres = vec![Sphere { id: 0, centre: [0.0, 0.0, 10.0], radius: 1.0 }];
    let bvh = BVHAccel::new(spheres, 4, SplitMethod::Middle);
    let long = ray([0.0, 0.0, 0.0], [0.0, 0.0, 1.0], f32::INFINITY);
    let short = ray([0.0, 0.0, 0.0], [0.0, 0.0, 1.0], 5.0);
    assert_eq!(bvh.intersect(&long).map(|(id, t)| (id, plain(t))), Some((0, 9.0)));
    assert!(bvh.intersect(&short).is_none());
    assert!(bvh.intersect_p(&long));
    assert!(!bvh.intersect_p(&short));
}

#[test]
fn an_empty_hierarchy_is_never_met() {
    for method in METHODS {
        let bvh: BVHAccel<Sphere> = BVHAccel::new(Vec::new(), 4, method);
        assert!(bvh.nodes.is_empty());
        let mut dice = Dice { state: 21 };
        for _ in 0..50 {
            let o = [dice.between(-5.0, 5.0), dice.between(-5.0, 5.0), dice.between(-5.0, 5.0)];
            let d = [dice.between(-1.0, 1.0), dice.between(-1.0, 1.0), dice.between(-1.0, 1.0)];
            let r = ray(o, d, f32::INFINITY);
            assert!(bvh.intersect(&r).is_none());
            assert!(!bvh.intersect_p(&r));
        }
    }
}

#[test]
fn a_disk_is_met_at_the_distance_of_its_plane() {
    for method in METHODS {
        let bvh = BVHAccel::new(vec![Disk { radius: 0.5 }], 1, method);
        assert_eq!(bvh.nodes.len(), 1);
        // the camera looks down the z axis from 3 above the disk
        let centre = ray([0.0, 0.0, 3.0], [0.0, 0.0, -1.0], f32::INFINITY);
        let (p, t) = bvh.intersect(&centre).unwrap();
        assert_eq!(plain(t), 3.0);
        assert_eq!([plain(p.x), plain(p.y), plain(p.z)], [0.0, 0.0, 0.0]);
        assert!(bvh.intersect_p(&centre));
        let slanted = ray([0.3, 0.0, 4.0], [0.0, 0.05, -1.0], f32::INFINITY);
        assert_eq!(plain(bvh.intersect(&slanted).unwrap().1), 4.0);
        // rays that miss the box around the disk
        for o in [[0.6f32, 0.0, 3.0], [0.0, -0.51, 3.0], [2.0, 2.0, 3.0], [0.0, 0.0, -3.0]] {
            let miss = ray(o, [0.0, 0.0, -1.0], f32::INFINITY);
            assert!(!bvh.nodes[0].bounds().intersect_p(&miss, &RaySlopes::new(&miss.d)) || o[2] < 0.0);
            assert!(bvh.intersect(&miss).is_none());
            assert!(!bvh.intersect_p(&miss));
        }
        // a ray inside the box but off the disk
        let corner = ray([0.45, 0.45, 3.0], [0.0, 0.0, -1.0], f32::INFINITY);
        assert!(bvh.nodes[0].bounds().intersect_p(&corner, &RaySlopes::new(&corner.d)));
        assert!(bvh.intersect(&corner).is_none());
    }
}

fn encloses(outer: &Bounds3f, inner: &Bounds3f) -> bool {
    plain(outer.p_min.x) <= plain(inner.p_min.x)
        && plain(outer.p_min.y) <= plain(inner.p_min.y)
        && plain(outer.p_min.z) <= plain(inner.p_min.z)
        && plain(outer.p_max.x) >= plain(inner.p_max.x)
        && plain(outer.p_max.y) >= plain(inner.p_max.y)
        && plain(outer.p_max.z) >= plain(inner.p_max.z)
}

/// Walks the subtree at `i`, marks the primitives of its leaves, and gives
/// the index behind the subtree.
fn walk(bvh: &BVHAccel<Sphere>, i: usize, seen: &mut Vec<u32>, next_place: &mut usize) -> usize {
    match bvh.nodes[i] {
        BvhNode::Leaf { bounds, first, count } => {
            assert!(count >= 1);
            assert_eq!(first, *next_place);
            for k in first..first + count {
                seen[bvh.order[k]] += 1;
                assert!(encloses(&bounds, &bvh.primitives[bvh.order[k]].world_bound()));
            }
            *next_place += count;
            i + 1
        }
        BvhNode::Interior { bounds, axis, second_child } => {
            assert!(axis <= 2);
            let behind_first = walk(bvh, i + 1, seen, next_place);
            assert_eq!(behind_first, second_child);
            let behind = walk(bvh, second_child, seen, next_place);
            assert!(encloses(&bounds, &bvh.nodes[i + 1].bounds()));
            assert!(encloses(&bounds, &bvh.nodes[second_child].bounds()));
            behind
        }
    }
}

#[test]
fn every_primitive_lies_in_one_leaf() {
    for method in METHODS {
        for (n, max_prims) in [(1usize, 1usize), (5, 1), (33, 4), (200, 1), (200, 255)] {
            let bvh = BVHAccel::new(cloud(n, 31), max_prims, method);
            let mut seen = vec![0u32; n];
            let mut next_place = 0;
            let behind = walk(&bvh, 0, &mut seen, &mut next_place);
            assert_eq!(behind, bvh.nodes.len());
            assert_eq!(next_place, n);
            assert!(seen.iter().all(|c| *c == 1));
            assert_eq!(bvh.primitives.len(), n);
            for (k, s) in bvh.primitives.iter().enumerate() {
                assert_eq!(s.id, k);
            }
        }
    }
}

#[test]
fn the_heuristic_keeps_few_primitives_together() {
    let few = BVHAccel::new(cloud(4, 41), 4, SplitMethod::SurfaceAreaHeuristic);
    assert_eq!(few.nodes.len(), 1);
    let split = BVHAccel::new(cloud(4, 41), 1, SplitMethod::SurfaceAreaHeuristic);
    assert!(split.nodes.len() > 1);
    let halves = BVHAccel::new(cloud(8, 41), 1, SplitMethod::EqualCounts);
    assert_eq!(halves.nodes.len(), 15);
    match halves.nodes[0] {
        BvhNode::Interior { second_child, .. } => assert_eq!(second_child, 8),
        BvhNode::Leaf { .. } => panic!("a leaf over eight primitives"),
    }
}

#[test]
fn equal_centroids_stay_in_one_leaf() {
    let same: Vec<Sphere> =
        (0..6).map(|id| Sphere { id, centre: [1.0, 2.0, 3.0], radius: 0.5 + id as f32 }).collect();
    for method in METHODS {
        let bvh = BVHAccel::new(same.clone(), 1, method);
        assert_eq!(bvh.nodes.len(), 1);
        let r = ray([1.0, 2.0, -20.0], [0.0, 0.0, 1.0], f32::INFINITY);
        assert_eq!(bvh.intersect(&r).map(|(_, t)| plain(t)), Some(17.5));
    }
}

#[test]
fn boxes_join_and_measure() {
    let a = cube([0.0, 0.0, 0.0], [1.0, 2.0, 3.0]);
    let b = cube([-1.0, 0.5, 1.0], [0.5, 4.0, 2.0]);
    let u = a.union(&b);
    assert_eq!([plain(u.p_min.x), plain(u.p_min.y), plain(u.p_min.z)], [-1.0, 0.0, 0.0]);
    assert_eq!([plain(u.p_max.x), plain(u.p_max.y), plain(u.p_max.z)], [1.0, 4.0, 3.0]);
    let same = Bounds3f::empty().union(&a);
    assert_eq!(plain(same.p_min.x), 0.0);
    assert_eq!(plain(same.p_max.z), 3.0);
    assert_eq!(plain(a.surface_area()), 22.0);
    assert_eq!(a.maximum_extent(), 2);
    assert_eq!(b.maximum_extent(), 1);
    assert_eq!(cube([0.0; 3], [5.0, 1.0, 1.0]).maximum_extent(), 0);
    let c = a.centroid();
    assert_eq!([plain(c.x), plain(c.y), plain(c.z)], [0.5, 1.0, 1.5]);
    assert_eq!(plain(a.offset(&point(0.25, 0.0, 0.0), 0)), 0.25);
    assert_eq!(plain(a.offset(&point(0.0, 0.0, 3.0), 2)), 1.0);
    let grown = a.union_point(&point(9.0, -9.0, 1.0));
    assert_eq!((plain(grown.p_max.x), plain(grown.p_min.y)), (9.0, -9.0));
}

#[test]
fn a_flat_box_is_crossed_by_a_ray_in_its_plane() {
    // a box without extent along z
    let flat = cube([-1.0, -1.0, 0.0], [1.0, 1.0, 0.0]);
    let through = ray([0.0, 0.0, 1.0], [0.0, 0.0, -1.0], f32::INFINITY);
    assert!(flat.intersect_p(&through, &RaySlopes::new(&through.d)));
    let along = ray([-5.0, 0.0, 0.0], [1.0, 0.0, 0.0], f32::INFINITY);
    assert!(flat.intersect_p(&along, &RaySlopes::new(&along.d)));
    let beside = ray([0.0, 0.0, 1.0], [1.0, 0.0, 0.0], f32::INFINITY);
    assert!(!flat.intersect_p(&beside, &RaySlopes::new(&beside.d)));
    let behind = ray([0.0, 0.0, -1.0], [0.0, 0.0, -1.0], f32::INFINITY);
    assert!(!flat.intersect_p(&behind, &RaySlopes::new(&behind.d)));
    let short = ray([0.0, 0.0, 3.0], [0.0, 0.0, -1.0], 2.0);
    assert!(!flat.intersect_p(&short, &RaySlopes::new(&short.d)));
    let at_the_corner = ray([1.0, 1.0, 1.0], [-0.001, -0.001, -1.0], f32::INFINITY);
    assert!(flat.intersect_p(&at_the_corner, &RaySlopes::new(&at_the_corner.d)));
}

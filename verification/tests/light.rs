use rand::rngs::SmallRng;
use rand::SeedableRng;
use rand_distr::{Distribution, UnitSphere};
use std::cell::{Cell, RefCell};
use tracer::bvh::BvhNode;
use tracer::hittable::ray_sphere_intersection;
use tracer::material::Lambertian;
use tracer::math::{bits_of_key, key_of_bits, Vec3, AABB, INFINITY};
use tracer::render::{HitRecord, Ray};
use tracer::scheduler::Scheduler;
use tracer::transport::{ray_color, T_MIN};

fn key(x: f64) -> i64 {
    key_of_bits(x.to_bits())
}

fn number(key: i64) -> f64 {
    f64::from_bits(bits_of_key(key))
}

fn keys(p: [f64; 3]) -> Vec3 {
    Vec3 { x: key(p[0]), y: key(p[1]), z: key(p[2]) }
}

fn numbers(v: Vec3) -> [f64; 3] {
    [number(v.x), number(v.y), number(v.z)]
}

fn v(x: i64, y: i64, z: i64) -> Vec3 {
    Vec3 { x, y, z }
}

fn some_ray() -> Ray {
    Ray { origin: v(0, 0, 0), direction: v(0, 0, 1), time: 0 }
}

fn record(t: i64) -> HitRecord {
    HitRecord { t, p: v(0, 0, t), normal: v(0, 0, -1), front_facing: true, material: 0, u: 0, v: 0 }
}

// Emitted light plus incoming colour times attenuation, on whole numbers.
fn blend(own: Vec3, incoming: Vec3, attenuation: Vec3) -> Vec3 {
    v(own.x + incoming.x * attenuation.x, own.y + incoming.y * attenuation.y, own.z + incoming.z * attenuation.z)
}

#[test]
fn no_bounce_left_is_black_whatever_the_scene() {
    let asked = Cell::new(0);
    let hittable = |_ray: &Ray, _lo: i64, _hi: i64| {
        asked.set(asked.get() + 1);
        Some(record(5))
    };
    let emitted = |_hit: &HitRecord| v(100, 100, 100);
    let scatter = |ray: &Ray, _hit: &HitRecord| Some((*ray, v(1, 1, 1)));
    let color = ray_color(some_ray(), &v(7, 7, 7), &hittable, &emitted, &scatter, &blend, 0);
    assert_eq!(color, v(0, 0, 0));
    assert_eq!(asked.get(), 0);
}

#[test]
fn a_ray_that_meets_nothing_shows_the_background() {
    let hittable = |_ray: &Ray, _lo: i64, _hi: i64| None;
    let emitted = |_hit: &HitRecord| v(100, 100, 100);
    let scatter = |ray: &Ray, _hit: &HitRecord| Some((*ray, v(1, 1, 1)));
    for depth in [1u16, 2, 50] {
        let color = ray_color(some_ray(), &v(7, 8, 9), &hittable, &emitted, &scatter, &blend, depth);
        assert_eq!(color, v(7, 8, 9));
    }
}

#[test]
fn an_absorbed_ray_shows_what_the_surface_emits() {
    let hittable = |_ray: &Ray, _lo: i64, _hi: i64| Some(record(5));
    let emitted = |hit: &HitRecord| v(hit.t, 2, 3);
    let scatter = |_ray: &Ray, _hit: &HitRecord| None;
    let color = ray_color(some_ray(), &v(7, 8, 9), &hittable, &emitted, &scatter, &blend, 3);
    assert_eq!(color, v(5, 2, 3));
}

#[test]
fn the_scene_is_searched_from_a_hundredth_to_the_infinite() {
    let reach = RefCell::new(Vec::new());
    let hittable = |_ray: &Ray, lo: i64, hi: i64| {
        reach.borrow_mut().push((lo, hi));
        None
    };
    let emitted = |_hit: &HitRecord| v(0, 0, 0);
    let scatter = |_ray: &Ray, _hit: &HitRecord| None;
    ray_color(some_ray(), &v(7, 8, 9), &hittable, &emitted, &scatter, &blend, 3);
    assert_eq!(*reach.borrow(), vec![(key(0.01), key(f64::INFINITY))]);
    assert_eq!(*reach.borrow(), vec![(T_MIN, INFINITY)]);
}

#[test]
fn emission_is_added_after_the_incoming_light_is_attenuated() {
    // Every surface emits 1, keeps a half of what comes in (here: times 2, on whole
    // numbers), and scatters; the background is 10.
    let rays = Cell::new(0);
    let hittable = |ray: &Ray, _lo: i64, _hi: i64| {
        rays.set(rays.get() + 1);
        // The first three rays meet a surface, the fourth escapes.
        if ray.time < 3 {
            Some(record(5))
        } else {
            None
        }
    };
    let emitted = |_hit: &HitRecord| v(1, 1, 1);
    let scatter = |ray: &Ray, hit: &HitRecord| {
        Some((Ray { origin: hit.p, direction: ray.direction, time: ray.time + 1 }, v(2, 3, 0)))
    };
    let background = v(10, 10, 10);
    let seen = |depth: u16| ray_color(some_ray(), &background, &hittable, &emitted, &scatter, &blend, depth);
    // One bounce: 1 + 0 * a.
    assert_eq!(seen(1), v(1, 1, 1));
    // Two: 1 + (1 + 0 * a) * a.
    assert_eq!(seen(2), v(3, 4, 1));
    // Three: 1 + (1 + (1 + 0) * a) * a.
    assert_eq!(seen(3), v(7, 13, 1));
    // Four: the fourth ray escapes to the background.
    assert_eq!(seen(4), v(1 + (1 + (1 + 10 * 2) * 2) * 2, 1 + (1 + (1 + 10 * 3) * 3) * 3, 1));
    // More bounces change nothing: the path ended.
    assert_eq!(seen(9), seen(4));
    rays.set(0);
    seen(2);
    assert_eq!(rays.get(), 2);
}

// A unit ball of a matt red at the origin under a white sky, seen in an image of
// two by two pixels of which only the first looks at the ball.
fn render_ball(threads: usize, depth: u16) -> Vec<[f64; 3]> {
    let boxes = vec![Some(AABB { min: keys([-1.0, -1.0, -1.0]), max: keys([1.0, 1.0, 1.0]) })];
    let tree = BvhNode::from_slice(&boxes, &mut SmallRng::seed_from_u64(0));
    let white = keys([1.0, 1.0, 1.0]);
    let rng = RefCell::new(SmallRng::seed_from_u64(Scheduler::worker_seed(0)));
    let hittable = |ray: &Ray, lo: i64, hi: i64| {
        let (o, d) = (numbers(ray.origin), numbers(ray.direction));
        let probe = |_i: usize, lo: i64, hi: i64| {
            let a = d[0] * d[0] + d[1] * d[1] + d[2] * d[2];
            let half_b = o[0] * d[0] + o[1] * d[1] + o[2] * d[2];
            let c = o[0] * o[0] + o[1] * o[1] + o[2] * o[2] - 1.0;
            let discriminant = half_b * half_b - a * c;
            let sqrtd = discriminant.sqrt();
            let (near, far) = (key((-half_b - sqrtd) / a), key((-half_b + sqrtd) / a));
            let t = number(ray_sphere_intersection(key(discriminant), near, far, lo, hi)?);
            let p = [o[0] + t * d[0], o[1] + t * d[1], o[2] + t * d[2]];
            let facing = d[0] * p[0] + d[1] * p[1] + d[2] * p[2];
            Some(HitRecord::from(key(t), keys(p), key(facing), keys(p), 0))
        };
        tree.hit(&|_b: &AABB, _lo: i64, _hi: i64| true, &probe, lo, hi)
    };
    let emitted = |_hit: &HitRecord| Lambertian::emitted();
    let scatter = |ray: &Ray, hit: &HitRecord| {
        let sample: [f64; 3] = UnitSphere.sample(&mut *rng.borrow_mut());
        let n = numbers(hit.normal);
        let candidate = keys([n[0] + sample[0], n[1] + sample[1], n[2] + sample[2]]);
        let red = |_u: i64, _v: i64, _p: &Vec3| keys([0.9, 0.1, 0.1]);
        Lambertian::scatter(ray, hit, candidate, &red)
    };
    let blend = |own: Vec3, incoming: Vec3, attenuation: Vec3| {
        let (e, c, a) = (numbers(own), numbers(incoming), numbers(attenuation));
        keys([e[0] + c[0] * a[0], e[1] + c[1] * a[1], e[2] + c[2] * a[2]])
    };
    let plus = |sum: Vec3, color: Vec3| {
        let (s, c) = (numbers(sum), numbers(color));
        keys([s[0] + c[0], s[1] + c[1], s[2] + c[2]])
    };
    let cast = |_tid: usize, px: usize, py: usize, _sample: usize| {
        let origin = [0.0, 0.0, -5.0];
        let target = [px as f64 * 4.0 - 0.5, py as f64 * 4.0 - 0.5, 0.0];
        Ray {
            origin: keys(origin),
            direction: keys([target[0] - origin[0], target[1] - origin[1], target[2] - origin[2]]),
            time: key(0.0),
        }
    };
    let image =
        Scheduler::render(&cast, &white, &hittable, &emitted, &scatter, &blend, &plus, 1, threads, 2, 2, depth);
    image.into_iter().map(numbers).collect()
}

#[test]
fn a_pixel_is_the_sum_of_its_samples() {
    let cast = |tid: usize, px: usize, py: usize, n: usize| Ray {
        origin: v(tid as i64, px as i64, py as i64),
        direction: v(0, 0, 1),
        time: n as i64,
    };
    // A ray shows its own number, as a surface that shines and scatters nothing.
    let hittable = |ray: &Ray, _lo: i64, _hi: i64| Some(record(ray.time + 1));
    let emitted = |hit: &HitRecord| v(hit.t, 1, 0);
    let scatter = |_ray: &Ray, _hit: &HitRecord| None;
    let plus = |sum: Vec3, color: Vec3| v(sum.x * 10 + color.x, sum.y + color.y, sum.z + color.z);
    let sum = Scheduler::shade_pixel(&cast, &v(9, 9, 9), &hittable, &emitted, &scatter, &blend, &plus, (0, 3, 4), 3, 5);
    assert_eq!(sum, v(123, 3, 0));
    let none = Scheduler::shade_pixel(&cast, &v(9, 9, 9), &hittable, &emitted, &scatter, &blend, &plus, (0, 3, 4), 0, 5);
    assert_eq!(none, v(0, 0, 0));
    // Without a bounce every sample is black.
    let dark = Scheduler::shade_pixel(&cast, &v(9, 9, 9), &hittable, &emitted, &scatter, &blend, &plus, (0, 3, 4), 3, 0);
    assert_eq!(dark, v(0, 0, 0));
}

#[test]
fn render_casts_the_rays_of_every_pixel_by_the_worker_of_its_row() {
    let asked = RefCell::new(Vec::new());
    let cast = |tid: usize, px: usize, py: usize, n: usize| {
        asked.borrow_mut().push((tid, px, py, n));
        Ray { origin: v(px as i64, py as i64, 0), direction: v(0, 0, 1), time: 0 }
    };
    // Nothing is met: every sample shows the background.
    let hittable = |_ray: &Ray, _lo: i64, _hi: i64| None;
    let emitted = |_hit: &HitRecord| v(0, 0, 0);
    let scatter = |_ray: &Ray, _hit: &HitRecord| None;
    let plus = |sum: Vec3, color: Vec3| v(sum.x + color.x, sum.y + color.y, sum.z + color.z);
    let image = Scheduler::render(&cast, &v(1, 2, 3), &hittable, &emitted, &scatter, &blend, &plus, 2, 2, 2, 3, 4);
    assert_eq!(image, vec![v(2, 4, 6); 6]);
    let mut expected = Vec::new();
    for (tid, rows) in [(0, 0..1), (1, 1..3)] {
        for py in rows {
            for px in 0..2 {
                expected.push((tid, px, py, 0));
                expected.push((tid, px, py, 1));
            }
        }
    }
    assert_eq!(*asked.borrow(), expected);
}

#[test]
fn a_red_ball_under_a_white_sky_at_one_bounce() {
    for threads in [1usize, 2] {
        let image = render_ball(threads, 1);
        assert_eq!(image.len(), 4);
        // The pixel on the ball: its one bounce is spent, no light arrives.
        assert_eq!(image[0], [0.0, 0.0, 0.0]);
        for pixel in &image[1..] {
            assert_eq!(*pixel, [1.0, 1.0, 1.0]);
            assert!(image[0][0] < pixel[0] && image[0][1] < pixel[1] && image[0][2] < pixel[2]);
        }
    }
}

#[test]
fn a_red_ball_under_a_white_sky_at_two_bounces() {
    for threads in [1usize, 2] {
        let image = render_ball(threads, 2);
        // Scattered off a ball that nothing else surrounds, the ray escapes to the sky:
        // the white of the sky, tinted by the ball.
        assert_eq!(image[0], [0.9, 0.1, 0.1]);
        for pixel in &image[1..] {
            assert_eq!(*pixel, [1.0, 1.0, 1.0]);
            // Darker in every channel, and redder: red keeps more than green and blue.
            assert!(image[0][0] < pixel[0] && image[0][1] < pixel[1] && image[0][2] < pixel[2]);
            assert!(image[0][0] > image[0][1] && image[0][0] > image[0][2]);
        }
    }
}

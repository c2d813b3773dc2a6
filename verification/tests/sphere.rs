use raytracer::scalar::less_than;
use raytracer::sphere::nearest_root;

struct Quadratic {
    discriminant: f64,
    smaller: f64,
    larger: f64,
}

// The quadratic for a ray from `origin` along `direction` against a sphere
// round `center`.
fn quadratic(origin: [f64; 3], direction: [f64; 3], center: [f64; 3], radius: f64) -> Quadratic {
    let oc = [origin[0] - center[0], origin[1] - center[1], origin[2] - center[2]];
    let dot = |u: [f64; 3], v: [f64; 3]| u[0] * v[0] + u[1] * v[1] + u[2] * v[2];
    let a = dot(direction, direction);
    let half_b = dot(oc, direction);
    let c = dot(oc, oc) - radius * radius;
    let discriminant = half_b * half_b - a * c;
    let sqrtd = discriminant.sqrt();
    Quadratic { discriminant, smaller: (-half_b - sqrtd) / a, larger: (-half_b + sqrtd) / a }
}

fn hit(q: &Quadratic, t_min: f64, t_max: f64) -> Option<f64> {
    nearest_root(
        q.discriminant.to_bits(),
        q.smaller.to_bits(),
        q.larger.to_bits(),
        t_min.to_bits(),
        t_max.to_bits(),
    )
    .map(f64::from_bits)
}

#[test]
fn ray_along_the_axis_hits_the_near_side() {
    let (origin, direction) = ([0.0, 0.0, 2.0], [0.0, 0.0, -1.0]);
    let (center, radius) = ([0.0, 0.0, -1.0], 0.5);
    let q = quadratic(origin, direction, center, radius);
    let t = hit(&q, 0.001, f64::INFINITY).unwrap();
    assert_eq!(t, 2.5);
    let p =
        [origin[0] + t * direction[0], origin[1] + t * direction[1], origin[2] + t * direction[2]];
    let normal =
        [(p[0] - center[0]) / radius, (p[1] - center[1]) / radius, (p[2] - center[2]) / radius];
    assert_eq!(normal, [0.0, 0.0, 1.0]);
    let against = direction[0] * normal[0] + direction[1] * normal[1] + direction[2] * normal[2];
    assert!(less_than(against.to_bits(), 0.0f64.to_bits()));
}

#[test]
fn ray_from_one_unit_nearer_hits_one_unit_sooner() {
    let q = quadratic([0.0, 0.0, 1.0], [0.0, 0.0, -1.0], [0.0, 0.0, -1.0], 0.5);
    assert_eq!(hit(&q, 0.001, f64::INFINITY), Some(1.5));
}

#[test]
fn ray_that_passes_by_has_no_root() {
    let q = quadratic([0.0, 2.0, 2.0], [0.0, 0.0, -1.0], [0.0, 0.0, -1.0], 0.5);
    assert!(q.discriminant < 0.0);
    assert_eq!(hit(&q, 0.001, f64::INFINITY), None);
}

#[test]
fn ray_from_inside_hits_the_far_side() {
    let q = quadratic([0.0, 0.0, -1.0], [0.0, 0.0, -1.0], [0.0, 0.0, -1.0], 0.5);
    assert_eq!(q.smaller, -0.5);
    assert_eq!(q.larger, 0.5);
    assert_eq!(hit(&q, 0.001, f64::INFINITY), Some(0.5));
}

#[test]
fn sphere_behind_the_ray_is_not_hit() {
    let q = quadratic([0.0, 0.0, -3.0], [0.0, 0.0, -1.0], [0.0, 0.0, -1.0], 0.5);
    assert_eq!(hit(&q, 0.001, f64::INFINITY), None);
}

#[test]
fn window_that_ends_early_cuts_the_hit_off() {
    let q = quadratic([0.0, 0.0, 2.0], [0.0, 0.0, -1.0], [0.0, 0.0, -1.0], 0.5);
    assert_eq!(hit(&q, 0.001, 2.0), None);
    assert_eq!(hit(&q, 0.001, 2.5), Some(2.5));
    assert_eq!(hit(&q, 2.5, 3.0), Some(2.5));
    assert_eq!(hit(&q, 2.6, 3.0), None);
    assert_eq!(hit(&q, 2.6, 3.5), Some(3.5));
    assert_eq!(hit(&q, 3.6, 9.0), None);
}

#[test]
fn smaller_root_is_preferred() {
    let pick = |disc: f64, a: f64, b: f64, lo: f64, hi: f64| {
        nearest_root(disc.to_bits(), a.to_bits(), b.to_bits(), lo.to_bits(), hi.to_bits())
            .map(f64::from_bits)
    };
    assert_eq!(pick(1.0, 2.0, 3.0, 0.0, 10.0), Some(2.0));
    assert_eq!(pick(1.0, -2.0, 3.0, 0.0, 10.0), Some(3.0));
    assert_eq!(pick(1.0, -2.0, 30.0, 0.0, 10.0), None);
    assert_eq!(pick(0.0, 2.0, 2.0, 0.0, 10.0), Some(2.0));
    assert_eq!(pick(-0.0, 2.0, 2.0, 0.0, 10.0), Some(2.0));
    assert_eq!(pick(-1.0, 2.0, 3.0, 0.0, 10.0), None);
    assert_eq!(pick(-1e-300, 2.0, 3.0, 0.0, 10.0), None);
}

#[test]
fn tangent_ray_hits_once() {
    let q = quadratic([0.0, 0.5, 2.0], [0.0, 0.0, -1.0], [0.0, 0.0, -1.0], 0.5);
    assert_eq!(q.discriminant, 0.0);
    assert_eq!(hit(&q, 0.001, f64::INFINITY), Some(3.0));
}
